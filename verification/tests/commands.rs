use aw_man::com::action::ManagerAction;
use aw_man::com::direction::Direction;
use aw_man::com::direction::Direction::{Absolute, Backwards, Forwards};
use aw_man::com::mode::{DisplayMode, Fit};
use aw_man::com::toggle::ScrollMotionTarget::{End, Maintain, Start};
use aw_man::com::toggle::{ScrollMotionTarget, Toggle};
use aw_man::gui::commands::{parse_command, Command, Shown};
use aw_man::gui::layout_manager::Edge;
use aw_man::pattern::Pattern;

fn shown(display: DisplayMode) -> Shown {
    Shown { display, next_jump: 2, prev_jump: 3 }
}

fn run_in(cmd: &str, display: DisplayMode) -> Command {
    parse_command(cmd, shown(display), &Pattern::jump(), &Pattern::open())
}

fn run(cmd: &str) -> Command {
    run_in(cmd, DisplayMode::Single)
}

fn moved(c: &Command) -> Option<(Direction, usize, ScrollMotionTarget)> {
    match c {
        Command::Send(ManagerAction::MovePages(d, n), ctx) => {
            Some((*d, *n, ctx.scroll_motion_target))
        }
        _ => None,
    }
}

fn error(c: Command) -> String {
    match c {
        Command::Error(e) | Command::Unrecognized(e) => e,
        other => panic!("{other:?}"),
    }
}

#[test]
fn moves_between_pages() {
    assert_eq!(moved(&run("NextPage")), Some((Forwards, 2, Start)));
    assert_eq!(moved(&run("PreviousPage")), Some((Backwards, 3, End)));
    let strip = run_in("PreviousPage", DisplayMode::VerticalStrip);
    assert_eq!(moved(&strip), Some((Backwards, 3, Start)));
    assert_eq!(moved(&run("FirstPage")), Some((Absolute, 0, Start)));
    assert_eq!(moved(&run("LastPage")), Some((Absolute, usize::MAX, Start)));
    assert_eq!(moved(&run("NextPage current")), Some((Forwards, 2, Maintain)));
    assert_eq!(moved(&run("PreviousPage start")), Some((Backwards, 3, Start)));
    assert_eq!(moved(&run("  FirstPage   end ")), Some((Absolute, 0, End)));
}

#[test]
fn jumps() {
    assert_eq!(moved(&run("Jump 25")), Some((Absolute, 24, Start)));
    assert_eq!(moved(&run("Jump 0")), Some((Absolute, 0, Start)));
    assert_eq!(moved(&run("Jump +10")), Some((Forwards, 10, Start)));
    assert_eq!(moved(&run("Jump -5")), Some((Backwards, 5, End)));
    assert_eq!(moved(&run("Jump -4 start")), Some((Backwards, 4, Start)));
    assert_eq!(moved(&run("Jump +1 current")), Some((Forwards, 1, Maintain)));
}

#[test]
fn jumps_that_make_no_sense() {
    assert_eq!(error(run("Jump x")), "Unrecognized command \"Jump x\"");
    assert_eq!(error(run("Jump 5 middle")), "Unrecognized command \"Jump 5 middle\"");
    assert_eq!(
        error(run("Jump 99999999999999999999")),
        "number too large to fit in target type"
    );
    assert_eq!(error(run("Jump \u{0663}")), "invalid digit found in string");
}

#[test]
fn modes_are_switched() {
    let manga = |c: &str| match run(c) {
        Command::Send(ManagerAction::Manga(t), _) => Some(t),
        _ => None,
    };
    assert_eq!(manga("MangaMode"), Some(Toggle::Change));
    assert_eq!(manga("ToggleMangaMode"), Some(Toggle::Change));
    assert_eq!(manga("MangaMode on"), Some(Toggle::On));
    assert_eq!(manga("MangaMode  OFF"), Some(Toggle::Off));
    assert_eq!(manga("MangaMode maybe"), None);
    let upscaling = |c: &str| match run(c) {
        Command::Send(ManagerAction::Upscaling(t), _) => Some(t),
        _ => None,
    };
    assert_eq!(upscaling("Upscaling toggle"), Some(Toggle::Change));
    assert_eq!(upscaling("ToggleUpscaling"), Some(Toggle::Change));
}

#[test]
fn the_window_is_switched() {
    assert!(matches!(run("Fullscreen"), Command::Fullscreen(Toggle::Change)));
    assert!(matches!(run("Fullscreen toggle"), Command::Fullscreen(Toggle::Change)));
    assert!(matches!(run("ToggleFullscreen"), Command::Fullscreen(Toggle::Change)));
    assert!(matches!(run("Fullscreen off"), Command::Fullscreen(Toggle::Off)));
    assert!(matches!(run("UI"), Command::Ui(Toggle::Change)));
    assert!(matches!(run("ToggleUI"), Command::Ui(Toggle::Change)));
    assert!(matches!(run("UI on"), Command::Ui(Toggle::On)));
    assert!(matches!(run("Playing off"), Command::Playing(Toggle::Off)));
    assert!(matches!(run("TogglePlaying"), Command::Playing(Toggle::Change)));
}

#[test]
fn layouts_are_chosen() {
    for (name, mode) in [
        ("SinglePage", DisplayMode::Single),
        ("VerticalStrip", DisplayMode::VerticalStrip),
        ("HorizontalStrip", DisplayMode::HorizontalStrip),
        ("DualPage", DisplayMode::DualPage),
        ("DualPageReversed", DisplayMode::DualPageReversed),
    ] {
        assert!(matches!(run(name), Command::Send(ManagerAction::Display(d), _) if d == mode));
    }
    for (name, fit) in [
        ("FitToContainer", Fit::Container),
        ("FitToWidth", Fit::Width),
        ("FitToHeight", Fit::Height),
        ("FullSize", Fit::FullSize),
    ] {
        assert!(matches!(run(name), Command::Send(ManagerAction::FitStrategy(f), _) if f == fit));
    }
}

#[test]
fn scrolling() {
    assert!(matches!(run("ScrollDown"), Command::Scroll(Edge::Bottom, None)));
    assert!(matches!(run("ScrollUp 500"), Command::Scroll(Edge::Top, Some(500))));
    assert!(matches!(run("ScrollRight 1"), Command::Scroll(Edge::Right, Some(1))));
    assert!(matches!(run("ScrollLeft 0"), Command::Nothing));
    assert_eq!(
        error(run("ScrollLeft -1")),
        "Invalid scroll amount -1: invalid digit found in string"
    );
    assert!(matches!(run("SnapTop"), Command::Snap(Edge::Top)));
    assert!(matches!(run("SnapRight"), Command::Snap(Edge::Right)));
}

#[test]
fn programs() {
    assert!(matches!(
        run("Execute /path/to/save-page.sh"),
        Command::Send(ManagerAction::Execute(p), _) if p == "/path/to/save-page.sh"
    ));
    assert!(matches!(
        run("Script  /path/with spaces.sh"),
        Command::Send(ManagerAction::Script(p), _) if p == "/path/with spaces.sh"
    ));
}

fn opened(c: &str) -> Vec<String> {
    match run(c) {
        Command::Send(ManagerAction::Open(v), ctx) => {
            assert_eq!(ctx.scroll_motion_target, ScrollMotionTarget::Start);
            v
        }
        other => panic!("{other:?}"),
    }
}

#[test]
fn files_are_opened() {
    assert_eq!(
        opened("Open /first/path/file.jpg /second/path/file2.jpg \"/path/with spaces/file3.jpg\""),
        vec!["/first/path/file.jpg", "/second/path/file2.jpg", "/path/with spaces/file3.jpg"]
    );
    assert_eq!(opened("Open 'a b'   c"), vec!["a b", "c"]);
    assert_eq!(opened("Open \"unfinished quote"), vec!["unfinished quote"]);
    assert!(matches!(run("Open"), Command::OpenDialog { folders: false }));
    assert!(matches!(run("OpenFolder"), Command::OpenDialog { folders: true }));
}

#[test]
fn the_rest() {
    assert!(matches!(run("Quit"), Command::Quit { commands: true }));
    assert!(matches!(run("Quit nocommand"), Command::Quit { commands: false }));
    assert!(matches!(run("Help"), Command::HelpDialog));
    assert!(matches!(run("Jump"), Command::JumpDialog));
    assert!(matches!(run("Copy"), Command::Copy));
    assert!(matches!(run("SetBackground"), Command::PickBackground));
    assert!(matches!(run("SetBackground #aaaaaa55"), Command::SetBackground(c) if c == "#aaaaaa55"));
    assert!(matches!(run("Status"), Command::Send(ManagerAction::Status, _)));
    assert!(matches!(run("ListPages"), Command::Send(ManagerAction::ListPages, _)));
    assert!(matches!(run("NextArchive"), Command::Send(ManagerAction::NextArchive, _)));
    assert!(matches!(run("PreviousArchive"), Command::Send(ManagerAction::PreviousArchive, _)));
}

#[test]
fn unknown_commands_are_quoted() {
    assert_eq!(error(run("Foo \"bar\"")), "Unrecognized command \"Foo \\\"bar\\\"\"");
    assert_eq!(error(run("quit")), "Unrecognized command \"quit\"");
    assert_eq!(error(run("")), "Unrecognized command \"\"");
}

#[test]
fn switches_toggle_by_themselves() {
    for word in ["UI", "Fullscreen", "Playing", "MangaMode", "Upscaling"] {
        let alone = format!("{:?}", run(word));
        for arg in ["toggle", "Toggle", "  TOGGLE "] {
            assert_eq!(format!("{:?}", run(&format!("{word} {arg}"))), alone);
        }
        assert_ne!(format!("{:?}", run(&format!("{word} on"))), alone);
    }
    assert!(matches!(run("Fullscreen"), Command::Fullscreen(Toggle::Change)));
}

#[test]
fn jumps_and_openings_take_the_whole_command() {
    assert_eq!(error(run("Jump +")), "Unrecognized command \"Jump +\"");
    assert_eq!(error(run("Jump 5  end")), "Unrecognized command \"Jump 5  end\"");
    assert_eq!(error(run("Jump 5 end1")), "Unrecognized command \"Jump 5 end1\"");
    assert_eq!(error(run("Jump ++5")), "Unrecognized command \"Jump ++5\"");
    assert_eq!(error(run("Open a\nb")), "Unrecognized command \"Open a\\nb\"");
    assert_eq!(moved(&run("  Jump -12 END ")), Some((Backwards, 12, End)));
}
