use aw_man::com::content::{GuiContent, GuiState, LayoutCount, OffscreenContent};
use aw_man::com::direction::Direction;
use aw_man::com::displayable::Displayable;
use aw_man::com::mode::{DisplayMode, Fit, Modes};
use aw_man::com::one_or_two::OneOrTwo;
use aw_man::com::res::Res;
use aw_man::com::toggle::{Pagination, ScrollMotionTarget};
use aw_man::config::{ContextMenuEntry, ContextMenuGroup, Shortcut};
use aw_man::gui::clipboard::{content, escape, form, formats, value, Form};
use aw_man::gui::dialogs::{
    closes_dialog, get_env, help_row, jump_command, typed_key, Dialog, OpenDialogs,
};
use aw_man::gui::layout_manager::Edge;
use aw_man::gui::menu::{diff_state, setup, GuiCommand, MenuPart};
use aw_man::gui::shortcuts::{find_modifiers, Shortcuts, ALT, CONTROL, LOCK, META, SHIFT, SUPER};
use aw_man::gui::layout::LayoutContents;
use aw_man::gui::window::{
    continuous_pagination, discrete_scroll, page_label, paginate, plan_update, scroll_offset,
    window_title, zoom_level, zoom_page, zoom_text, ContentUpdate, PageMove, SavedWindow,
    SpinnerAction, SpinnerState, WindowState,
};
use aw_man::gui::windows::{position_changed, Correction, Dpi, ScreenRect};
use aw_man::pattern::Pattern;

fn chars(s: &str) -> Vec<char> {
    s.chars().collect()
}

fn strings(v: &[&str]) -> Vec<String> {
    v.iter().map(|s| s.to_string()).collect()
}

fn entry(name: &str, action: &str, group: Option<ContextMenuGroup>) -> ContextMenuEntry {
    ContextMenuEntry { name: name.to_string(), action: action.to_string(), group }
}

fn section(s: &str) -> Option<ContextMenuGroup> {
    Some(ContextMenuGroup::Section(s.to_string()))
}

fn submenu(s: &str) -> Option<ContextMenuGroup> {
    Some(ContextMenuGroup::Submenu(s.to_string()))
}

#[test]
fn menu_commands() {
    let action = |s: &str| {
        let c = GuiCommand::from(&chars(s));
        (c.action(), c.variant().cloned())
    };
    assert_eq!(action("MangaMode"), ("manga", None));
    assert_eq!(action("ToggleMangaMode"), ("manga", None));
    assert_eq!(action("MangaMode toggle"), ("manga", None));
    assert_eq!(action("MangaMode on"), ("action", Some("MangaMode on".to_string())));
    assert_eq!(action("Upscaling"), ("upscaling", None));
    assert_eq!(action("Playing   Toggle"), ("playing", None));
    assert_eq!(action("FitToWidth"), ("fit", Some("FitToWidth".to_string())));
    assert_eq!(action("DualPage"), ("display", Some("DualPage".to_string())));
    assert_eq!(action("Quit"), ("action", Some("Quit".to_string())));
}

#[test]
fn menu_groups_come_in_order_of_first_use() {
    let menu = setup(&vec![
        entry("a", "NextPage", None),
        entry("b", " FitToWidth ", submenu("Fit")),
        entry("c", "Quit", section("End")),
        entry("d", "FullSize", submenu("Fit")),
        entry("e", "Help", section("Fit")),
    ]);
    assert_eq!(menu.len(), 4);
    match &menu[0] {
        MenuPart::Item(i) => {
            assert_eq!((i.name.as_str(), i.action.as_str()), ("a", "context-menu.action"));
            assert_eq!(i.target, Some("NextPage".to_string()));
        }
        other => panic!("{other:?}"),
    }
    match &menu[1] {
        MenuPart::Group(ContextMenuGroup::Submenu(s), items) => {
            assert_eq!(s, "Fit");
            let names: Vec<&str> = items.iter().map(|i| i.name.as_str()).collect();
            assert_eq!(names, vec!["b", "d"]);
            assert_eq!(items[0].action, "context-menu.fit");
        }
        other => panic!("{other:?}"),
    }
    assert!(matches!(&menu[2], MenuPart::Group(ContextMenuGroup::Section(s), v) if s == "End" && v.len() == 1));
    assert!(matches!(&menu[3], MenuPart::Group(ContextMenuGroup::Section(s), v) if s == "Fit" && v.len() == 1));
    assert!(setup(&Vec::new()).is_empty());
}

#[test]
fn menu_follows_modes() {
    let a = Modes::default();
    let mut b = a;
    let same = diff_state(a, b);
    assert!(same.manga.is_none() && same.upscaling.is_none());
    assert!(same.fit.is_none() && same.display.is_none());
    b.manga = true;
    b.fit = Fit::Height;
    b.display = DisplayMode::DualPageReversed;
    let d = diff_state(a, b);
    assert_eq!(d.manga, Some(true));
    assert_eq!(d.upscaling, None);
    assert_eq!(d.fit, Some("FitToHeight"));
    assert_eq!(d.display, Some("DualPageReversed"));
    assert_eq!(diff_state(b, a).display, Some("Single"));
}

fn shortcut(action: &str, key: &str, modifiers: Option<&str>) -> Shortcut {
    Shortcut {
        action: action.to_string(),
        key: key.to_string(),
        modifiers: modifiers.map(|m| m.to_string()),
    }
}

#[test]
fn modifier_keys() {
    assert_eq!(find_modifiers("control"), CONTROL);
    assert_eq!(find_modifiers("control+alt"), CONTROL | ALT);
    assert_eq!(find_modifiers("shift,super,command"), SHIFT | SUPER | META);
    assert_eq!(find_modifiers(""), 0);
    assert_eq!(find_modifiers("contro"), 0);
}

#[test]
fn shortcuts_are_found() {
    let all = vec![
        shortcut("NextPage", "Page_Down", None),
        shortcut("NextPage current", "Page_Down", Some("Control")),
        shortcut("Quit", "Q", Some("CONTROL, Shift")),
    ];
    let s = Shortcuts::parse_shortcuts(&all, &vec![100, 100, 81]);
    let get = |k: u32, m: u32| s.shortcut_from_key(k, m).map(|c| c.as_str());
    assert_eq!(get(100, 0), Some("NextPage"));
    assert_eq!(get(100, CONTROL), Some("NextPage current"));
    assert_eq!(get(100, CONTROL | LOCK), Some("NextPage current"));
    assert_eq!(get(81, CONTROL | SHIFT), Some("Quit"));
    assert_eq!(get(81, CONTROL), None);
    assert_eq!(get(82, 0), None);
}

#[test]
fn the_last_shortcut_counts() {
    let all = vec![shortcut("Quit", "Q", None), shortcut("Help", "Q", Some(""))];
    let s = Shortcuts::parse_shortcuts(&all, &vec![81, 81]);
    assert_eq!(s.shortcut_from_key(81, 0).map(|c| c.as_str()), Some("Help"));
}

#[test]
fn dialogs_open_once() {
    let mut d = OpenDialogs::default();
    assert_eq!(d.ask(Dialog::Jump), None);
    assert_eq!(d.ask(Dialog::Jump), Some("Jump dialog already open"));
    assert_eq!(d.ask(Dialog::Help), None);
    assert_eq!(d.ask(Dialog::Help), Some("Help dialog already open"));
    assert_eq!(d.ask(Dialog::File), None);
    assert_eq!(d.ask(Dialog::File), Some("Open file dialog already open"));
    assert_eq!(d.ask(Dialog::Background), None);
    assert_eq!(d.ask(Dialog::Background), Some("SetBackground dialog already open"));
    d.close(Dialog::Jump);
    assert_eq!(d.ask(Dialog::Jump), None);
    assert_eq!(d.ask(Dialog::Help), Some("Help dialog already open"));
}

#[test]
fn keys_in_the_jump_dialog() {
    assert_eq!(typed_key(""), None);
    assert_eq!(typed_key("12"), None);
    assert_eq!(typed_key("+"), None);
    assert_eq!(typed_key("5-"), None);
    assert_eq!(typed_key("5q"), Some('Q'));
    assert_eq!(typed_key("\u{e9}"), Some('\u{e9}'));
    assert!(closes_dialog("Quit") && !closes_dialog("Quit nocommand"));
}

#[test]
fn texts_in_the_jump_dialog() {
    let p = Pattern::jump();
    assert_eq!(jump_command(&p, "5"), Some("Jump 5".to_string()));
    assert_eq!(jump_command(&p, "+5 end"), Some("Jump +5 end".to_string()));
    assert_eq!(jump_command(&p, "x"), None);
}

#[test]
fn help_rows() {
    let s = shortcut("Help", "question", Some("Shift"));
    let r = help_row(&s, Some('?'));
    assert_eq!((r.modifiers.as_str(), r.key.as_str(), r.action.as_str()), ("Shift", "?", "Help"));
    let s = shortcut("Quit", "Escape", None);
    let r = help_row(&s, Some('\u{1b}'));
    assert_eq!((r.modifiers.as_str(), r.key.as_str(), r.action.as_str()), ("", "Escape", "Quit"));
    assert_eq!(help_row(&shortcut("x", "space", None), Some(' ')).key, "space");
    assert_eq!(help_row(&shortcut("x", "Home", None), None).key, "Home");
    assert_eq!(help_row(&shortcut("x", "weird", None), Some('\u{85}')).key, "weird");
}

#[test]
fn window_variables() {
    let env = get_env(true, false, true, "rgb(0,0,0)".to_string());
    let pair = |a: &str, b: &str| (a.to_string(), b.to_string());
    assert_eq!(
        env,
        vec![
            pair("AWMAN_FULLSCREEN", "true"),
            pair("AWMAN_ANIMATION_PLAYING", "false"),
            pair("AWMAN_UI_VISIBLE", "true"),
            pair("AWMAN_BACKGROUND", "rgb(0,0,0)"),
        ]
    );
}

#[test]
fn clipboard_forms() {
    for f in formats() {
        assert!(form(f).is_some(), "{f}");
    }
    assert_eq!(form("x-special/gnome-copied-files"), Some(Form::FileManager));
    assert_eq!(form("image/png"), None);
}

fn text(bytes: Vec<u8>) -> String {
    String::from_utf8(bytes).unwrap()
}

#[test]
fn clipboard_contents_that_are_no_text() {
    let paths = strings(&["/a", "/\u{10ffff}"]);
    assert_eq!(content("UTF8_STRING", &paths, &Vec::new()).unwrap(), b"/a\n/\xff");
    assert_eq!(content("text/plain", &paths, &Vec::new()).map(text).unwrap(), "/a\n/\\u{fffd}");
    assert_eq!(value(&paths), "");
}

#[test]
fn clipboard_contents() {
    let paths = strings(&["/a b", "/\u{e9}"]);
    let uris = strings(&["file:///a%20b", "file:///%C3%A9"]);
    assert_eq!(
        content("x-special/mate-copied-files", &paths, &uris).map(text).unwrap(),
        "copy\nfile:///a%20b\nfile:///%C3%A9"
    );
    assert_eq!(content("text/uri-list", &paths, &uris).map(text).unwrap(), "file:///a%20b\nfile:///%C3%A9");
    assert_eq!(content("UTF8_STRING", &paths, &uris).map(text).unwrap(), "/a b\n/\u{e9}");
    assert_eq!(content("text/plain", &paths, &uris).map(text).unwrap(), "/a b\n/\\u{e9}");
    assert_eq!(content("image/png", &paths, &uris), Err("Unhandled mime type"));
    assert_eq!(content("STRING", &Vec::new(), &Vec::new()).map(text).unwrap(), "");
    assert_eq!(value(&paths), "/a b/\u{e9}");
}

#[test]
fn escapes_agree_with_std() {
    for s in ["", "plain", "tab\t cr\r lf\n", "'quotes\"", "back\\slash", "\u{e9}\u{1f600}\0\u{7f}~"] {
        let e = escape(s);
        assert_eq!(e, s.escape_default().to_string());
        assert!(e.chars().all(|c| (' '..='~').contains(&c)));
    }
}

#[test]
fn pixel_densities() {
    for (dpi, class) in [
        (0, "dpi100"),
        (108, "dpi100"),
        (109, "dpi125"),
        (132, "dpi125"),
        (133, "dpi150"),
        (157, "dpi175"),
        (180, "dpi175"),
        (181, "dpi200"),
    ] {
        assert_eq!(Dpi(dpi).dpi_class(), class);
    }
    let mut d = Dpi(96);
    assert_eq!(d.set_dpi(96), None);
    assert_eq!(d.set_dpi(144), Some("dpi150"));
    assert_eq!(d, Dpi(144));
}

#[test]
fn full_screen_is_mended() {
    let rect = |left, top, right, bottom| ScreenRect { left, top, right, bottom };
    let monitor = rect(0, 0, 1920, 1080);
    let small = rect(10, 10, 1000, 1090);
    assert_eq!(position_changed(false, true, true, small, monitor), Correction::Nothing);
    assert_eq!(position_changed(true, false, true, small, monitor), Correction::Fullscreen);
    assert_eq!(
        position_changed(true, true, true, small, monitor),
        Correction::Mend { style: true, move_to: Some(monitor) }
    );
    assert_eq!(
        position_changed(true, true, false, monitor, monitor),
        Correction::Mend { style: false, move_to: None }
    );
}

#[test]
fn labels() {
    assert_eq!(page_label(3, 20), "3 / 20");
    assert_eq!(window_title("chapter.cbz"), "chapter.cbz - aw-man");
    assert_eq!(zoom_text(5), "  5%");
    assert_eq!(zoom_text(100), "100%");
    assert_eq!(zoom_text(1234), "1234%");
}

#[test]
fn zoom_levels() {
    assert_eq!(zoom_level(500, Some(1000)), 50);
    assert_eq!(zoom_level(333, Some(1000)), 33);
    assert_eq!(zoom_level(335, Some(1000)), 34);
    assert_eq!(zoom_level(500, Some(0)), 100);
    assert_eq!(zoom_level(500, None), 100);
}

#[test]
fn scroll_offsets() {
    assert_eq!(scroll_offset(Edge::Bottom, None, 300), (0, 300));
    assert_eq!(scroll_offset(Edge::Top, Some(5), 300), (0, -5));
    assert_eq!(scroll_offset(Edge::Right, Some(7), 300), (7, 0));
    assert_eq!(scroll_offset(Edge::Left, None, 300), (-300, 0));
}

#[test]
fn wheels() {
    assert_eq!(discrete_scroll(0, 1), Some(Edge::Bottom));
    assert_eq!(discrete_scroll(0, -1), Some(Edge::Top));
    assert_eq!(discrete_scroll(1, 0), Some(Edge::Right));
    assert_eq!(discrete_scroll(-1, 0), Some(Edge::Left));
    assert_eq!(discrete_scroll(0, 0), None);
}

#[test]
fn window_sizes_are_kept() {
    let r = |w, h| Res { w, h };
    let s = WindowState { maximized: false, fullscreen: false, memorized_size: r(1, 1) };
    let s = s.changed(r(800, 600), true, false);
    assert_eq!(s.memorized_size, r(800, 600));
    let s = s.changed(r(1920, 1080), true, true);
    assert_eq!(s.memorized_size, r(800, 600));
    assert_eq!(s.saved_size(r(1920, 1080)), r(800, 600));
    let s = s.changed(r(1920, 1080), false, false);
    assert_eq!(s.saved_size(r(640, 480)), r(640, 480));
}

#[test]
fn tiny_windows_are_not_restored() {
    let w = SavedWindow { size: Res { w: 99, h: 600 }, maximized: false };
    assert_eq!(w.usable_size(), None);
    let w = SavedWindow { size: Res { w: 100, h: 100 }, maximized: true };
    assert_eq!(w.usable_size(), Some(Res { w: 100, h: 100 }));
    assert!(!w.must_save(Some(w)));
    assert!(w.must_save(None));
}

#[test]
fn spinner() {
    let mut s = SpinnerState::Hidden;
    assert_eq!(s.stop(), SpinnerAction::Nothing);
    assert_eq!(s.start(), SpinnerAction::StartTimer);
    assert_eq!(s.start(), SpinnerAction::Nothing);
    assert_eq!(s.stop(), SpinnerAction::CancelTimer);
    assert_eq!(s.start(), SpinnerAction::StartTimer);
    s.show();
    assert_eq!(s.start(), SpinnerAction::Nothing);
    assert_eq!(s.stop(), SpinnerAction::Stop);
    assert_eq!(s, SpinnerState::Hidden);
}

fn loading(w: u32, h: u32) -> Displayable {
    Displayable::Loading { file_res: Res { w, h }, original_res: Res { w: w * 2, h: h * 2 } }
}

fn failed() -> Displayable {
    Displayable::Error("e".to_string())
}

fn single(current: Displayable) -> GuiContent {
    GuiContent::Single { current, preload: None }
}

fn dual(prev: OffscreenContent, next: OffscreenContent) -> GuiContent {
    GuiContent::Dual { prev, visible: OneOrTwo::Two(loading(1, 1), loading(1, 1)), next }
}

fn strip(prev: OffscreenContent, next: OffscreenContent) -> GuiContent {
    let visible = vec![loading(10, 10), loading(20, 20), loading(30, 30)];
    GuiContent::Strip { prev, current_index: 1, visible, next }
}

fn ahead(pages: usize) -> Option<PageMove> {
    Some(PageMove { direction: Direction::Forwards, pages, target: ScrollMotionTarget::Start })
}

fn back(pages: usize) -> Option<PageMove> {
    Some(PageMove { direction: Direction::Backwards, pages, target: ScrollMotionTarget::End })
}

#[test]
fn scrolling_past_the_end_changes_the_page() {
    let unknown = OffscreenContent::Unknown;
    let none = OffscreenContent::Nothing;
    let two = OffscreenContent::LayoutCompatible(LayoutCount::TwoOrMore);
    let (f, b) = (Pagination::Forwards, Pagination::Backwards);
    assert_eq!(paginate(&single(failed()), f), ahead(1));
    assert_eq!(paginate(&single(failed()), b), back(1));
    assert_eq!(paginate(&dual(unknown, unknown), f), ahead(2));
    assert_eq!(paginate(&dual(unknown, unknown), b), back(1));
    assert_eq!(paginate(&dual(two, unknown), b), back(2));
    assert_eq!(paginate(&dual(none, none), f), None);
    assert_eq!(paginate(&dual(none, none), b), None);
    assert_eq!(paginate(&strip(unknown, unknown), f), ahead(2));
    assert_eq!(paginate(&strip(unknown, unknown), b), back(2));
    assert_eq!(paginate(&strip(none, none), f), None);
    assert_eq!(paginate(&strip(none, none), b), None);
}

#[test]
fn scrolling_on_across_pages() {
    let m = continuous_pagination(Pagination::Backwards);
    assert_eq!((m.direction, m.pages), (Direction::Backwards, 1));
    assert_eq!(m.target, ScrollMotionTarget::Continuous(Pagination::Backwards));
}

#[test]
fn zoom_goes_by_the_original_page() {
    let unknown = OffscreenContent::Unknown;
    assert_eq!(zoom_page(&single(loading(7, 9))), (0, Some(14)));
    assert_eq!(zoom_page(&single(failed())), (0, None));
    assert_eq!(zoom_page(&single(Displayable::Pending)), (0, None));
    assert_eq!(zoom_page(&dual(unknown, unknown)), (0, Some(2)));
    assert_eq!(zoom_page(&strip(unknown, unknown)), (1, Some(40)));
}

fn state(content: GuiContent, archive_id: u16) -> GuiState {
    GuiState { content, archive_id, ..GuiState::default() }
}

#[test]
fn contents_that_stay_the_same() {
    let (start, keep) = (ScrollMotionTarget::Start, ScrollMotionTarget::Maintain);
    let plan = plan_update(&state(single(failed()), 0), &state(single(failed()), 0), start, keep);
    assert!(matches!(plan.content, ContentUpdate::Unchanged));
    assert!(!plan.resized && !plan.loading);
    assert_eq!(plan.pending, keep);
}

#[test]
fn something_is_shown_while_a_page_loads() {
    let (end, keep) = (ScrollMotionTarget::End, ScrollMotionTarget::Maintain);
    let old = state(single(failed()), 0);
    let plan = plan_update(&old, &state(single(loading(5, 6)), 0), end, keep);
    assert!(matches!(plan.content, ContentUpdate::KeepOld));
    assert!(plan.loading);
    assert_eq!(plan.pending, end);
    match plan_update(&old, &state(single(loading(5, 6)), 1), end, keep).content {
        ContentUpdate::Layout(LayoutContents::Single(r), target) => {
            assert_eq!((r, target), (Res { w: 5, h: 6 }, end));
        }
        other => panic!("{other:?}"),
    }
    let plan = plan_update(&old, &state(single(Displayable::Pending), 1), keep, end);
    assert!(matches!(plan.content, ContentUpdate::Wait));
    assert_eq!(plan.pending, end);
}

#[test]
fn contents_are_laid_out() {
    let (start, keep) = (ScrollMotionTarget::Start, ScrollMotionTarget::Maintain);
    let unknown = OffscreenContent::Unknown;
    let old = state(single(loading(5, 6)), 0);
    let plan = plan_update(&old, &state(strip(unknown, unknown), 0), keep, start);
    assert_eq!(plan.pending, keep);
    match plan.content {
        ContentUpdate::Layout(LayoutContents::Strip { current_index, visible }, target) => {
            assert_eq!((current_index, target), (1, start));
            assert_eq!(visible.iter().map(|r| r.w).collect::<Vec<u32>>(), vec![10, 20, 30]);
        }
        other => panic!("{other:?}"),
    }
    let plan = plan_update(&old, &state(single(failed()), 0), start, keep);
    assert!(matches!(plan.content, ContentUpdate::Zero));
}
