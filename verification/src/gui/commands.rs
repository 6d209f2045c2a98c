//! The command language of the window.
use vstd::prelude::*;

use crate::com::action::{ActionView, ManagerAction};
use crate::com::direction::Direction;
use crate::com::mode::{DisplayMode, Fit};
use crate::com::res::lemma_position_skips;
use crate::com::toggle::{
    is_word, parse_scroll_target, parse_toggle, GuiActionContext, ScrollMotionTarget, Toggle,
};
use crate::filenames::{typed, typed_name};
use crate::gui::layout_manager::Edge;
use crate::number::{parse_decimal, parse_u32, parse_usize};
use crate::path::texts;
use crate::pattern::{
    first_match, group_inside, group_of, group_text, jump_source, open_source, Group, Pattern,
};
use crate::text::{
    ascii_lower, chars_of, equal_ignoring_case, position, position_of, same_chars, string_of, trim,
    trim_start, trimmed, trimmed_start, white_space,
};

verus! {

/// A text as it is shown in messages: in quotes, with special characters escaped.
pub uninterp spec fn quoted(s: Seq<char>) -> Seq<char>;

/// `format!` of std with `{:?}` for a text: the result depends on the text alone, and is named by
/// `quoted`.
#[verifier::external_body]
pub(crate) fn quote(s: &str) -> (r: String)
    ensures
        r@ == quoted(s@),
{
    format!("{s:?}")
}

/// What the window does on a command.
#[derive(Debug)]
pub enum Command {
    /// Ask the page manager.
    Send(ManagerAction, GuiActionContext),
    SetBackground(String),
    PickBackground,
    JumpDialog,
    OpenDialog { folders: bool },
    HelpDialog,
    Ui(Toggle),
    Fullscreen(Toggle),
    Playing(Toggle),
    /// Scroll towards an edge, by the usual amount if none is given.
    Scroll(Edge, Option<u32>),
    Snap(Edge),
    /// Quit, after running the command for that or without.
    Quit { commands: bool },
    Copy,
    Nothing,
    /// Something is wrong with the command.
    Error(String),
    /// There is no such command.
    Unrecognized(String),
}

/// What a command is.
pub enum CommandView {
    Send(ActionView, GuiActionContext),
    SetBackground(Seq<char>),
    PickBackground,
    JumpDialog,
    OpenDialog { folders: bool },
    HelpDialog,
    Ui(Toggle),
    Fullscreen(Toggle),
    Playing(Toggle),
    Scroll(Edge, Option<u32>),
    Snap(Edge),
    /// Quit, after running the command for that or without.
    Quit { commands: bool },
    Copy,
    Nothing,
    Error(Seq<char>),
    Unrecognized(Seq<char>),
}

impl View for Command {
    type V = CommandView;

    open spec fn view(&self) -> CommandView {
        match self {
            Command::Send(a, c) => CommandView::Send(a@, *c),
            Command::SetBackground(s) => CommandView::SetBackground(s@),
            Command::PickBackground => CommandView::PickBackground,
            Command::JumpDialog => CommandView::JumpDialog,
            Command::OpenDialog { folders } => CommandView::OpenDialog { folders: *folders },
            Command::HelpDialog => CommandView::HelpDialog,
            Command::Ui(t) => CommandView::Ui(*t),
            Command::Fullscreen(t) => CommandView::Fullscreen(*t),
            Command::Playing(t) => CommandView::Playing(*t),
            Command::Scroll(e, n) => CommandView::Scroll(*e, *n),
            Command::Snap(e) => CommandView::Snap(*e),
            Command::Quit { commands } => CommandView::Quit { commands: *commands },
            Command::Copy => CommandView::Copy,
            Command::Nothing => CommandView::Nothing,
            Command::Error(s) => CommandView::Error(s@),
            Command::Unrecognized(s) => CommandView::Unrecognized(s@),
        }
    }
}

/// What commands depend on besides their text.
#[derive(Clone, Copy, Debug)]
pub struct Shown {
    pub display: DisplayMode,
    /// How many pages to move by to the next ones.
    pub next_jump: usize,
    /// How many pages to move by to the previous ones.
    pub prev_jump: usize,
}

/// An action with a scroll target.
pub open spec fn send(a: ActionView, target: ScrollMotionTarget) -> CommandView {
    CommandView::Send(a, GuiActionContext { scroll_motion_target: target })
}

/// An action that leaves the scroll position alone.
pub open spec fn send_plain(a: ActionView) -> CommandView {
    send(a, ScrollMotionTarget::Maintain)
}

/// The commands that are asked of the page manager as they are.
pub open spec fn simple_send(s: Seq<char>, shown: Shown) -> Option<CommandView> {
    let space = position(s, ' ') as int;
    if space < s.len() {
        let cmd = s.take(space);
        match parse_toggle(trim_start(s.skip(space + 1))) {
            Ok(t) => if cmd == "MangaMode"@ {
                Some(send_plain(ActionView::Manga(t)))
            } else if cmd == "Upscaling"@ {
                Some(send_plain(ActionView::Upscaling(t)))
            } else {
                None
            },
            Err(_) => None,
        }
    } else if s == "NextPage"@ {
        Some(
            send(
                ActionView::MovePages(Direction::Forwards, shown.next_jump),
                ScrollMotionTarget::Start,
            ),
        )
    } else if s == "PreviousPage"@ {
        Some(
            send(
                ActionView::MovePages(Direction::Backwards, shown.prev_jump),
                if shown.display.is_strip() {
                    ScrollMotionTarget::Start
                } else {
                    ScrollMotionTarget::End
                },
            ),
        )
    } else if s == "FirstPage"@ {
        Some(send(ActionView::MovePages(Direction::Absolute, 0), ScrollMotionTarget::Start))
    } else if s == "LastPage"@ {
        Some(send(ActionView::MovePages(Direction::Absolute, usize::MAX), ScrollMotionTarget::Start))
    } else if s == "NextArchive"@ {
        Some(send(ActionView::NextArchive, ScrollMotionTarget::Start))
    } else if s == "PreviousArchive"@ {
        Some(send(ActionView::PreviousArchive, ScrollMotionTarget::Start))
    } else if s == "ToggleUpscaling"@ || s == "Upscaling"@ {
        Some(send_plain(ActionView::Upscaling(Toggle::Change)))
    } else if s == "ToggleMangaMode"@ || s == "MangaMode"@ {
        Some(send_plain(ActionView::Manga(Toggle::Change)))
    } else if s == "Status"@ {
        Some(send_plain(ActionView::Status))
    } else if s == "ListPages"@ {
        Some(send_plain(ActionView::ListPages))
    } else if s == "FitToContainer"@ {
        Some(send_plain(ActionView::FitStrategy(Fit::Container)))
    } else if s == "FitToWidth"@ {
        Some(send_plain(ActionView::FitStrategy(Fit::Width)))
    } else if s == "FitToHeight"@ {
        Some(send_plain(ActionView::FitStrategy(Fit::Height)))
    } else if s == "FullSize"@ {
        Some(send_plain(ActionView::FitStrategy(Fit::FullSize)))
    } else if s == "VerticalStrip"@ {
        Some(send_plain(ActionView::Display(DisplayMode::VerticalStrip)))
    } else if s == "HorizontalStrip"@ {
        Some(send_plain(ActionView::Display(DisplayMode::HorizontalStrip)))
    } else if s == "DualPage"@ {
        Some(send_plain(ActionView::Display(DisplayMode::DualPage)))
    } else if s == "DualPageReversed"@ {
        Some(send_plain(ActionView::Display(DisplayMode::DualPageReversed)))
    } else if s == "SinglePage"@ {
        Some(send_plain(ActionView::Display(DisplayMode::Single)))
    } else {
        None
    }
}

/// The edge that a scroll command goes towards.
pub open spec fn scroll_edge(cmd: Seq<char>) -> Option<Edge> {
    if cmd == "ScrollDown"@ {
        Some(Edge::Bottom)
    } else if cmd == "ScrollUp"@ {
        Some(Edge::Top)
    } else if cmd == "ScrollRight"@ {
        Some(Edge::Right)
    } else if cmd == "ScrollLeft"@ {
        Some(Edge::Left)
    } else {
        None
    }
}

/// The edge that a snap command goes to.
pub open spec fn snap_edge(cmd: Seq<char>) -> Option<Edge> {
    if cmd == "SnapBottom"@ {
        Some(Edge::Bottom)
    } else if cmd == "SnapTop"@ {
        Some(Edge::Top)
    } else if cmd == "SnapRight"@ {
        Some(Edge::Right)
    } else if cmd == "SnapLeft"@ {
        Some(Edge::Left)
    } else {
        None
    }
}

/// A scroll command with an amount.
pub open spec fn scroll_by(edge: Edge, arg: Seq<char>) -> CommandView {
    match parse_decimal(arg, u32::MAX as nat) {
        Ok(n) => if n == 0 {
            CommandView::Nothing
        } else {
            CommandView::Scroll(edge, Some(n as u32))
        },
        Err(e) => CommandView::Error("Invalid scroll amount "@ + arg + ": "@ + e.words()),
    }
}

/// The commands with an argument.
pub open spec fn with_argument(cmd: Seq<char>, arg: Seq<char>, shown: Shown) -> Option<CommandView> {
    if cmd == "SetBackground"@ {
        Some(CommandView::SetBackground(arg))
    } else if cmd == "Execute"@ {
        Some(send_plain(ActionView::Execute(arg)))
    } else if cmd == "Script"@ {
        Some(send_plain(ActionView::Script(arg)))
    } else if cmd == "Quit"@ && equal_ignoring_case(arg, "nocommand"@) {
        Some(CommandView::Quit { commands: false })
    } else if scroll_edge(cmd) is Some {
        Some(scroll_by(scroll_edge(cmd)->0, arg))
    } else if parse_toggle(arg) is Ok && cmd == "UI"@ {
        Some(CommandView::Ui(parse_toggle(arg)->Ok_0))
    } else if parse_toggle(arg) is Ok && cmd == "Fullscreen"@ {
        Some(CommandView::Fullscreen(parse_toggle(arg)->Ok_0))
    } else if parse_toggle(arg) is Ok && cmd == "Playing"@ {
        Some(CommandView::Playing(parse_toggle(arg)->Ok_0))
    } else {
        match parse_scroll_target(arg) {
            Ok(target) => if cmd == "NextPage"@ {
                Some(send(ActionView::MovePages(Direction::Forwards, shown.next_jump), target))
            } else if cmd == "PreviousPage"@ {
                Some(send(ActionView::MovePages(Direction::Backwards, shown.prev_jump), target))
            } else if cmd == "FirstPage"@ {
                Some(send(ActionView::MovePages(Direction::Absolute, 0), target))
            } else if cmd == "LastPage"@ {
                Some(send(ActionView::MovePages(Direction::Absolute, usize::MAX), target))
            } else {
                None
            },
            Err(_) => None,
        }
    }
}

/// The commands that are a single word and concern the window.
pub open spec fn plain_command(cmd: Seq<char>) -> Option<CommandView> {
    if cmd == "Quit"@ {
        Some(CommandView::Quit { commands: true })
    } else if cmd == "ToggleUI"@ || cmd == "UI"@ {
        Some(CommandView::Ui(Toggle::Change))
    } else if cmd == "SetBackground"@ {
        Some(CommandView::PickBackground)
    } else if cmd == "Jump"@ {
        Some(CommandView::JumpDialog)
    } else if cmd == "Open"@ {
        Some(CommandView::OpenDialog { folders: false })
    } else if cmd == "OpenFolder"@ {
        Some(CommandView::OpenDialog { folders: true })
    } else if cmd == "Help"@ {
        Some(CommandView::HelpDialog)
    } else if cmd == "ToggleFullscreen"@ || cmd == "Fullscreen"@ {
        Some(CommandView::Fullscreen(Toggle::Change))
    } else if cmd == "TogglePlaying"@ || cmd == "Playing"@ {
        Some(CommandView::Playing(Toggle::Change))
    } else if scroll_edge(cmd) is Some {
        Some(CommandView::Scroll(scroll_edge(cmd)->0, None))
    } else if snap_edge(cmd) is Some {
        Some(CommandView::Snap(snap_edge(cmd)->0))
    } else if cmd == "Copy"@ {
        Some(CommandView::Copy)
    } else {
        None
    }
}

/// The answer to a command that there is not.
pub open spec fn unrecognized(cmd: Seq<char>) -> CommandView {
    CommandView::Unrecognized("Unrecognized command "@ + quoted(cmd))
}

/// A command to go to a page, by the groups of the jump expression: the sign, the number and the
/// scroll target. Pages count from one, but nought is accepted too.
pub open spec fn jump_to(cmd: Seq<char>, groups: Seq<Group>) -> CommandView {
    let sign = group_text(groups, 1, cmd);
    let number = group_text(groups, 2, cmd).unwrap_or(Seq::empty());
    let target = group_text(groups, 4, cmd);
    match parse_decimal(number, usize::MAX as nat) {
        Err(e) => CommandView::Error(e.words()),
        Ok(n) => if target is Some && parse_scroll_target(target->0) is Err {
            unrecognized(cmd)
        } else {
            let wanted = match target {
                Some(t) => Some(parse_scroll_target(t)->Ok_0),
                None => None,
            };
            if sign is None {
                send(
                    ActionView::MovePages(
                        Direction::Absolute,
                        (if n == 0 {
                            0int
                        } else {
                            n - 1
                        }) as usize,
                    ),
                    wanted.unwrap_or(ScrollMotionTarget::Start),
                )
            } else if sign->0 == seq!['+'] {
                send(
                    ActionView::MovePages(Direction::Forwards, n as usize),
                    wanted.unwrap_or(ScrollMotionTarget::Start),
                )
            } else if sign->0 == seq!['-'] {
                send(
                    ActionView::MovePages(Direction::Backwards, n as usize),
                    wanted.unwrap_or(ScrollMotionTarget::End),
                )
            } else {
                unrecognized(cmd)
            }
        },
    }
}

/// A quotation mark.
pub open spec fn is_quote(c: char) -> bool {
    c == '"' || c == '\''
}

/// The files of a list. A space separates them, but for those in quotation marks. Nothing is
/// escaped.
pub open spec fn split_files(s: Seq<char>) -> Seq<Seq<char>>
    decreases s.len(),
    via split_files_decreases
{
    if s.len() == 0 {
        seq![]
    } else {
        let body = if is_quote(s[0]) {
            s.skip(1)
        } else {
            s
        };
        let separator = if is_quote(s[0]) {
            s[0]
        } else {
            ' '
        };
        let end = position(body, separator) as int;
        if end < body.len() {
            seq![typed(body.take(end))] + split_files(trim_start(body.skip(end + 1)))
        } else {
            seq![typed(body)]
        }
    }
}

#[via_fn]
proof fn split_files_decreases(s: Seq<char>) {
    if s.len() > 0 {
        let body = if is_quote(s[0]) {
            s.skip(1)
        } else {
            s
        };
        let separator = if is_quote(s[0]) {
            s[0]
        } else {
            ' '
        };
        let end = position(body, separator) as int;
        if end < body.len() {
            lemma_trim_start_shortens(body.skip(end + 1));
        }
    }
}

proof fn lemma_trim_start_shortens(s: Seq<char>)
    ensures
        trim_start(s).len() <= s.len(),
    decreases s.len(),
{
    if s.len() > 0 && white_space(s[0]) {
        lemma_trim_start_shortens(s.skip(1));
    }
}

/// A command to open files, by the groups of the open expression.
pub open spec fn open_files(cmd: Seq<char>, groups: Seq<Group>) -> CommandView {
    let list = trim(group_text(groups, 1, cmd).unwrap_or(Seq::empty()));
    send(ActionView::Open(split_files(list)), ScrollMotionTarget::Start)
}

/// What the window does on a command without white space round it, given the groups of the jump
/// and the open expression in it.
pub open spec fn command_of(
    cmd: Seq<char>,
    shown: Shown,
    jump: Option<Seq<Group>>,
    open: Option<Seq<Group>>,
) -> CommandView {
    let space = position(cmd, ' ') as int;
    let argument = if space < cmd.len() {
        with_argument(cmd.take(space), trim_start(cmd.skip(space + 1)), shown)
    } else {
        None
    };
    if simple_send(cmd, shown) is Some {
        simple_send(cmd, shown)->0
    } else if argument is Some {
        argument->0
    } else if plain_command(cmd) is Some {
        plain_command(cmd)->0
    } else if jump is Some {
        jump_to(cmd, jump->0)
    } else if open is Some {
        open_files(cmd, open->0)
    } else {
        unrecognized(cmd)
    }
}

/// Whether some characters are those of a word.
fn is(v: &[char], word: &str) -> (r: bool)
    ensures
        r == (v@ == word@),
{
    let w = chars_of(word);
    same_chars(v, w.as_slice())
}

fn sent(a: ManagerAction, scroll_motion_target: ScrollMotionTarget) -> (r: Command)
    ensures
        r@ == send(a@, scroll_motion_target),
{
    Command::Send(a, GuiActionContext { scroll_motion_target })
}

fn sent_plain(a: ManagerAction) -> (r: Command)
    ensures
        r@ == send_plain(a@),
{
    sent(a, ScrollMotionTarget::Maintain)
}

/// The commands that are asked of the page manager as they are.
fn read_simple_send(s: &[char], shown: Shown) -> (r: Option<Command>)
    ensures
        match simple_send(s@, shown) {
            Some(c) => r matches Some(x) && x@ == c,
            None => r is None,
        },
{
    let space: usize = position_of(s, ' ');
    if space < s.len() {
        let cmd = vstd::slice::slice_subrange(s, 0, space);
        let rest = vstd::slice::slice_subrange(s, space + 1, s.len());
        assert(cmd@ =~= s@.take(space as int));
        assert(rest@ =~= s@.skip(space + 1));
        return match Toggle::try_from(trimmed_start(rest)) {
            Ok(t) => if is(cmd, "MangaMode") {
                Some(sent_plain(ManagerAction::Manga(t)))
            } else if is(cmd, "Upscaling") {
                Some(sent_plain(ManagerAction::Upscaling(t)))
            } else {
                None
            },
            Err(_) => None,
        };
    }
    if is(s, "NextPage") {
        Some(
            sent(
                ManagerAction::MovePages(Direction::Forwards, shown.next_jump),
                ScrollMotionTarget::Start,
            ),
        )
    } else if is(s, "PreviousPage") {
        let target = if shown.display.strip() {
            ScrollMotionTarget::Start
        } else {
            ScrollMotionTarget::End
        };
        Some(sent(ManagerAction::MovePages(Direction::Backwards, shown.prev_jump), target))
    } else if is(s, "FirstPage") {
        Some(sent(ManagerAction::MovePages(Direction::Absolute, 0), ScrollMotionTarget::Start))
    } else if is(s, "LastPage") {
        Some(
            sent(
                ManagerAction::MovePages(Direction::Absolute, usize::MAX),
                ScrollMotionTarget::Start,
            ),
        )
    } else if is(s, "NextArchive") {
        Some(sent(ManagerAction::NextArchive, ScrollMotionTarget::Start))
    } else if is(s, "PreviousArchive") {
        Some(sent(ManagerAction::PreviousArchive, ScrollMotionTarget::Start))
    } else if is(s, "ToggleUpscaling") || is(s, "Upscaling") {
        Some(sent_plain(ManagerAction::Upscaling(Toggle::Change)))
    } else if is(s, "ToggleMangaMode") || is(s, "MangaMode") {
        Some(sent_plain(ManagerAction::Manga(Toggle::Change)))
    } else if is(s, "Status") {
        Some(sent_plain(ManagerAction::Status))
    } else if is(s, "ListPages") {
        Some(sent_plain(ManagerAction::ListPages))
    } else {
        read_mode(s)
    }
}

/// The commands that switch to a mode.
fn read_mode(s: &[char]) -> (r: Option<Command>)
    requires
        position(s@, ' ') == s@.len(),
        s@ != "NextPage"@,
        s@ != "PreviousPage"@,
        s@ != "FirstPage"@,
        s@ != "LastPage"@,
        s@ != "NextArchive"@,
        s@ != "PreviousArchive"@,
        s@ != "ToggleUpscaling"@,
        s@ != "Upscaling"@,
        s@ != "ToggleMangaMode"@,
        s@ != "MangaMode"@,
        s@ != "Status"@,
        s@ != "ListPages"@,
    ensures
        forall|shown: Shown|
            match #[trigger] simple_send(s@, shown) {
                Some(c) => r matches Some(x) && x@ == c,
                None => r is None,
            },
{
    if is(s, "FitToContainer") {
        Some(sent_plain(ManagerAction::FitStrategy(Fit::Container)))
    } else if is(s, "FitToWidth") {
        Some(sent_plain(ManagerAction::FitStrategy(Fit::Width)))
    } else if is(s, "FitToHeight") {
        Some(sent_plain(ManagerAction::FitStrategy(Fit::Height)))
    } else if is(s, "FullSize") {
        Some(sent_plain(ManagerAction::FitStrategy(Fit::FullSize)))
    } else if is(s, "VerticalStrip") {
        Some(sent_plain(ManagerAction::Display(DisplayMode::VerticalStrip)))
    } else if is(s, "HorizontalStrip") {
        Some(sent_plain(ManagerAction::Display(DisplayMode::HorizontalStrip)))
    } else if is(s, "DualPage") {
        Some(sent_plain(ManagerAction::Display(DisplayMode::DualPage)))
    } else if is(s, "DualPageReversed") {
        Some(sent_plain(ManagerAction::Display(DisplayMode::DualPageReversed)))
    } else if is(s, "SinglePage") {
        Some(sent_plain(ManagerAction::Display(DisplayMode::Single)))
    } else {
        None
    }
}

fn read_scroll_edge(cmd: &[char]) -> (r: Option<Edge>)
    ensures
        r == scroll_edge(cmd@),
{
    if is(cmd, "ScrollDown") {
        Some(Edge::Bottom)
    } else if is(cmd, "ScrollUp") {
        Some(Edge::Top)
    } else if is(cmd, "ScrollRight") {
        Some(Edge::Right)
    } else if is(cmd, "ScrollLeft") {
        Some(Edge::Left)
    } else {
        None
    }
}

fn read_snap_edge(cmd: &[char]) -> (r: Option<Edge>)
    ensures
        r == snap_edge(cmd@),
{
    if is(cmd, "SnapBottom") {
        Some(Edge::Bottom)
    } else if is(cmd, "SnapTop") {
        Some(Edge::Top)
    } else if is(cmd, "SnapRight") {
        Some(Edge::Right)
    } else if is(cmd, "SnapLeft") {
        Some(Edge::Left)
    } else {
        None
    }
}

fn read_scroll_by(edge: Edge, arg: &[char]) -> (r: Command)
    ensures
        r@ == scroll_by(edge, arg@),
{
    match parse_u32(arg) {
        Ok(n) => if n == 0 {
            Command::Nothing
        } else {
            Command::Scroll(edge, Some(n))
        },
        Err(e) => {
            let mut s = "Invalid scroll amount ".to_owned();
            s.append(string_of(arg).as_str());
            s.append(": ");
            s.append(e.message());
            Command::Error(s)
        },
    }
}

/// The commands with an argument.
fn read_with_argument(cmd: &[char], arg: &[char], shown: Shown) -> (r: Option<Command>)
    ensures
        match with_argument(cmd@, arg@, shown) {
            Some(c) => r matches Some(x) && x@ == c,
            None => r is None,
        },
{
    if is(cmd, "SetBackground") {
        return Some(Command::SetBackground(string_of(arg)));
    }
    if is(cmd, "Execute") {
        return Some(sent_plain(ManagerAction::Execute(string_of(arg))));
    }
    if is(cmd, "Script") {
        return Some(sent_plain(ManagerAction::Script(string_of(arg))));
    }
    if is(cmd, "Quit") && is_word(arg, "nocommand") {
        return Some(Command::Quit { commands: false });
    }
    match read_scroll_edge(cmd) {
        Some(edge) => return Some(read_scroll_by(edge, arg)),
        None => {},
    }
    match Toggle::try_from(arg) {
        Ok(t) => {
            if is(cmd, "UI") {
                return Some(Command::Ui(t));
            }
            if is(cmd, "Fullscreen") {
                return Some(Command::Fullscreen(t));
            }
            if is(cmd, "Playing") {
                return Some(Command::Playing(t));
            }
        },
        Err(_) => {},
    }
    match ScrollMotionTarget::try_from(arg) {
        Ok(target) => if is(cmd, "NextPage") {
            Some(sent(ManagerAction::MovePages(Direction::Forwards, shown.next_jump), target))
        } else if is(cmd, "PreviousPage") {
            Some(sent(ManagerAction::MovePages(Direction::Backwards, shown.prev_jump), target))
        } else if is(cmd, "FirstPage") {
            Some(sent(ManagerAction::MovePages(Direction::Absolute, 0), target))
        } else if is(cmd, "LastPage") {
            Some(sent(ManagerAction::MovePages(Direction::Absolute, usize::MAX), target))
        } else {
            None
        },
        Err(_) => None,
    }
}

/// The commands that are a single word and concern the window.
fn read_plain_command(cmd: &[char]) -> (r: Option<Command>)
    ensures
        match plain_command(cmd@) {
            Some(c) => r matches Some(x) && x@ == c,
            None => r is None,
        },
{
    if is(cmd, "Quit") {
        Some(Command::Quit { commands: true })
    } else if is(cmd, "ToggleUI") || is(cmd, "UI") {
        Some(Command::Ui(Toggle::Change))
    } else if is(cmd, "SetBackground") {
        Some(Command::PickBackground)
    } else if is(cmd, "Jump") {
        Some(Command::JumpDialog)
    } else if is(cmd, "Open") {
        Some(Command::OpenDialog { folders: false })
    } else if is(cmd, "OpenFolder") {
        Some(Command::OpenDialog { folders: true })
    } else if is(cmd, "Help") {
        Some(Command::HelpDialog)
    } else if is(cmd, "ToggleFullscreen") || is(cmd, "Fullscreen") {
        Some(Command::Fullscreen(Toggle::Change))
    } else if is(cmd, "TogglePlaying") || is(cmd, "Playing") {
        Some(Command::Playing(Toggle::Change))
    } else {
        match read_scroll_edge(cmd) {
            Some(e) => return Some(Command::Scroll(e, None)),
            None => {},
        }
        match read_snap_edge(cmd) {
            Some(e) => return Some(Command::Snap(e)),
            None => {},
        }
        if is(cmd, "Copy") {
            Some(Command::Copy)
        } else {
            None
        }
    }
}

fn answer_unrecognized(cmd: &[char]) -> (r: Command)
    ensures
        r@ == unrecognized(cmd@),
{
    let mut s = "Unrecognized command ".to_owned();
    s.append(quote(string_of(cmd).as_str()).as_str());
    Command::Unrecognized(s)
}

/// A command to go to a page, by the groups of the jump expression.
fn read_jump(cmd: &[char], groups: &[Group]) -> (r: Command)
    requires
        forall|j: int| 0 <= j < groups@.len() ==> group_inside(#[trigger] groups@[j], cmd@),
    ensures
        r@ == jump_to(cmd@, groups@),
{
    let none: Vec<char> = Vec::new();
    assert(none@ =~= Seq::<char>::empty());
    let number: &[char] = match group_of(groups, 2, cmd) {
        Some(g) => g,
        None => none.as_slice(),
    };
    let n: usize = match parse_usize(number) {
        Ok(n) => n,
        Err(e) => return Command::Error(e.message().to_owned()),
    };
    let wanted: Option<ScrollMotionTarget> = match group_of(groups, 4, cmd) {
        Some(t) => match ScrollMotionTarget::try_from(t) {
            Ok(t) => Some(t),
            Err(_) => return answer_unrecognized(cmd),
        },
        None => None,
    };
    match group_of(groups, 1, cmd) {
        None => {
            let page: usize = if n == 0 {
                0
            } else {
                n - 1
            };
            sent(
                ManagerAction::MovePages(Direction::Absolute, page),
                match wanted {
                    Some(t) => t,
                    None => ScrollMotionTarget::Start,
                },
            )
        },
        Some(sign) => {
            proof {
                if sign@.len() == 1 {
                    assert(sign@ =~= seq![sign@[0]]);
                }
            }
            if sign.len() == 1 && sign[0] == '+' {
                sent(
                    ManagerAction::MovePages(Direction::Forwards, n),
                    match wanted {
                        Some(t) => t,
                        None => ScrollMotionTarget::Start,
                    },
                )
            } else if sign.len() == 1 && sign[0] == '-' {
                sent(
                    ManagerAction::MovePages(Direction::Backwards, n),
                    match wanted {
                        Some(t) => t,
                        None => ScrollMotionTarget::End,
                    },
                )
            } else {
                answer_unrecognized(cmd)
            }
        },
    }
}

/// The files of a list.
fn read_files(list: &[char]) -> (r: Vec<String>)
    ensures
        texts(r@) == split_files(list@),
{
    let mut files: &[char] = list;
    let mut paths: Vec<String> = Vec::new();
    assert(texts(paths@) =~= Seq::<Seq<char>>::empty());
    assert(texts(paths@) + split_files(files@) =~= split_files(list@));
    while files.len() > 0
        invariant
            texts(paths@) + split_files(files@) == split_files(list@),
        decreases files@.len(),
    {
        let first = files[0];
        let quote: bool = first == '"' || first == '\'';
        let separator = if quote {
            first
        } else {
            ' '
        };
        let body = if quote {
            vstd::slice::slice_subrange(files, 1, files.len())
        } else {
            files
        };
        assert(quote ==> body@ =~= files@.skip(1));
        let end: usize = position_of(body, separator);
        let ghost before = texts(paths@);
        if end < body.len() {
            let file = vstd::slice::slice_subrange(body, 0, end);
            let rest = vstd::slice::slice_subrange(body, end + 1, body.len());
            proof {
                assert(file@ =~= body@.take(end as int));
                assert(rest@ =~= body@.skip(end + 1));
                lemma_trim_start_shortens(rest@);
            }
            let file = string_of(file);
            paths.push(typed_name(file.as_str()));
            proof {
                let t = typed(file@);
                assert(texts(paths@) =~= before.push(t));
                assert(before.push(t) + split_files(trim_start(rest@)) =~= before + (seq![t]
                    + split_files(trim_start(rest@))));
            }
            files = trimmed_start(rest);
        } else {
            let file = string_of(body);
            paths.push(typed_name(file.as_str()));
            assert(texts(paths@) =~= before + seq![typed(body@)]);
            return paths;
        }
    }
    assert(texts(paths@) + split_files(files@) =~= texts(paths@));
    paths
}

/// A command to open files, by the groups of the open expression.
fn read_open(cmd: &[char], groups: &[Group]) -> (r: Command)
    requires
        forall|j: int| 0 <= j < groups@.len() ==> group_inside(#[trigger] groups@[j], cmd@),
    ensures
        r@ == open_files(cmd@, groups@),
{
    let none: Vec<char> = Vec::new();
    assert(none@ =~= Seq::<char>::empty());
    let list: &[char] = match group_of(groups, 1, cmd) {
        Some(g) => g,
        None => none.as_slice(),
    };
    sent(ManagerAction::Open(read_files(trimmed(list))), ScrollMotionTarget::Start)
}

/// What the window does on a command without white space round it, given the groups of the jump
/// and the open expression in it.
pub fn interpret(
    cmd: &[char],
    shown: Shown,
    jump: Option<Vec<Group>>,
    open: Option<Vec<Group>>,
) -> (r: Command)
    requires
        jump matches Some(g) ==> forall|j: int|
            0 <= j < g@.len() ==> group_inside(#[trigger] g@[j], cmd@),
        open matches Some(g) ==> forall|j: int|
            0 <= j < g@.len() ==> group_inside(#[trigger] g@[j], cmd@),
    ensures
        r@ == command_of(
            cmd@,
            shown,
            match jump {
                Some(g) => Some(g@),
                None => None,
            },
            match open {
                Some(g) => Some(g@),
                None => None,
            },
        ),
{
    match read_simple_send(cmd, shown) {
        Some(c) => return c,
        None => {},
    }
    let space: usize = position_of(cmd, ' ');
    if space < cmd.len() {
        let word = vstd::slice::slice_subrange(cmd, 0, space);
        let rest = vstd::slice::slice_subrange(cmd, space + 1, cmd.len());
        assert(word@ =~= cmd@.take(space as int));
        assert(rest@ =~= cmd@.skip(space + 1));
        match read_with_argument(word, trimmed_start(rest), shown) {
            Some(c) => return c,
            None => {},
        }
    }
    match read_plain_command(cmd) {
        Some(c) => return c,
        None => {},
    }
    match jump {
        Some(g) => return read_jump(cmd, g.as_slice()),
        None => {},
    }
    match open {
        Some(g) => return read_open(cmd, g.as_slice()),
        None => {},
    }
    answer_unrecognized(cmd)
}

/// What the window does on a command.
pub open spec fn parsed_command(cmd: Seq<char>, shown: Shown) -> CommandView {
    command_of(
        trim(cmd),
        shown,
        first_match(jump_source(), trim(cmd)),
        first_match(open_source(), trim(cmd)),
    )
}

/// The commands that switch something.
pub open spec fn is_switch(word: Seq<char>) -> bool {
    ||| word == "UI"@
    ||| word == "Fullscreen"@
    ||| word == "Playing"@
    ||| word == "MangaMode"@
    ||| word == "Upscaling"@
}

/// A command that switches something does without an argument what it does with `toggle`.
pub proof fn law_toggle_is_the_default(word: Seq<char>, arg: Seq<char>, shown: Shown)
    requires
        is_switch(word),
        equal_ignoring_case(arg, "toggle"@),
    ensures
        parsed_command(word + seq![' '] + arg, shown) == parsed_command(word, shown),
{
    lemma_switch_words(word);
    reveal_strlit("toggle");
    let cmd = word + seq![' '] + arg;
    let n = word.len() as int;
    assert(ascii_lower(arg[0]) == ascii_lower('t'));
    assert(ascii_lower(arg[5]) == ascii_lower('e'));
    assert(cmd[0] == word[0]);
    assert(cmd.last() == arg[5]);
    assert(trim(cmd) == cmd);
    assert(trim(word) == word);
    let rest = seq![' '] + arg;
    assert(cmd =~= word + rest);
    lemma_position_skips(word, rest, ' ');
    lemma_position_skips(word, Seq::<char>::empty(), ' ');
    assert(word + Seq::<char>::empty() =~= word);
    assert(rest[0] == ' ');
    assert(position(cmd, ' ') == n);
    assert(cmd.take(n) =~= word);
    assert(cmd.skip(n + 1) =~= arg);
    assert(trim_start(arg) == arg);
}

/// What is told of the words for switches: they are none of the other commands.
proof fn lemma_switch_words(word: Seq<char>)
    requires
        is_switch(word),
    ensures
        word.len() > 0,
        !white_space(word[0]),
        !white_space(word.last()),
        forall|i: int| 0 <= i < word.len() ==> #[trigger] word[i] != ' ',
        forall|shown: Shown| #[trigger]
            simple_send(word, shown) == if word == "MangaMode"@ {
                Some(send_plain(ActionView::Manga(Toggle::Change)))
            } else if word == "Upscaling"@ {
                Some(send_plain(ActionView::Upscaling(Toggle::Change)))
            } else {
                None
            },
        switch(word) is Some ==> plain_command(word) == switch(word),
        forall|arg: Seq<char>, shown: Shown|
            equal_ignoring_case(arg, "toggle"@) && switch(word) is Some ==> #[trigger] with_argument(
                word,
                arg,
                shown,
            ) == switch(word),
{
    reveal_strlit("UI");
    reveal_strlit("Fullscreen");
    reveal_strlit("Playing");
    reveal_strlit("MangaMode");
    reveal_strlit("Upscaling");
    assert(word[0] == 'U' || word[0] == 'F' || word[0] == 'P' || word[0] == 'M');
    assert(word.last() == word[word.len() - 1]);
    lemma_position_skips(word, Seq::<char>::empty(), ' ');
    assert(word + Seq::<char>::empty() =~= word);
    reveal_strlit("NextPage");
    reveal_strlit("PreviousPage");
    reveal_strlit("FirstPage");
    reveal_strlit("LastPage");
    reveal_strlit("NextArchive");
    reveal_strlit("PreviousArchive");
    reveal_strlit("ToggleUpscaling");
    reveal_strlit("ToggleMangaMode");
    reveal_strlit("Status");
    reveal_strlit("ListPages");
    reveal_strlit("FitToContainer");
    reveal_strlit("FitToWidth");
    reveal_strlit("FitToHeight");
    reveal_strlit("FullSize");
    reveal_strlit("VerticalStrip");
    reveal_strlit("HorizontalStrip");
    reveal_strlit("DualPage");
    reveal_strlit("DualPageReversed");
    reveal_strlit("SinglePage");
    reveal_strlit("SetBackground");
    reveal_strlit("Execute");
    reveal_strlit("Script");
    reveal_strlit("Quit");
    reveal_strlit("ScrollDown");
    reveal_strlit("ScrollUp");
    reveal_strlit("ScrollRight");
    reveal_strlit("ScrollLeft");
    reveal_strlit("ToggleUI");
    reveal_strlit("Jump");
    reveal_strlit("Open");
    reveal_strlit("OpenFolder");
    reveal_strlit("Help");
    reveal_strlit("ToggleFullscreen");
    reveal_strlit("TogglePlaying");
}

/// What a word switches in the window, if it does.
spec fn switch(word: Seq<char>) -> Option<CommandView> {
    if word == "UI"@ {
        Some(CommandView::Ui(Toggle::Change))
    } else if word == "Fullscreen"@ {
        Some(CommandView::Fullscreen(Toggle::Change))
    } else if word == "Playing"@ {
        Some(CommandView::Playing(Toggle::Change))
    } else {
        None
    }
}

/// What the window does on a command.
pub fn parse_command(cmd: &str, shown: Shown, jump: &Pattern, open: &Pattern) -> (r: Command)
    requires
        jump.source() == jump_source(),
        open.source() == open_source(),
    ensures
        r@ == parsed_command(cmd@, shown),
{
    let v = chars_of(cmd);
    let t = trimmed(v.as_slice());
    let text = string_of(t);
    let j = jump.leftmost(text.as_str());
    let o = open.leftmost(text.as_str());
    interpret(t, shown, j, o)
}

} // verus!
