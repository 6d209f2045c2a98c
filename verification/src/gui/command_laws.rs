//! What the commands that the user can give stand for.
use vstd::prelude::*;

use crate::com::action::ActionView;
use crate::com::direction::Direction;
use crate::com::mode::{DisplayMode, Fit};
use crate::com::res::lemma_position_skips;
use crate::com::toggle::{
    parse_scroll_target, parse_toggle, GuiActionContext, ScrollMotionTarget, Toggle,
};
use crate::filenames::typed;
use crate::gui::commands::{
    jump_to, open_files, parsed_command, plain_command, quoted, scroll_by, simple_send, split_files,
    with_argument, CommandView, Shown,
};
use crate::gui::layout_manager::Edge;
use crate::number::{
    decimal, is_digit, lemma_decimal_round_trip, parse_decimal, ParseNumberError,
};
use crate::pattern::{
    any_digit, begins_with, group_text, is_letter, jump_match, jump_source, lemma_end_behind, open_match,
    open_source,
};
use crate::text::{
    ascii_lower, equal_ignoring_case, lemma_position, position, trim, trim_end, trim_start, white_space,
};

verus! {

/// Whether a text is one word, without any white space round it.
pub open spec fn one_word(w: Seq<char>) -> bool {
    &&& w.len() > 0
    &&& !white_space(w[0])
    &&& !white_space(w.last())
    &&& forall|i: int| 0 <= i < w.len() ==> #[trigger] w[i] != ' '
}

/// Whether a text is something without white space round it.
pub open spec fn bare(s: Seq<char>) -> bool {
    s.len() > 0 && !white_space(s[0]) && !white_space(s.last())
}

/// A word and what follows it.
pub open spec fn said(w: Seq<char>, arg: Seq<char>) -> Seq<char> {
    w + seq![' '] + arg
}

proof fn lemma_word(w: Seq<char>, shown: Shown)
    requires
        one_word(w),
    ensures
        simple_send(w, shown) is Some ==> parsed_command(w, shown) == simple_send(w, shown)->0,
        simple_send(w, shown) is None && plain_command(w) is Some ==> parsed_command(w, shown)
            == plain_command(w)->0,
        position(w, ' ') == w.len(),
{
    lemma_position_skips(w, Seq::<char>::empty(), ' ');
    assert(w + Seq::<char>::empty() =~= w);
    assert(trim_start(w) == w);
    assert(trim_end(w) == w);
}

proof fn lemma_said(w: Seq<char>, arg: Seq<char>, shown: Shown)
    requires
        one_word(w),
        bare(arg),
    ensures
        ({
            let cmd = said(w, arg);
            &&& trim(cmd) == cmd
            &&& position(cmd, ' ') == w.len()
            &&& cmd.len() == w.len() + 1 + arg.len()
            &&& cmd.take(w.len() as int) == w
            &&& trim_start(cmd.skip(w.len() as int + 1)) == arg
            &&& simple_send(cmd, shown) is Some ==> parsed_command(cmd, shown) == simple_send(
                cmd,
                shown,
            )->0
            &&& simple_send(cmd, shown) is None && with_argument(w, arg, shown) is Some
                ==> parsed_command(cmd, shown) == with_argument(w, arg, shown)->0
        }),
{
    let cmd = said(w, arg);
    let n = w.len() as int;
    let rest = seq![' '] + arg;
    assert(cmd =~= w + rest);
    lemma_position_skips(w, rest, ' ');
    assert(rest[0] == ' ');
    assert(cmd.take(n) =~= w);
    assert(cmd.skip(n + 1) =~= arg);
    assert(cmd[0] == w[0]);
    assert(cmd.last() == arg.last());
    assert(trim_start(cmd) == cmd);
    assert(trim_end(cmd) == cmd);
    assert(trim_start(arg) == arg);
}

/// The commands that go to another page or archive. The first and the last page are those of the
/// archive. Pages are seen from their start, but a page that is gone back to from its end, except in
/// a strip.
pub proof fn law_page_commands(shown: Shown)
    ensures
        parsed_command("NextPage"@, shown) == (CommandView::Send(ActionView::MovePages(Direction::Forwards, shown.next_jump), GuiActionContext { scroll_motion_target: ScrollMotionTarget::Start })),
        parsed_command("FirstPage"@, shown) == (CommandView::Send(ActionView::MovePages(Direction::Absolute, 0), GuiActionContext { scroll_motion_target: ScrollMotionTarget::Start })),
        parsed_command("LastPage"@, shown) == (CommandView::Send(ActionView::MovePages(Direction::Absolute, usize::MAX), GuiActionContext { scroll_motion_target: ScrollMotionTarget::Start })),
        parsed_command("NextArchive"@, shown) == (CommandView::Send(ActionView::NextArchive, GuiActionContext { scroll_motion_target: ScrollMotionTarget::Start })),
        parsed_command("PreviousArchive"@, shown) == (CommandView::Send(ActionView::PreviousArchive, GuiActionContext { scroll_motion_target: ScrollMotionTarget::Start })),
        parsed_command("PreviousPage"@, shown) == (CommandView::Send(
            ActionView::MovePages(Direction::Backwards, shown.prev_jump),
            GuiActionContext {
                scroll_motion_target: if shown.display is VerticalStrip || shown.display
                    is HorizontalStrip {
                    ScrollMotionTarget::Start
                } else {
                    ScrollMotionTarget::End
                },
            },
        )),
{
    reveal_strlit("NextPage");
    reveal_strlit("PreviousPage");
    reveal_strlit("FirstPage");
    reveal_strlit("LastPage");
    reveal_strlit("NextArchive");
    reveal_strlit("PreviousArchive");
    reveal_strlit("ToggleUpscaling");
    reveal_strlit("Upscaling");
    reveal_strlit("ToggleMangaMode");
    reveal_strlit("MangaMode");
    reveal_strlit("Status");
    reveal_strlit("ListPages");
    reveal_strlit("FitToContainer");
    reveal_strlit("FitToWidth");
    reveal_strlit("FitToHeight");
    reveal_strlit("FullSize");
    reveal_strlit("VerticalStrip");
    reveal_strlit("HorizontalStrip");
    reveal_strlit("DualPage");
    reveal_strlit("DualPageReversed");
    reveal_strlit("SinglePage");
    lemma_word("NextPage"@, shown);
    lemma_word("FirstPage"@, shown);
    lemma_word("LastPage"@, shown);
    lemma_word("NextArchive"@, shown);
    lemma_word("PreviousArchive"@, shown);
    lemma_word("PreviousPage"@, shown);
}

/// The commands that fit pages to the window each fit them as they say, and leave the scroll position
/// alone.
pub proof fn law_fit_commands(shown: Shown)
    ensures
        parsed_command("FitToContainer"@, shown) == (CommandView::Send(ActionView::FitStrategy(Fit::Container), GuiActionContext { scroll_motion_target: ScrollMotionTarget::Maintain })),
        parsed_command("FitToWidth"@, shown) == (CommandView::Send(ActionView::FitStrategy(Fit::Width), GuiActionContext { scroll_motion_target: ScrollMotionTarget::Maintain })),
        parsed_command("FitToHeight"@, shown) == (CommandView::Send(ActionView::FitStrategy(Fit::Height), GuiActionContext { scroll_motion_target: ScrollMotionTarget::Maintain })),
        parsed_command("FullSize"@, shown) == (CommandView::Send(ActionView::FitStrategy(Fit::FullSize), GuiActionContext { scroll_motion_target: ScrollMotionTarget::Maintain })),
{
    reveal_strlit("NextPage");
    reveal_strlit("PreviousPage");
    reveal_strlit("FirstPage");
    reveal_strlit("LastPage");
    reveal_strlit("NextArchive");
    reveal_strlit("PreviousArchive");
    reveal_strlit("ToggleUpscaling");
    reveal_strlit("Upscaling");
    reveal_strlit("ToggleMangaMode");
    reveal_strlit("MangaMode");
    reveal_strlit("Status");
    reveal_strlit("ListPages");
    reveal_strlit("FitToContainer");
    reveal_strlit("FitToWidth");
    reveal_strlit("FitToHeight");
    reveal_strlit("FullSize");
    reveal_strlit("VerticalStrip");
    reveal_strlit("HorizontalStrip");
    reveal_strlit("DualPage");
    reveal_strlit("DualPageReversed");
    reveal_strlit("SinglePage");
    lemma_word("FitToContainer"@, shown);
    lemma_word("FitToWidth"@, shown);
    lemma_word("FitToHeight"@, shown);
    lemma_word("FullSize"@, shown);
}

/// The commands for the ways to show pages each choose what they say, and leave the scroll position
/// alone.
pub proof fn law_display_commands(shown: Shown)
    ensures
        parsed_command("SinglePage"@, shown) == (CommandView::Send(ActionView::Display(DisplayMode::Single), GuiActionContext { scroll_motion_target: ScrollMotionTarget::Maintain })),
        parsed_command("VerticalStrip"@, shown) == (CommandView::Send(ActionView::Display(DisplayMode::VerticalStrip), GuiActionContext { scroll_motion_target: ScrollMotionTarget::Maintain })),
        parsed_command("HorizontalStrip"@, shown) == (CommandView::Send(ActionView::Display(DisplayMode::HorizontalStrip), GuiActionContext { scroll_motion_target: ScrollMotionTarget::Maintain })),
        parsed_command("DualPage"@, shown) == (CommandView::Send(ActionView::Display(DisplayMode::DualPage), GuiActionContext { scroll_motion_target: ScrollMotionTarget::Maintain })),
        parsed_command("DualPageReversed"@, shown) == (CommandView::Send(ActionView::Display(DisplayMode::DualPageReversed), GuiActionContext { scroll_motion_target: ScrollMotionTarget::Maintain })),
{
    reveal_strlit("NextPage");
    reveal_strlit("PreviousPage");
    reveal_strlit("FirstPage");
    reveal_strlit("LastPage");
    reveal_strlit("NextArchive");
    reveal_strlit("PreviousArchive");
    reveal_strlit("ToggleUpscaling");
    reveal_strlit("Upscaling");
    reveal_strlit("ToggleMangaMode");
    reveal_strlit("MangaMode");
    reveal_strlit("Status");
    reveal_strlit("ListPages");
    reveal_strlit("FitToContainer");
    reveal_strlit("FitToWidth");
    reveal_strlit("FitToHeight");
    reveal_strlit("FullSize");
    reveal_strlit("VerticalStrip");
    reveal_strlit("HorizontalStrip");
    reveal_strlit("DualPage");
    reveal_strlit("DualPageReversed");
    reveal_strlit("SinglePage");
    lemma_word("SinglePage"@, shown);
    lemma_word("VerticalStrip"@, shown);
    lemma_word("HorizontalStrip"@, shown);
    lemma_word("DualPage"@, shown);
    lemma_word("DualPageReversed"@, shown);
}

/// The commands that ask for something, and those that switch a mode of the page manager.
pub proof fn law_manager_commands(shown: Shown)
    ensures
        parsed_command("Status"@, shown) == (CommandView::Send(ActionView::Status, GuiActionContext { scroll_motion_target: ScrollMotionTarget::Maintain })),
        parsed_command("ListPages"@, shown) == (CommandView::Send(ActionView::ListPages, GuiActionContext { scroll_motion_target: ScrollMotionTarget::Maintain })),
        parsed_command("MangaMode"@, shown) == (CommandView::Send(ActionView::Manga(Toggle::Change), GuiActionContext { scroll_motion_target: ScrollMotionTarget::Maintain })),
        parsed_command("ToggleMangaMode"@, shown) == (CommandView::Send(ActionView::Manga(Toggle::Change), GuiActionContext { scroll_motion_target: ScrollMotionTarget::Maintain })),
        parsed_command("Upscaling"@, shown) == (CommandView::Send(ActionView::Upscaling(Toggle::Change), GuiActionContext { scroll_motion_target: ScrollMotionTarget::Maintain })),
        parsed_command("ToggleUpscaling"@, shown) == (CommandView::Send(ActionView::Upscaling(Toggle::Change), GuiActionContext { scroll_motion_target: ScrollMotionTarget::Maintain })),
{
    reveal_strlit("NextPage");
    reveal_strlit("PreviousPage");
    reveal_strlit("FirstPage");
    reveal_strlit("LastPage");
    reveal_strlit("NextArchive");
    reveal_strlit("PreviousArchive");
    reveal_strlit("ToggleUpscaling");
    reveal_strlit("Upscaling");
    reveal_strlit("ToggleMangaMode");
    reveal_strlit("MangaMode");
    reveal_strlit("Status");
    reveal_strlit("ListPages");
    reveal_strlit("FitToContainer");
    reveal_strlit("FitToWidth");
    reveal_strlit("FitToHeight");
    reveal_strlit("FullSize");
    reveal_strlit("VerticalStrip");
    reveal_strlit("HorizontalStrip");
    reveal_strlit("DualPage");
    reveal_strlit("DualPageReversed");
    reveal_strlit("SinglePage");
    lemma_word("Status"@, shown);
    lemma_word("ListPages"@, shown);
    lemma_word("MangaMode"@, shown);
    lemma_word("ToggleMangaMode"@, shown);
    lemma_word("Upscaling"@, shown);
    lemma_word("ToggleUpscaling"@, shown);
}

/// A scroll command scrolls towards the edge that its name says.
pub proof fn law_scroll_commands(shown: Shown)
    ensures
        parsed_command("ScrollUp"@, shown) == CommandView::Scroll(Edge::Top, None),
        parsed_command("ScrollDown"@, shown) == CommandView::Scroll(Edge::Bottom, None),
        parsed_command("ScrollLeft"@, shown) == CommandView::Scroll(Edge::Left, None),
        parsed_command("ScrollRight"@, shown) == CommandView::Scroll(Edge::Right, None),
{
    reveal_strlit("NextPage");
    reveal_strlit("PreviousPage");
    reveal_strlit("FirstPage");
    reveal_strlit("LastPage");
    reveal_strlit("NextArchive");
    reveal_strlit("PreviousArchive");
    reveal_strlit("ToggleUpscaling");
    reveal_strlit("Upscaling");
    reveal_strlit("ToggleMangaMode");
    reveal_strlit("MangaMode");
    reveal_strlit("Status");
    reveal_strlit("ListPages");
    reveal_strlit("FitToContainer");
    reveal_strlit("FitToWidth");
    reveal_strlit("FitToHeight");
    reveal_strlit("FullSize");
    reveal_strlit("VerticalStrip");
    reveal_strlit("HorizontalStrip");
    reveal_strlit("DualPage");
    reveal_strlit("DualPageReversed");
    reveal_strlit("SinglePage");
    reveal_strlit("Quit");
    reveal_strlit("ToggleUI");
    reveal_strlit("UI");
    reveal_strlit("SetBackground");
    reveal_strlit("Jump");
    reveal_strlit("Open");
    reveal_strlit("OpenFolder");
    reveal_strlit("Help");
    reveal_strlit("ToggleFullscreen");
    reveal_strlit("Fullscreen");
    reveal_strlit("TogglePlaying");
    reveal_strlit("Playing");
    reveal_strlit("ScrollDown");
    reveal_strlit("ScrollUp");
    reveal_strlit("ScrollRight");
    reveal_strlit("ScrollLeft");
    reveal_strlit("SnapBottom");
    reveal_strlit("SnapTop");
    reveal_strlit("SnapRight");
    reveal_strlit("SnapLeft");
    reveal_strlit("Copy");
    lemma_word("ScrollUp"@, shown);
    lemma_word("ScrollDown"@, shown);
    lemma_word("ScrollLeft"@, shown);
    lemma_word("ScrollRight"@, shown);
}

/// A snap command goes to the edge that its name says.
pub proof fn law_snap_commands(shown: Shown)
    ensures
        parsed_command("SnapTop"@, shown) == CommandView::Snap(Edge::Top),
        parsed_command("SnapBottom"@, shown) == CommandView::Snap(Edge::Bottom),
        parsed_command("SnapLeft"@, shown) == CommandView::Snap(Edge::Left),
        parsed_command("SnapRight"@, shown) == CommandView::Snap(Edge::Right),
{
    reveal_strlit("NextPage");
    reveal_strlit("PreviousPage");
    reveal_strlit("FirstPage");
    reveal_strlit("LastPage");
    reveal_strlit("NextArchive");
    reveal_strlit("PreviousArchive");
    reveal_strlit("ToggleUpscaling");
    reveal_strlit("Upscaling");
    reveal_strlit("ToggleMangaMode");
    reveal_strlit("MangaMode");
    reveal_strlit("Status");
    reveal_strlit("ListPages");
    reveal_strlit("FitToContainer");
    reveal_strlit("FitToWidth");
    reveal_strlit("FitToHeight");
    reveal_strlit("FullSize");
    reveal_strlit("VerticalStrip");
    reveal_strlit("HorizontalStrip");
    reveal_strlit("DualPage");
    reveal_strlit("DualPageReversed");
    reveal_strlit("SinglePage");
    reveal_strlit("Quit");
    reveal_strlit("ToggleUI");
    reveal_strlit("UI");
    reveal_strlit("SetBackground");
    reveal_strlit("Jump");
    reveal_strlit("Open");
    reveal_strlit("OpenFolder");
    reveal_strlit("Help");
    reveal_strlit("ToggleFullscreen");
    reveal_strlit("Fullscreen");
    reveal_strlit("TogglePlaying");
    reveal_strlit("Playing");
    reveal_strlit("ScrollDown");
    reveal_strlit("ScrollUp");
    reveal_strlit("ScrollRight");
    reveal_strlit("ScrollLeft");
    reveal_strlit("SnapBottom");
    reveal_strlit("SnapTop");
    reveal_strlit("SnapRight");
    reveal_strlit("SnapLeft");
    reveal_strlit("Copy");
    lemma_word("SnapTop"@, shown);
    lemma_word("SnapBottom"@, shown);
    lemma_word("SnapLeft"@, shown);
    lemma_word("SnapRight"@, shown);
}

/// The commands that switch something in the window.
pub proof fn law_window_switches(shown: Shown)
    ensures
        parsed_command("UI"@, shown) == CommandView::Ui(Toggle::Change),
        parsed_command("ToggleUI"@, shown) == CommandView::Ui(Toggle::Change),
        parsed_command("Fullscreen"@, shown) == CommandView::Fullscreen(Toggle::Change),
        parsed_command("ToggleFullscreen"@, shown) == CommandView::Fullscreen(Toggle::Change),
        parsed_command("Playing"@, shown) == CommandView::Playing(Toggle::Change),
        parsed_command("TogglePlaying"@, shown) == CommandView::Playing(Toggle::Change),
{
    reveal_strlit("NextPage");
    reveal_strlit("PreviousPage");
    reveal_strlit("FirstPage");
    reveal_strlit("LastPage");
    reveal_strlit("NextArchive");
    reveal_strlit("PreviousArchive");
    reveal_strlit("ToggleUpscaling");
    reveal_strlit("Upscaling");
    reveal_strlit("ToggleMangaMode");
    reveal_strlit("MangaMode");
    reveal_strlit("Status");
    reveal_strlit("ListPages");
    reveal_strlit("FitToContainer");
    reveal_strlit("FitToWidth");
    reveal_strlit("FitToHeight");
    reveal_strlit("FullSize");
    reveal_strlit("VerticalStrip");
    reveal_strlit("HorizontalStrip");
    reveal_strlit("DualPage");
    reveal_strlit("DualPageReversed");
    reveal_strlit("SinglePage");
    reveal_strlit("Quit");
    reveal_strlit("ToggleUI");
    reveal_strlit("UI");
    reveal_strlit("SetBackground");
    reveal_strlit("Jump");
    reveal_strlit("Open");
    reveal_strlit("OpenFolder");
    reveal_strlit("Help");
    reveal_strlit("ToggleFullscreen");
    reveal_strlit("Fullscreen");
    reveal_strlit("TogglePlaying");
    reveal_strlit("Playing");
    reveal_strlit("ScrollDown");
    reveal_strlit("ScrollUp");
    reveal_strlit("ScrollRight");
    reveal_strlit("ScrollLeft");
    reveal_strlit("SnapBottom");
    reveal_strlit("SnapTop");
    reveal_strlit("SnapRight");
    reveal_strlit("SnapLeft");
    reveal_strlit("Copy");
    lemma_word("UI"@, shown);
    lemma_word("ToggleUI"@, shown);
    lemma_word("Fullscreen"@, shown);
    lemma_word("ToggleFullscreen"@, shown);
    lemma_word("Playing"@, shown);
    lemma_word("TogglePlaying"@, shown);
}

/// The commands that ask the user, and the rest of those of the window. Quitting runs the command for
/// that.
pub proof fn law_window_commands(shown: Shown)
    ensures
        parsed_command("Help"@, shown) == CommandView::HelpDialog,
        parsed_command("Jump"@, shown) == CommandView::JumpDialog,
        parsed_command("Open"@, shown) == (CommandView::OpenDialog { folders: false }),
        parsed_command("OpenFolder"@, shown) == (CommandView::OpenDialog { folders: true }),
        parsed_command("SetBackground"@, shown) == CommandView::PickBackground,
        parsed_command("Copy"@, shown) == CommandView::Copy,
        parsed_command("Quit"@, shown) == (CommandView::Quit { commands: true }),
{
    reveal_strlit("NextPage");
    reveal_strlit("PreviousPage");
    reveal_strlit("FirstPage");
    reveal_strlit("LastPage");
    reveal_strlit("NextArchive");
    reveal_strlit("PreviousArchive");
    reveal_strlit("ToggleUpscaling");
    reveal_strlit("Upscaling");
    reveal_strlit("ToggleMangaMode");
    reveal_strlit("MangaMode");
    reveal_strlit("Status");
    reveal_strlit("ListPages");
    reveal_strlit("FitToContainer");
    reveal_strlit("FitToWidth");
    reveal_strlit("FitToHeight");
    reveal_strlit("FullSize");
    reveal_strlit("VerticalStrip");
    reveal_strlit("HorizontalStrip");
    reveal_strlit("DualPage");
    reveal_strlit("DualPageReversed");
    reveal_strlit("SinglePage");
    reveal_strlit("Quit");
    reveal_strlit("ToggleUI");
    reveal_strlit("UI");
    reveal_strlit("SetBackground");
    reveal_strlit("Jump");
    reveal_strlit("Open");
    reveal_strlit("OpenFolder");
    reveal_strlit("Help");
    reveal_strlit("ToggleFullscreen");
    reveal_strlit("Fullscreen");
    reveal_strlit("TogglePlaying");
    reveal_strlit("Playing");
    reveal_strlit("ScrollDown");
    reveal_strlit("ScrollUp");
    reveal_strlit("ScrollRight");
    reveal_strlit("ScrollLeft");
    reveal_strlit("SnapBottom");
    reveal_strlit("SnapTop");
    reveal_strlit("SnapRight");
    reveal_strlit("SnapLeft");
    reveal_strlit("Copy");
    lemma_word("Help"@, shown);
    lemma_word("Jump"@, shown);
    lemma_word("Open"@, shown);
    lemma_word("OpenFolder"@, shown);
    lemma_word("SetBackground"@, shown);
    lemma_word("Copy"@, shown);
    lemma_word("Quit"@, shown);
}

/// A scroll command with an amount scrolls by that amount towards the edge that its name says. By
/// nothing it does nothing.
pub proof fn law_scroll_amounts(n: u32, shown: Shown)
    ensures
        n > 0 ==> parsed_command("ScrollUp "@ + decimal(n as nat), shown) == CommandView::Scroll(
            Edge::Top,
            Some(n),
        ),
        n == 0 ==> parsed_command("ScrollUp "@ + decimal(n as nat), shown) == CommandView::Nothing,
        n > 0 ==> parsed_command("ScrollDown "@ + decimal(n as nat), shown) == CommandView::Scroll(
            Edge::Bottom,
            Some(n),
        ),
        n == 0 ==> parsed_command("ScrollDown "@ + decimal(n as nat), shown) == CommandView::Nothing,
        n > 0 ==> parsed_command("ScrollLeft "@ + decimal(n as nat), shown) == CommandView::Scroll(
            Edge::Left,
            Some(n),
        ),
        n == 0 ==> parsed_command("ScrollLeft "@ + decimal(n as nat), shown) == CommandView::Nothing,
        n > 0 ==> parsed_command("ScrollRight "@ + decimal(n as nat), shown) == CommandView::Scroll(
            Edge::Right,
            Some(n),
        ),
        n == 0 ==> parsed_command("ScrollRight "@ + decimal(n as nat), shown) == CommandView::Nothing,
{
    let arg = decimal(n as nat);
    lemma_decimal_round_trip(n as nat, u32::MAX as nat);
    lemma_amount_is_bare(arg);
    lemma_scroll_top(arg, shown);
    lemma_scroll_bottom(arg, shown);
    lemma_scroll_left(arg, shown);
    lemma_scroll_right(arg, shown);
}

/// Digits are not white space.
proof fn lemma_amount_is_bare(arg: Seq<char>)
    requires
        arg.len() > 0,
        forall|i: int| 0 <= i < arg.len() ==> is_digit(#[trigger] arg[i]),
    ensures
        bare(arg),
{
    assert(is_digit(arg[0]));
    assert(is_digit(arg[arg.len() - 1]));
}

/// What a word for a switch asks for, in any case.
proof fn lemma_switch_argument(arg: Seq<char>)
    requires
        equal_ignoring_case(arg, "on"@) || equal_ignoring_case(arg, "off"@) || equal_ignoring_case(
            arg,
            "toggle"@,
        ),
    ensures
        bare(arg),
        equal_ignoring_case(arg, "on"@) ==> parse_toggle(arg) == Ok::<Toggle, ()>(Toggle::On),
        equal_ignoring_case(arg, "off"@) ==> parse_toggle(arg) == Ok::<Toggle, ()>(Toggle::Off),
        equal_ignoring_case(arg, "toggle"@) ==> parse_toggle(arg) == Ok::<Toggle, ()>(
            Toggle::Change,
        ),
{
    reveal_strlit("on");
    reveal_strlit("off");
    reveal_strlit("toggle");
    let n = arg.len() - 1;
    if equal_ignoring_case(arg, "on"@) {
        assert(ascii_lower(arg[0]) == ascii_lower("on"@[0]));
        assert(ascii_lower(arg[n]) == ascii_lower("on"@[n]));
    } else if equal_ignoring_case(arg, "off"@) {
        assert(ascii_lower(arg[0]) == ascii_lower("off"@[0]));
        assert(ascii_lower(arg[n]) == ascii_lower("off"@[n]));
    } else {
        assert(ascii_lower(arg[0]) == ascii_lower("toggle"@[0]));
        assert(ascii_lower(arg[n]) == ascii_lower("toggle"@[n]));
    }
}

/// What a switch is asked to do with the word for it.
pub open spec fn asked(arg: Seq<char>, t: Toggle) -> bool {
    match t {
        Toggle::On => equal_ignoring_case(arg, "on"@),
        Toggle::Off => equal_ignoring_case(arg, "off"@),
        Toggle::Change => equal_ignoring_case(arg, "toggle"@),
    }
}

/// The commands that switch something switch it on or off, or change it, as their argument says.
pub proof fn law_switch_arguments(arg: Seq<char>, t: Toggle, shown: Shown)
    requires
        asked(arg, t),
    ensures
        parsed_command("UI "@ + arg, shown) == CommandView::Ui(t),
        parsed_command("Fullscreen "@ + arg, shown) == CommandView::Fullscreen(t),
        parsed_command("Playing "@ + arg, shown) == CommandView::Playing(t),
        parsed_command("MangaMode "@ + arg, shown) == (CommandView::Send(
            ActionView::Manga(t),
            GuiActionContext { scroll_motion_target: ScrollMotionTarget::Maintain },
        )),
        parsed_command("Upscaling "@ + arg, shown) == (CommandView::Send(
            ActionView::Upscaling(t),
            GuiActionContext { scroll_motion_target: ScrollMotionTarget::Maintain },
        )),
{
    lemma_switch_argument(arg);
    lemma_switch_ui(arg, t, shown);
    lemma_switch_fullscreen(arg, t, shown);
    lemma_switch_playing(arg, t, shown);
    lemma_switch_manga(arg, t, shown);
    lemma_switch_upscaling(arg, t, shown);
}

/// Where a page is to be seen from, by the word for it.
pub open spec fn seen_from(arg: Seq<char>, t: ScrollMotionTarget) -> bool {
    match t {
        ScrollMotionTarget::Start => equal_ignoring_case(arg, "start"@),
        ScrollMotionTarget::End => equal_ignoring_case(arg, "end"@),
        ScrollMotionTarget::Maintain => equal_ignoring_case(arg, "current"@),
        ScrollMotionTarget::Continuous(_) => false,
    }
}

proof fn lemma_target_argument(arg: Seq<char>, t: ScrollMotionTarget)
    requires
        seen_from(arg, t),
    ensures
        bare(arg),
        arg.len() <= 7,
        parse_scroll_target(arg) == Ok::<ScrollMotionTarget, ()>(t),
        parse_toggle(arg) is Err,
        forall|i: int|
            0 <= i < arg.len() ==> 'a' <= #[trigger] arg[i] <= 'z' || 'A' <= arg[i] <= 'Z',
{
    reveal_strlit("start");
    reveal_strlit("end");
    reveal_strlit("current");
    reveal_strlit("on");
    reveal_strlit("off");
    reveal_strlit("toggle");
    let word = match t {
        ScrollMotionTarget::Start => "start"@,
        ScrollMotionTarget::End => "end"@,
        _ => "current"@,
    };
    assert forall|i: int| 0 <= i < arg.len() implies 'a' <= #[trigger] arg[i] <= 'z' || 'A'
        <= arg[i] <= 'Z' by {
        assert(ascii_lower(arg[i]) == ascii_lower(word[i]));
        assert('a' <= word[i] <= 'z');
    }
    assert('a' <= arg[0] <= 'z' || 'A' <= arg[0] <= 'Z');
    assert('a' <= arg[arg.len() - 1] <= 'z' || 'A' <= arg[arg.len() - 1] <= 'Z');
    assert(ascii_lower(arg[0]) == ascii_lower(word[0]));
    if equal_ignoring_case(arg, "off"@) {
        assert(ascii_lower(arg[0]) == ascii_lower("off"@[0]));
    }
}

/// A command for another page shows it from where its argument says, in any mode.
pub proof fn law_page_targets(arg: Seq<char>, t: ScrollMotionTarget, shown: Shown)
    requires
        seen_from(arg, t),
    ensures
        parsed_command("NextPage "@ + arg, shown) == (CommandView::Send(
            ActionView::MovePages(Direction::Forwards, shown.next_jump),
            GuiActionContext { scroll_motion_target: t },
        )),
        parsed_command("PreviousPage "@ + arg, shown) == (CommandView::Send(
            ActionView::MovePages(Direction::Backwards, shown.prev_jump),
            GuiActionContext { scroll_motion_target: t },
        )),
        parsed_command("FirstPage "@ + arg, shown) == (CommandView::Send(
            ActionView::MovePages(Direction::Absolute, 0),
            GuiActionContext { scroll_motion_target: t },
        )),
        parsed_command("LastPage "@ + arg, shown) == (CommandView::Send(
            ActionView::MovePages(Direction::Absolute, usize::MAX),
            GuiActionContext { scroll_motion_target: t },
        )),
{
    lemma_target_argument(arg, t);
    lemma_to_next(arg, t, shown);
    lemma_to_previous(arg, t, shown);
    lemma_to_first(arg, t, shown);
    lemma_to_last(arg, t, shown);
}

/// A colour, a program and a script are handed on as they are written.
pub proof fn law_text_arguments(arg: Seq<char>, shown: Shown)
    requires
        bare(arg),
    ensures
        parsed_command("SetBackground "@ + arg, shown) == CommandView::SetBackground(arg),
        parsed_command("Execute "@ + arg, shown) == (CommandView::Send(
            ActionView::Execute(arg),
            GuiActionContext { scroll_motion_target: ScrollMotionTarget::Maintain },
        )),
        parsed_command("Script "@ + arg, shown) == (CommandView::Send(
            ActionView::Script(arg),
            GuiActionContext { scroll_motion_target: ScrollMotionTarget::Maintain },
        )),
        equal_ignoring_case(arg, "nocommand"@) ==> parsed_command("Quit "@ + arg, shown) == (
        CommandView::Quit { commands: false }),
{
    lemma_set_background(arg, shown);
    lemma_execute(arg, shown);
    lemma_script(arg, shown);
    if equal_ignoring_case(arg, "nocommand"@) {
        lemma_quit(arg, shown);
    }
}

proof fn lemma_set_background(arg: Seq<char>, shown: Shown)
    requires
        bare(arg),
    ensures
        parsed_command("SetBackground "@ + arg, shown) == CommandView::SetBackground(arg),
{
    reveal_strlit("MangaMode");
    reveal_strlit("Upscaling");
    reveal_strlit("SetBackground");
    reveal_strlit("Execute");
    reveal_strlit("Script");
    reveal_strlit("Quit");
    reveal_strlit("SetBackground ");
    assert("SetBackground "@ + arg =~= said("SetBackground"@, arg));
    lemma_said("SetBackground"@, arg, shown);
}

proof fn lemma_execute(arg: Seq<char>, shown: Shown)
    requires
        bare(arg),
    ensures
        parsed_command("Execute "@ + arg, shown) == (CommandView::Send(
            ActionView::Execute(arg),
            GuiActionContext { scroll_motion_target: ScrollMotionTarget::Maintain },
        )),
{
    reveal_strlit("MangaMode");
    reveal_strlit("Upscaling");
    reveal_strlit("SetBackground");
    reveal_strlit("Execute");
    reveal_strlit("Script");
    reveal_strlit("Quit");
    reveal_strlit("Execute ");
    assert("Execute "@ + arg =~= said("Execute"@, arg));
    lemma_said("Execute"@, arg, shown);
}

proof fn lemma_script(arg: Seq<char>, shown: Shown)
    requires
        bare(arg),
    ensures
        parsed_command("Script "@ + arg, shown) == (CommandView::Send(
            ActionView::Script(arg),
            GuiActionContext { scroll_motion_target: ScrollMotionTarget::Maintain },
        )),
{
    reveal_strlit("MangaMode");
    reveal_strlit("Upscaling");
    reveal_strlit("SetBackground");
    reveal_strlit("Execute");
    reveal_strlit("Script");
    reveal_strlit("Quit");
    reveal_strlit("Script ");
    assert("Script "@ + arg =~= said("Script"@, arg));
    lemma_said("Script"@, arg, shown);
}

proof fn lemma_quit(arg: Seq<char>, shown: Shown)
    requires
        bare(arg),
        equal_ignoring_case(arg, "nocommand"@),
    ensures
        parsed_command("Quit "@ + arg, shown) == (CommandView::Quit { commands: false }),
{
    reveal_strlit("MangaMode");
    reveal_strlit("Upscaling");
    reveal_strlit("SetBackground");
    reveal_strlit("Execute");
    reveal_strlit("Script");
    reveal_strlit("Quit");
    reveal_strlit("Quit ");
    assert("Quit "@ + arg =~= said("Quit"@, arg));
    lemma_said("Quit"@, arg, shown);
}

/// The number of a page to jump to, without or with a sign, and where it is to be seen from.
pub open spec fn jump_text(sign: Seq<char>, n: usize, target: Option<Seq<char>>) -> Seq<char> {
    jump_line(sign, decimal(n as nat), target)
}

/// A jump by some digits.
pub open spec fn jump_line(sign: Seq<char>, digits: Seq<char>, target: Option<Seq<char>>) -> Seq<
    char,
> {
    "Jump "@ + sign + digits + match target {
        Some(t) => seq![' '] + t,
        None => seq![],
    }
}

/// A jump goes to the page of that number, which counts from one, and by as many pages forwards or
/// backwards with a sign. The page is seen from where the second word says. Without one it is seen
/// from its end after a jump backwards, and from its start otherwise.
pub proof fn law_jumps(n: usize, target: Option<(Seq<char>, ScrollMotionTarget)>, shown: Shown)
    requires
        target matches Some((word, t)) ==> seen_from(word, t),
    ensures
        ({
            let word = match target {
                Some((w, _)) => Some(w),
                None => None,
            };
            let at = |usual: ScrollMotionTarget|
                GuiActionContext {
                    scroll_motion_target: match target {
                        Some((_, t)) => t,
                        None => usual,
                    },
                };
            &&& n > 0 ==> parsed_command(jump_text(seq![], n, word), shown) == CommandView::Send(
                ActionView::MovePages(Direction::Absolute, (n - 1) as usize),
                at(ScrollMotionTarget::Start),
            )
            &&& n == 0 ==> parsed_command(jump_text(seq![], n, word), shown) == CommandView::Send(
                ActionView::MovePages(Direction::Absolute, 0),
                at(ScrollMotionTarget::Start),
            )
            &&& parsed_command(jump_text(seq!['+'], n, word), shown) == CommandView::Send(
                ActionView::MovePages(Direction::Forwards, n),
                at(ScrollMotionTarget::Start),
            )
            &&& parsed_command(jump_text(seq!['-'], n, word), shown) == CommandView::Send(
                ActionView::MovePages(Direction::Backwards, n),
                at(ScrollMotionTarget::End),
            )
        }),
{
    let word = match target {
        Some((w, _)) => Some(w),
        None => None,
    };
    if let Some((w, t)) = target {
        lemma_target_argument(w, t);
    }
    lemma_jump(seq![], n, word, shown);
    lemma_jump(seq!['+'], n, word, shown);
    lemma_jump(seq!['-'], n, word, shown);
    assert(seq!['+'][0] != seq!['-'][0]);
}

/// What the groups of the jump expression take of a jump.
proof fn lemma_jump_groups(sign: Seq<char>, d: Seq<char>, target: Option<Seq<char>>)
    requires
        sign == Seq::<char>::empty() || sign == seq!['+'] || sign == seq!['-'],
        d.len() > 0,
        forall|i: int| 0 <= i < d.len() ==> is_digit(#[trigger] d[i]),
        target matches Some(t) ==> t.len() > 0 && (forall|i: int|
            0 <= i < t.len() ==> 'a' <= #[trigger] t[i] <= 'z' || 'A' <= t[i] <= 'Z'),
        match target {
            Some(t) => 7 + d.len() + t.len(),
            None => 6 + d.len(),
        } <= usize::MAX,
    ensures
        ({
            let cmd = jump_line(sign, d, target);
            &&& jump_match(cmd) is Some
            &&& group_text(jump_match(cmd)->0, 1, cmd) == if sign.len() == 0 {
                None
            } else {
                Some(sign)
            }
            &&& group_text(jump_match(cmd)->0, 2, cmd) == Some(d)
            &&& group_text(jump_match(cmd)->0, 4, cmd) == target
        }),
{
    let cmd = jump_line(sign, d, target);
    let tail = match target {
        Some(t) => seq![' '] + t,
        None => seq![],
    };
    reveal_strlit("Jump ");
    let start = 5 + sign.len() as int;
    let end = start + d.len() as int;
    assert(cmd.len() == end + tail.len());
    assert forall|j: int| start <= j < end implies any_digit(#[trigger] cmd[j]) by {
        assert(cmd[j] == d[j - start]);
    }
    assert(cmd[5] == if sign.len() == 0 {
        d[0]
    } else {
        sign[0]
    });
    assert(is_digit(d[0]));
    if target is Some {
        assert(cmd[end] == ' ');
    }
    lemma_end_behind(cmd, start, end);
    assert(cmd.take(5) =~= "Jump "@);
    if let Some(t) = target {
        assert forall|i: int| end < i < cmd.len() implies is_letter(#[trigger] cmd[i]) by {
            assert(cmd[i] == t[i - end - 1]);
        }
        assert(cmd.subrange(end + 1, cmd.len() as int) =~= t);
    }
    assert(cmd.subrange(start, end) =~= d);
    if sign.len() > 0 {
        assert(cmd.subrange(5, 6) =~= sign);
    }
}

/// How a jump is read.
proof fn lemma_jump(sign: Seq<char>, n: usize, target: Option<Seq<char>>, shown: Shown)
    requires
        sign == Seq::<char>::empty() || sign == seq!['+'] || sign == seq!['-'],
        target matches Some(t) ==> t.len() <= 7 && bare(t) && parse_scroll_target(t) is Ok && (
        forall|i: int| 0 <= i < t.len() ==> 'a' <= #[trigger] t[i] <= 'z' || 'A' <= t[i] <= 'Z'),
    ensures
        ({
            let cmd = jump_text(sign, n, target);
            let groups = jump_match(cmd)->0;
            &&& parsed_command(cmd, shown) == jump_to(cmd, groups)
            &&& group_text(groups, 1, cmd) == if sign.len() == 0 {
                None
            } else {
                Some(sign)
            }
            &&& group_text(groups, 2, cmd) == Some(decimal(n as nat))
            &&& group_text(groups, 4, cmd) == target
        }),
        parse_decimal(decimal(n as nat), usize::MAX as nat) == Ok::<nat, ParseNumberError>(n as nat),
{
    let d = decimal(n as nat);
    lemma_decimal_round_trip(n as nat, usize::MAX as nat);
    lemma_decimal_short(n as nat);
    lemma_jump_groups(sign, d, target);
    let cmd = jump_text(sign, n, target);
    let tail = match target {
        Some(t) => seq![' '] + t,
        None => seq![],
    };
    let arg = sign + d + tail;
    reveal_strlit("Jump ");
    reveal_strlit("Jump");
    assert(is_digit(d[0]) && is_digit(d[d.len() - 1]));
    assert(arg[0] == if sign.len() == 0 {
        d[0]
    } else {
        sign[0]
    });
    assert(arg.last() == match target {
        Some(t) => t.last(),
        None => d.last(),
    });
    assert(cmd =~= said("Jump"@, arg));
    assert(cmd.take(4) =~= "Jump"@);
    lemma_said("Jump"@, arg, shown);
    lemma_no_other_command(cmd, shown);
    lemma_sources_differ();
}

/// A number has far fewer digits than it counts.
proof fn lemma_decimal_short(n: nat)
    ensures
        decimal(n).len() <= 2 + n / 16,
    decreases n,
{
    if n >= 10 {
        lemma_decimal_short(n / 10);
    }
}

/// A command to jump or to open something with an argument is none of the others.
proof fn lemma_no_other_command(cmd: Seq<char>, shown: Shown)
    requires
        cmd.len() > 5,
        cmd.take(4) == "Jump"@ || cmd.take(4) == "Open"@,
        cmd[4] == ' ',
    ensures
        simple_send(cmd, shown) is None,
        plain_command(cmd) is None,
        position(cmd, ' ') == 4,
        forall|arg: Seq<char>| #[trigger] with_argument(cmd.take(4), arg, shown) is None,
{
    reveal_strlit("Jump");
    reveal_strlit("Open");
    let w = cmd.take(4);
    let rest = cmd.skip(4);
    assert(cmd =~= w + rest);
    assert forall|i: int| 0 <= i < w.len() implies #[trigger] w[i] != ' ' by {}
    lemma_position_skips(w, rest, ' ');
    assert(rest[0] == ' ');
    assert(cmd[0] == w[0] && cmd[1] == w[1] && cmd[2] == w[2] && cmd[3] == w[3]);
    lemma_no_plain_command(cmd);
    lemma_no_argument_command(w, shown);
    reveal_strlit("MangaMode");
    reveal_strlit("Upscaling");
}

proof fn lemma_no_plain_command(cmd: Seq<char>)
    requires
        cmd.len() > 5,
        cmd[0] == 'J' || cmd[0] == 'O',
        cmd[4] == ' ',
    ensures
        plain_command(cmd) is None,
{
    reveal_strlit("Quit");
    reveal_strlit("ToggleUI");
    reveal_strlit("UI");
    reveal_strlit("SetBackground");
    reveal_strlit("Jump");
    reveal_strlit("Open");
    reveal_strlit("OpenFolder");
    reveal_strlit("Help");
    reveal_strlit("ToggleFullscreen");
    reveal_strlit("Fullscreen");
    reveal_strlit("TogglePlaying");
    reveal_strlit("Playing");
    reveal_strlit("ScrollDown");
    reveal_strlit("ScrollUp");
    reveal_strlit("ScrollRight");
    reveal_strlit("ScrollLeft");
    reveal_strlit("SnapBottom");
    reveal_strlit("SnapTop");
    reveal_strlit("SnapRight");
    reveal_strlit("SnapLeft");
    reveal_strlit("Copy");
}

proof fn lemma_no_argument_command(w: Seq<char>, shown: Shown)
    requires
        w.len() == 4,
        w[0] == 'J' || w[0] == 'O',
    ensures
        forall|arg: Seq<char>| #[trigger] with_argument(w, arg, shown) is None,
{
    reveal_strlit("SetBackground");
    reveal_strlit("Execute");
    reveal_strlit("Script");
    reveal_strlit("Quit");
    reveal_strlit("ScrollDown");
    reveal_strlit("ScrollUp");
    reveal_strlit("ScrollRight");
    reveal_strlit("ScrollLeft");
    reveal_strlit("UI");
    reveal_strlit("Fullscreen");
    reveal_strlit("Playing");
    reveal_strlit("NextPage");
    reveal_strlit("PreviousPage");
    reveal_strlit("FirstPage");
    reveal_strlit("LastPage");
}

/// The two expressions are not the same.
proof fn lemma_sources_differ()
    ensures
        jump_source() != open_source(),
{
    reveal_strlit(r"^Jump (\+|-)?(\d+)( ([[:alpha:]]+))?$");
    reveal_strlit(r"^Open (.+)$");
    assert(jump_source()[1] == 'J');
    assert(open_source()[1] == 'O');
}

/// A file in the list of those to open: in quotation marks where it has spaces.
pub open spec fn listed(file: Seq<char>, quote: Option<char>) -> Seq<char> {
    match quote {
        Some(q) => seq![q] + file + seq![q],
        None => file,
    }
}

/// Whether a file can be listed like that: in quotation marks that do not occur in it, or without
/// any where it has no space and begins with none.
pub open spec fn listable(file: Seq<char>, quote: Option<char>) -> bool {
    match quote {
        Some(q) => (q == '"' || q == '\'') && (forall|i: int|
            0 <= i < file.len() ==> #[trigger] file[i] != q),
        None => file.len() > 0 && file[0] != '"' && file[0] != '\'' && (forall|i: int|
            0 <= i < file.len() ==> #[trigger] file[i] != ' '),
    }
}

/// Of a list of files the first is what it names, and the rest is read in the same way.
pub proof fn law_files_are_listed(file: Seq<char>, quote: Option<char>, rest: Seq<char>)
    requires
        listable(file, quote),
    ensures
        split_files(listed(file, quote)) == seq![typed(file)],
        quote is None && rest.len() > 0 && !white_space(rest[0]) ==> split_files(
            listed(file, quote) + seq![' '] + rest,
        ) == seq![typed(file)] + split_files(rest),
        quote is Some && rest.len() > 0 && !white_space(rest[0]) ==> split_files(
            listed(file, quote) + seq![' '] + rest,
        ) == seq![typed(file)] + split_files(rest),
        split_files(Seq::empty()) == Seq::<Seq<char>>::empty(),
{
    let alone = listed(file, quote);
    let more = alone + seq![' '] + rest;
    match quote {
        Some(q) => {
            assert(alone[0] == q);
            assert(more[0] == q);
            let tail = seq![q];
            assert(alone.skip(1) =~= file + tail);
            lemma_position_skips(file, tail, q);
            assert(tail[0] == q);
            assert((file + tail).take(file.len() as int) =~= file);
            assert((file + tail).skip(file.len() as int + 1) =~= Seq::<char>::empty());
            assert(seq![typed(file)] + Seq::<Seq<char>>::empty() =~= seq![typed(file)]);
            assert(split_files(trim_start((file + tail).skip(file.len() as int + 1)))
                =~= Seq::<Seq<char>>::empty());
            let longer = seq![q] + (seq![' '] + rest);
            assert(more.skip(1) =~= file + longer);
            lemma_position_skips(file, longer, q);
            assert(longer[0] == q);
            assert((file + longer).take(file.len() as int) =~= file);
            let behind = seq![' '] + rest;
            assert((file + longer).skip(file.len() as int + 1) =~= behind);
            if rest.len() > 0 && !white_space(rest[0]) {
                assert(behind.skip(1) =~= rest);
                assert(behind[0] == ' ');
                assert(trim_start(rest) == rest);
                assert(trim_start(behind) == rest);
            }
        },
        None => {
            assert(alone[0] == file[0]);
            assert(more[0] == file[0]);
            lemma_position_skips(file, Seq::<char>::empty(), ' ');
            assert(file + Seq::<char>::empty() =~= file);
            let behind = seq![' '] + rest;
            assert(more =~= file + behind);
            lemma_position_skips(file, behind, ' ');
            assert(behind[0] == ' ');
            assert(more.take(file.len() as int) =~= file);
            assert(more.skip(file.len() as int + 1) =~= rest);
            if rest.len() > 0 && !white_space(rest[0]) {
                assert(trim_start(rest) == rest);
            }
        },
    }
}

/// A command to open files opens those of its list. They are seen from their start.
pub proof fn law_open_command(list: Seq<char>, shown: Shown)
    requires
        bare(list),
        list.len() + 5 <= usize::MAX,
        forall|i: int| 0 <= i < list.len() ==> #[trigger] list[i] != '\n',
    ensures
        parsed_command("Open "@ + list, shown) == (CommandView::Send(
            ActionView::Open(split_files(list)),
            GuiActionContext { scroll_motion_target: ScrollMotionTarget::Start },
        )),
{
    let cmd = "Open "@ + list;
    reveal_strlit("Open ");
    reveal_strlit("Open");
    assert(cmd =~= said("Open"@, list));
    assert(one_word("Open"@));
    lemma_said("Open"@, list, shown);
    lemma_no_other_command(cmd, shown);
    lemma_sources_differ();
    reveal_strlit("Jump ");
    assert(cmd.take(5) =~= "Open "@);
    assert(cmd.take(5)[0] == 'O');
    assert(jump_match(cmd) is None);
    assert forall|i: int| 5 <= i < cmd.len() implies #[trigger] cmd[i] != '\n' by {
        assert(cmd[i] == list[i - 5]);
    }
    assert(cmd.subrange(5, cmd.len() as int) =~= list);
    assert(trim(list) == list);
    assert(parsed_command(cmd, shown) == open_files(cmd, open_match(cmd)->0));
}

/// White space round a command does not matter.
pub proof fn law_white_space_round_commands(cmd: Seq<char>, before: char, after: char, shown: Shown)
    requires
        bare(cmd),
        white_space(before),
        white_space(after),
    ensures
        parsed_command(seq![before] + cmd, shown) == parsed_command(cmd, shown),
        parsed_command(cmd.push(after), shown) == parsed_command(cmd, shown),
{
    let a = seq![before] + cmd;
    assert(a[0] == before);
    assert(a.skip(1) =~= cmd);
    assert(trim_start(cmd) == cmd);
    assert(trim_end(cmd) == cmd);
    assert(trim_start(a) == cmd);
    let b = cmd.push(after);
    assert(b[0] == cmd[0]);
    assert(b.drop_last() =~= cmd);
    assert(trim_start(b) == b);
    assert(trim_end(b) == cmd);
}

proof fn lemma_scroll_top(arg: Seq<char>, shown: Shown)
    requires
        bare(arg),
    ensures
        parsed_command("ScrollUp "@ + arg, shown) == scroll_by(Edge::Top, arg),
{
    reveal_strlit("MangaMode");
    reveal_strlit("Upscaling");
    reveal_strlit("SetBackground");
    reveal_strlit("Execute");
    reveal_strlit("Script");
    reveal_strlit("Quit");
    reveal_strlit("ScrollDown");
    reveal_strlit("ScrollUp");
    reveal_strlit("ScrollRight");
    reveal_strlit("ScrollLeft");
    reveal_strlit("ScrollUp ");
    assert("ScrollUp "@ + arg =~= said("ScrollUp"@, arg));
    lemma_said("ScrollUp"@, arg, shown);
}

proof fn lemma_scroll_bottom(arg: Seq<char>, shown: Shown)
    requires
        bare(arg),
    ensures
        parsed_command("ScrollDown "@ + arg, shown) == scroll_by(Edge::Bottom, arg),
{
    reveal_strlit("MangaMode");
    reveal_strlit("Upscaling");
    reveal_strlit("SetBackground");
    reveal_strlit("Execute");
    reveal_strlit("Script");
    reveal_strlit("Quit");
    reveal_strlit("ScrollDown");
    reveal_strlit("ScrollUp");
    reveal_strlit("ScrollRight");
    reveal_strlit("ScrollLeft");
    reveal_strlit("ScrollDown ");
    assert("ScrollDown "@ + arg =~= said("ScrollDown"@, arg));
    lemma_said("ScrollDown"@, arg, shown);
}

proof fn lemma_scroll_left(arg: Seq<char>, shown: Shown)
    requires
        bare(arg),
    ensures
        parsed_command("ScrollLeft "@ + arg, shown) == scroll_by(Edge::Left, arg),
{
    reveal_strlit("MangaMode");
    reveal_strlit("Upscaling");
    reveal_strlit("SetBackground");
    reveal_strlit("Execute");
    reveal_strlit("Script");
    reveal_strlit("Quit");
    reveal_strlit("ScrollDown");
    reveal_strlit("ScrollUp");
    reveal_strlit("ScrollRight");
    reveal_strlit("ScrollLeft");
    reveal_strlit("ScrollLeft ");
    assert("ScrollLeft"@[6] != "ScrollDown"@[6]);
    assert("ScrollLeft "@ + arg =~= said("ScrollLeft"@, arg));
    lemma_said("ScrollLeft"@, arg, shown);
}

proof fn lemma_scroll_right(arg: Seq<char>, shown: Shown)
    requires
        bare(arg),
    ensures
        parsed_command("ScrollRight "@ + arg, shown) == scroll_by(Edge::Right, arg),
{
    reveal_strlit("MangaMode");
    reveal_strlit("Upscaling");
    reveal_strlit("SetBackground");
    reveal_strlit("Execute");
    reveal_strlit("Script");
    reveal_strlit("Quit");
    reveal_strlit("ScrollDown");
    reveal_strlit("ScrollUp");
    reveal_strlit("ScrollRight");
    reveal_strlit("ScrollLeft");
    reveal_strlit("ScrollRight ");
    assert("ScrollRight "@ + arg =~= said("ScrollRight"@, arg));
    lemma_said("ScrollRight"@, arg, shown);
}

proof fn lemma_switch_ui(arg: Seq<char>, t: Toggle, shown: Shown)
    requires
        bare(arg),
        parse_toggle(arg) == Ok::<Toggle, ()>(t),
    ensures
        parsed_command("UI "@ + arg, shown) == CommandView::Ui(t),
{
    reveal_strlit("MangaMode");
    reveal_strlit("Upscaling");
    reveal_strlit("SetBackground");
    reveal_strlit("Execute");
    reveal_strlit("Script");
    reveal_strlit("Quit");
    reveal_strlit("ScrollDown");
    reveal_strlit("ScrollUp");
    reveal_strlit("ScrollRight");
    reveal_strlit("ScrollLeft");
    reveal_strlit("UI");
    reveal_strlit("UI ");
    assert("UI "@ + arg =~= said("UI"@, arg));
    lemma_said("UI"@, arg, shown);
}

proof fn lemma_switch_fullscreen(arg: Seq<char>, t: Toggle, shown: Shown)
    requires
        bare(arg),
        parse_toggle(arg) == Ok::<Toggle, ()>(t),
    ensures
        parsed_command("Fullscreen "@ + arg, shown) == CommandView::Fullscreen(t),
{
    reveal_strlit("MangaMode");
    reveal_strlit("Upscaling");
    reveal_strlit("SetBackground");
    reveal_strlit("Execute");
    reveal_strlit("Script");
    reveal_strlit("Quit");
    reveal_strlit("ScrollDown");
    reveal_strlit("ScrollUp");
    reveal_strlit("ScrollRight");
    reveal_strlit("ScrollLeft");
    reveal_strlit("UI");
    reveal_strlit("Fullscreen");
    reveal_strlit("Fullscreen ");
    assert("Fullscreen "@ + arg =~= said("Fullscreen"@, arg));
    lemma_said("Fullscreen"@, arg, shown);
}

proof fn lemma_switch_playing(arg: Seq<char>, t: Toggle, shown: Shown)
    requires
        bare(arg),
        parse_toggle(arg) == Ok::<Toggle, ()>(t),
    ensures
        parsed_command("Playing "@ + arg, shown) == CommandView::Playing(t),
{
    reveal_strlit("MangaMode");
    reveal_strlit("Upscaling");
    reveal_strlit("SetBackground");
    reveal_strlit("Execute");
    reveal_strlit("Script");
    reveal_strlit("Quit");
    reveal_strlit("ScrollDown");
    reveal_strlit("ScrollUp");
    reveal_strlit("ScrollRight");
    reveal_strlit("ScrollLeft");
    reveal_strlit("UI");
    reveal_strlit("Fullscreen");
    reveal_strlit("Playing");
    reveal_strlit("Playing ");
    assert("Playing "@ + arg =~= said("Playing"@, arg));
    lemma_said("Playing"@, arg, shown);
}

proof fn lemma_switch_manga(arg: Seq<char>, t: Toggle, shown: Shown)
    requires
        bare(arg),
        parse_toggle(arg) == Ok::<Toggle, ()>(t),
    ensures
        parsed_command("MangaMode "@ + arg, shown) == (CommandView::Send(
            ActionView::Manga(t),
            GuiActionContext { scroll_motion_target: ScrollMotionTarget::Maintain },
        )),
{
    reveal_strlit("MangaMode");
    reveal_strlit("Upscaling");
    reveal_strlit("MangaMode ");
    assert("MangaMode "@ + arg =~= said("MangaMode"@, arg));
    lemma_said("MangaMode"@, arg, shown);
}

proof fn lemma_switch_upscaling(arg: Seq<char>, t: Toggle, shown: Shown)
    requires
        bare(arg),
        parse_toggle(arg) == Ok::<Toggle, ()>(t),
    ensures
        parsed_command("Upscaling "@ + arg, shown) == (CommandView::Send(
            ActionView::Upscaling(t),
            GuiActionContext { scroll_motion_target: ScrollMotionTarget::Maintain },
        )),
{
    reveal_strlit("MangaMode");
    reveal_strlit("Upscaling");
    reveal_strlit("Upscaling ");
    assert("Upscaling "@ + arg =~= said("Upscaling"@, arg));
    lemma_said("Upscaling"@, arg, shown);
}

proof fn lemma_to_next(arg: Seq<char>, t: ScrollMotionTarget, shown: Shown)
    requires
        bare(arg),
        parse_scroll_target(arg) == Ok::<ScrollMotionTarget, ()>(t),
        parse_toggle(arg) is Err,
    ensures
        parsed_command("NextPage "@ + arg, shown) == (CommandView::Send(
            ActionView::MovePages(Direction::Forwards, shown.next_jump),
            GuiActionContext { scroll_motion_target: t },
        )),
{
    reveal_strlit("MangaMode");
    reveal_strlit("Upscaling");
    reveal_strlit("SetBackground");
    reveal_strlit("Execute");
    reveal_strlit("Script");
    reveal_strlit("Quit");
    reveal_strlit("ScrollDown");
    reveal_strlit("ScrollUp");
    reveal_strlit("ScrollRight");
    reveal_strlit("ScrollLeft");
    reveal_strlit("NextPage");
    reveal_strlit("NextPage ");
    assert("NextPage "@ + arg =~= said("NextPage"@, arg));
    lemma_said("NextPage"@, arg, shown);
}

proof fn lemma_to_previous(arg: Seq<char>, t: ScrollMotionTarget, shown: Shown)
    requires
        bare(arg),
        parse_scroll_target(arg) == Ok::<ScrollMotionTarget, ()>(t),
        parse_toggle(arg) is Err,
    ensures
        parsed_command("PreviousPage "@ + arg, shown) == (CommandView::Send(
            ActionView::MovePages(Direction::Backwards, shown.prev_jump),
            GuiActionContext { scroll_motion_target: t },
        )),
{
    reveal_strlit("MangaMode");
    reveal_strlit("Upscaling");
    reveal_strlit("SetBackground");
    reveal_strlit("Execute");
    reveal_strlit("Script");
    reveal_strlit("Quit");
    reveal_strlit("ScrollDown");
    reveal_strlit("ScrollUp");
    reveal_strlit("ScrollRight");
    reveal_strlit("ScrollLeft");
    reveal_strlit("NextPage");
    reveal_strlit("PreviousPage");
    reveal_strlit("PreviousPage ");
    assert("PreviousPage "@ + arg =~= said("PreviousPage"@, arg));
    lemma_said("PreviousPage"@, arg, shown);
}

proof fn lemma_to_first(arg: Seq<char>, t: ScrollMotionTarget, shown: Shown)
    requires
        bare(arg),
        parse_scroll_target(arg) == Ok::<ScrollMotionTarget, ()>(t),
        parse_toggle(arg) is Err,
    ensures
        parsed_command("FirstPage "@ + arg, shown) == (CommandView::Send(
            ActionView::MovePages(Direction::Absolute, 0),
            GuiActionContext { scroll_motion_target: t },
        )),
{
    reveal_strlit("MangaMode");
    reveal_strlit("Upscaling");
    reveal_strlit("SetBackground");
    reveal_strlit("Execute");
    reveal_strlit("Script");
    reveal_strlit("Quit");
    reveal_strlit("ScrollDown");
    reveal_strlit("ScrollUp");
    reveal_strlit("ScrollRight");
    reveal_strlit("ScrollLeft");
    reveal_strlit("NextPage");
    reveal_strlit("PreviousPage");
    reveal_strlit("FirstPage");
    reveal_strlit("FirstPage ");
    assert("FirstPage "@ + arg =~= said("FirstPage"@, arg));
    lemma_said("FirstPage"@, arg, shown);
}

proof fn lemma_to_last(arg: Seq<char>, t: ScrollMotionTarget, shown: Shown)
    requires
        bare(arg),
        parse_scroll_target(arg) == Ok::<ScrollMotionTarget, ()>(t),
        parse_toggle(arg) is Err,
    ensures
        parsed_command("LastPage "@ + arg, shown) == (CommandView::Send(
            ActionView::MovePages(Direction::Absolute, usize::MAX),
            GuiActionContext { scroll_motion_target: t },
        )),
{
    reveal_strlit("MangaMode");
    reveal_strlit("Upscaling");
    reveal_strlit("SetBackground");
    reveal_strlit("Execute");
    reveal_strlit("Script");
    reveal_strlit("Quit");
    reveal_strlit("ScrollDown");
    reveal_strlit("ScrollUp");
    reveal_strlit("ScrollRight");
    reveal_strlit("ScrollLeft");
    reveal_strlit("NextPage");
    reveal_strlit("PreviousPage");
    reveal_strlit("FirstPage");
    reveal_strlit("LastPage");
    reveal_strlit("LastPage ");
    assert("LastPage "@ + arg =~= said("LastPage"@, arg));
    lemma_said("LastPage"@, arg, shown);
}

proof fn lemma_no_argument(w: Seq<char>, arg: Seq<char>, shown: Shown)
    requires
        w.len() > 0,
        !('A' <= w[0] <= 'Z'),
    ensures
        with_argument(w, arg, shown) is None,
{
    reveal_strlit("SetBackground");
    assert("SetBackground"@[0] == 'S');
    reveal_strlit("Execute");
    assert("Execute"@[0] == 'E');
    reveal_strlit("Script");
    assert("Script"@[0] == 'S');
    reveal_strlit("Quit");
    assert("Quit"@[0] == 'Q');
    reveal_strlit("UI");
    assert("UI"@[0] == 'U');
    reveal_strlit("Fullscreen");
    assert("Fullscreen"@[0] == 'F');
    reveal_strlit("Playing");
    assert("Playing"@[0] == 'P');
    reveal_strlit("NextPage");
    assert("NextPage"@[0] == 'N');
    reveal_strlit("PreviousPage");
    assert("PreviousPage"@[0] == 'P');
    reveal_strlit("FirstPage");
    assert("FirstPage"@[0] == 'F');
    reveal_strlit("LastPage");
    assert("LastPage"@[0] == 'L');
    reveal_strlit("ScrollDown");
    assert("ScrollDown"@[0] == 'S');
    reveal_strlit("ScrollUp");
    assert("ScrollUp"@[0] == 'S');
    reveal_strlit("ScrollRight");
    assert("ScrollRight"@[0] == 'S');
    reveal_strlit("ScrollLeft");
    assert("ScrollLeft"@[0] == 'S');
}

proof fn lemma_no_lower_case_command(w: Seq<char>)
    requires
        w.len() > 0,
        !('A' <= w[0] <= 'Z'),
    ensures
        plain_command(w) is None,
{
    reveal_strlit("Quit");
    assert("Quit"@[0] == 'Q');
    reveal_strlit("ToggleUI");
    assert("ToggleUI"@[0] == 'T');
    reveal_strlit("UI");
    assert("UI"@[0] == 'U');
    reveal_strlit("SetBackground");
    assert("SetBackground"@[0] == 'S');
    reveal_strlit("Jump");
    assert("Jump"@[0] == 'J');
    reveal_strlit("Open");
    assert("Open"@[0] == 'O');
    reveal_strlit("OpenFolder");
    assert("OpenFolder"@[0] == 'O');
    reveal_strlit("Help");
    assert("Help"@[0] == 'H');
    reveal_strlit("ToggleFullscreen");
    assert("ToggleFullscreen"@[0] == 'T');
    reveal_strlit("Fullscreen");
    assert("Fullscreen"@[0] == 'F');
    reveal_strlit("TogglePlaying");
    assert("TogglePlaying"@[0] == 'T');
    reveal_strlit("Playing");
    assert("Playing"@[0] == 'P');
    reveal_strlit("Copy");
    assert("Copy"@[0] == 'C');
    reveal_strlit("ScrollDown");
    assert("ScrollDown"@[0] == 'S');
    reveal_strlit("ScrollUp");
    assert("ScrollUp"@[0] == 'S');
    reveal_strlit("ScrollRight");
    assert("ScrollRight"@[0] == 'S');
    reveal_strlit("ScrollLeft");
    assert("ScrollLeft"@[0] == 'S');
    reveal_strlit("SnapBottom");
    assert("SnapBottom"@[0] == 'S');
    reveal_strlit("SnapTop");
    assert("SnapTop"@[0] == 'S');
    reveal_strlit("SnapRight");
    assert("SnapRight"@[0] == 'S');
    reveal_strlit("SnapLeft");
    assert("SnapLeft"@[0] == 'S');
}

proof fn lemma_no_send(cmd: Seq<char>, shown: Shown)
    requires
        cmd.len() > 0,
        !('A' <= cmd[0] <= 'Z'),
        cmd[0] != ' ',
    ensures
        simple_send(cmd, shown) is None,
{
    let space = position(cmd, ' ') as int;
    lemma_position(cmd, ' ');
    if space < cmd.len() {
        assert(cmd.take(space)[0] == cmd[0]);
    }
    reveal_strlit("MangaMode");
    assert("MangaMode"@[0] == 'M');
    reveal_strlit("Upscaling");
    assert("Upscaling"@[0] == 'U');
    reveal_strlit("NextPage");
    assert("NextPage"@[0] == 'N');
    reveal_strlit("PreviousPage");
    assert("PreviousPage"@[0] == 'P');
    reveal_strlit("FirstPage");
    assert("FirstPage"@[0] == 'F');
    reveal_strlit("LastPage");
    assert("LastPage"@[0] == 'L');
    reveal_strlit("NextArchive");
    assert("NextArchive"@[0] == 'N');
    reveal_strlit("PreviousArchive");
    assert("PreviousArchive"@[0] == 'P');
    reveal_strlit("ToggleUpscaling");
    assert("ToggleUpscaling"@[0] == 'T');
    reveal_strlit("ToggleMangaMode");
    assert("ToggleMangaMode"@[0] == 'T');
    reveal_strlit("Status");
    assert("Status"@[0] == 'S');
    reveal_strlit("ListPages");
    assert("ListPages"@[0] == 'L');
    reveal_strlit("FitToContainer");
    assert("FitToContainer"@[0] == 'F');
    reveal_strlit("FitToWidth");
    assert("FitToWidth"@[0] == 'F');
    reveal_strlit("FitToHeight");
    assert("FitToHeight"@[0] == 'F');
    reveal_strlit("FullSize");
    assert("FullSize"@[0] == 'F');
    reveal_strlit("VerticalStrip");
    assert("VerticalStrip"@[0] == 'V');
    reveal_strlit("HorizontalStrip");
    assert("HorizontalStrip"@[0] == 'H');
    reveal_strlit("DualPage");
    assert("DualPage"@[0] == 'D');
    reveal_strlit("DualPageReversed");
    assert("DualPageReversed"@[0] == 'D');
    reveal_strlit("SinglePage");
    assert("SinglePage"@[0] == 'S');
}

/// All commands begin with a capital letter. What does not is none, and is named in the answer.
pub proof fn law_unknown_commands(cmd: Seq<char>, shown: Shown)
    requires
        bare(cmd),
        !('A' <= cmd[0] <= 'Z'),
    ensures
        parsed_command(cmd, shown) == CommandView::Unrecognized(
            "Unrecognized command "@ + quoted(cmd),
        ),
{
    assert(trim_start(cmd) == cmd);
    assert(trim_end(cmd) == cmd);
    lemma_position(cmd, ' ');
    let space = position(cmd, ' ') as int;
    lemma_no_send(cmd, shown);
    lemma_no_lower_case_command(cmd);
    if space < cmd.len() {
        let w = cmd.take(space);
        assert(w[0] == cmd[0]);
        lemma_no_argument(w, trim_start(cmd.skip(space + 1)), shown);
    }
    reveal_strlit("Jump ");
    reveal_strlit("Open ");
    assert("Jump "@[0] == 'J');
    assert("Open "@[0] == 'O');
    if begins_with(cmd, "Jump "@) {
        assert(cmd.take(5)[0] == 'J');
    }
    if begins_with(cmd, "Open "@) {
        assert(cmd.take(5)[0] == 'O');
    }
    assert(jump_match(cmd) is None);
    assert(open_match(cmd) is None);
}

/// Something that is no number is no amount to scroll by, and the answer says why.
pub proof fn law_bad_scroll_amounts(arg: Seq<char>, e: ParseNumberError, shown: Shown)
    requires
        bare(arg),
        parse_decimal(arg, u32::MAX as nat) == Err::<nat, ParseNumberError>(e),
    ensures
        parsed_command("ScrollUp "@ + arg, shown) == CommandView::Error(
            "Invalid scroll amount "@ + arg + ": "@ + e.words(),
        ),
        parsed_command("ScrollDown "@ + arg, shown) == CommandView::Error(
            "Invalid scroll amount "@ + arg + ": "@ + e.words(),
        ),
        parsed_command("ScrollLeft "@ + arg, shown) == CommandView::Error(
            "Invalid scroll amount "@ + arg + ": "@ + e.words(),
        ),
        parsed_command("ScrollRight "@ + arg, shown) == CommandView::Error(
            "Invalid scroll amount "@ + arg + ": "@ + e.words(),
        ),
{
    lemma_scroll_top(arg, shown);
    lemma_scroll_bottom(arg, shown);
    lemma_scroll_left(arg, shown);
    lemma_scroll_right(arg, shown);
}

} // verus!
