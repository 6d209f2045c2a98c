//! What the dialogs of the window hold and do.
use vstd::prelude::*;

use crate::config::Shortcut;
use crate::manager::control::{bool_text, bool_word};
use crate::manager::page::page::{env_view, push_env};
use crate::pattern::{first_match, jump_source, Pattern};
use crate::text::{ascii_lower, chars_of, is_white_space, same_text, white_space};

verus! {

/// The dialogs.
#[derive(Clone, Copy, Debug, PartialEq, Eq, Structural)]
pub enum Dialog {
    Background,
    Jump,
    File,
    Help,
}

/// The dialogs that are open: at most one of each.
#[derive(Clone, Copy, Debug, PartialEq, Eq, Structural)]
pub struct OpenDialogs {
    pub background: bool,
    pub jump: bool,
    pub file: bool,
    pub help: bool,
}

impl Default for OpenDialogs {
    fn default() -> (r: Self)
        ensures
            forall|d: Dialog| !(#[trigger] r.is_open(d)),
    {
        OpenDialogs { background: false, jump: false, file: false, help: false }
    }
}

/// What is said when a dialog is asked for that is open already.
pub open spec fn already_open(d: Dialog) -> Seq<char> {
    match d {
        Dialog::Background => "SetBackground dialog already open"@,
        Dialog::Jump => "Jump dialog already open"@,
        Dialog::File => "Open file dialog already open"@,
        Dialog::Help => "Help dialog already open"@,
    }
}

impl OpenDialogs {
    /// Whether a dialog is open.
    pub open spec fn is_open(self, d: Dialog) -> bool {
        match d {
            Dialog::Background => self.background,
            Dialog::Jump => self.jump,
            Dialog::File => self.file,
            Dialog::Help => self.help,
        }
    }

    fn set(&mut self, d: Dialog, on: bool)
        ensures
            forall|e: Dialog|
                #[trigger] final(self).is_open(e) == if e == d {
                    on
                } else {
                    old(self).is_open(e)
                },
    {
        match d {
            Dialog::Background => self.background = on,
            Dialog::Jump => self.jump = on,
            Dialog::File => self.file = on,
            Dialog::Help => self.help = on,
        }
    }

    /// Asks for a dialog. If it is open already it is brought forward, and the answer says so.
    /// Otherwise it opens.
    pub fn ask(&mut self, d: Dialog) -> (r: Option<&'static str>)
        ensures
            old(self).is_open(d) ==> (r matches Some(s) && s@ == already_open(d)),
            !old(self).is_open(d) ==> r is None,
            forall|e: Dialog|
                #[trigger] final(self).is_open(e) == (e == d || old(self).is_open(e)),
    {
        let open = match d {
            Dialog::Background => self.background,
            Dialog::Jump => self.jump,
            Dialog::File => self.file,
            Dialog::Help => self.help,
        };
        if open {
            return Some(
                match d {
                    Dialog::Background => "SetBackground dialog already open",
                    Dialog::Jump => "Jump dialog already open",
                    Dialog::File => "Open file dialog already open",
                    Dialog::Help => "Help dialog already open",
                },
            );
        }
        self.set(d, true);
        None
    }

    /// A dialog was closed.
    pub fn close(&mut self, d: Dialog)
        ensures
            forall|e: Dialog|
                #[trigger] final(self).is_open(e) == (e != d && old(self).is_open(e)),
    {
        self.set(d, false);
    }
}

/// Whether a command for a pressed key closes a dialog.
pub fn closes_dialog(command: &str) -> (r: bool)
    ensures
        r == (command@ == "Quit"@),
{
    same_text(command, "Quit")
}

/// A lower case ASCII letter in upper case, any other character as it is.
pub open spec fn ascii_upper(c: char) -> char {
    if 'a' <= c <= 'z' {
        (c as int - 32) as char
    } else {
        c
    }
}

/// The key behind the last character in the field of the jump dialog, if it is none that belongs
/// there. A digit and a sign do.
pub open spec fn stray_key(text: Seq<char>) -> Option<char> {
    if text.len() == 0 {
        None
    } else {
        let c = text.last();
        if '0' <= c <= '9' || c == '-' || c == '+' {
            None
        } else {
            Some(ascii_upper(c))
        }
    }
}

/// The key to look for among the shortcuts after the field of the jump dialog changed.
pub fn typed_key(text: &str) -> (r: Option<char>)
    ensures
        r == stray_key(text@),
{
    let v = chars_of(text);
    if v.len() == 0 {
        return None;
    }
    let c = v[v.len() - 1];
    if ('0' <= c && c <= '9') || c == '-' || c == '+' {
        None
    } else if 'a' <= c && c <= 'z' {
        Some(((c as u8) - 32) as char)
    } else {
        Some(c)
    }
}

/// The command that the jump dialog runs for a text, if the text is one that can follow `Jump`.
pub fn jump_command(pattern: &Pattern, text: &str) -> (r: Option<String>)
    requires
        pattern.source() == jump_source(),
    ensures
        match r {
            Some(c) => c@ == "Jump "@ + text@ && first_match(jump_source(), c@) is Some,
            None => first_match(jump_source(), "Jump "@ + text@) is None,
        },
{
    let mut c = "Jump ".to_owned();
    c.append(text);
    match pattern.leftmost(&c) {
        Some(_) => Some(c),
        None => None,
    }
}

/// Whether a character is a control code.
pub open spec fn control_code(c: char) -> bool {
    c as u32 <= 0x1f || 0x7f <= c as u32 <= 0x9f
}

/// How a key is shown in the help dialog: by the character that it types, unless there is none
/// that can be seen, and by its name otherwise.
pub open spec fn key_label(name: Seq<char>, types: Option<char>) -> Seq<char> {
    match types {
        Some(c) => if white_space(c) || control_code(c) {
            name
        } else {
            seq![c]
        },
        None => name,
    }
}

/// A row of the help dialog.
#[derive(Debug)]
pub struct HelpRow {
    pub modifiers: String,
    pub key: String,
    pub action: String,
}

/// The row of the help dialog for a shortcut, with the character that its key types.
pub fn help_row(s: &Shortcut, types: Option<char>) -> (r: HelpRow)
    ensures
        r.modifiers@ == match s.modifiers {
            Some(m) => m@,
            None => ""@,
        },
        r.key@ == key_label(s.key@, types),
        r.action@ == s.action@,
{
    let modifiers = match &s.modifiers {
        Some(m) => m.clone(),
        None => "".to_owned(),
    };
    let key = match types {
        Some(c) => {
            let n = c as u32;
            if is_white_space(c) || n <= 0x1f || (0x7f <= n && n <= 0x9f) {
                s.key.clone()
            } else {
                let mut t = String::new();
                t.push(c);
                assert(t@ =~= seq![c]);
                t
            }
        },
        None => s.key.clone(),
    };
    HelpRow { modifiers, key, action: s.action.clone() }
}

/// What programs are told of the window.
pub open spec fn window_env(
    fullscreen: bool,
    playing: bool,
    ui_visible: bool,
    background: Seq<char>,
) -> Seq<(Seq<char>, Seq<char>)> {
    seq![
        ("AWMAN_FULLSCREEN"@, bool_word(fullscreen)),
        ("AWMAN_ANIMATION_PLAYING"@, bool_word(playing)),
        ("AWMAN_UI_VISIBLE"@, bool_word(ui_visible)),
        ("AWMAN_BACKGROUND"@, background),
    ]
}

/// What programs are told of the window.
pub fn get_env(fullscreen: bool, playing: bool, ui_visible: bool, background: String) -> (r: Vec<
    (String, String),
>)
    ensures
        env_view(r@) == window_env(fullscreen, playing, ui_visible, background@),
{
    let ghost b = background@;
    let mut env: Vec<(String, String)> = Vec::new();
    push_env(&mut env, "AWMAN_FULLSCREEN", bool_text(fullscreen).to_owned());
    push_env(&mut env, "AWMAN_ANIMATION_PLAYING", bool_text(playing).to_owned());
    push_env(&mut env, "AWMAN_UI_VISIBLE", bool_text(ui_visible).to_owned());
    push_env(&mut env, "AWMAN_BACKGROUND", background);
    assert(env_view(env@) =~= window_env(fullscreen, playing, ui_visible, b));
    env
}

/// What is said of each dialog that is open already.
pub proof fn law_each_dialog_says_its_name()
    ensures
        already_open(Dialog::Background) == "SetBackground dialog already open"@,
        already_open(Dialog::Jump) == "Jump dialog already open"@,
        already_open(Dialog::File) == "Open file dialog already open"@,
        already_open(Dialog::Help) == "Help dialog already open"@,
{
}

/// Only what cannot be part of a jump is a key to look for: letters count in upper case, and
/// everything else as it is.
pub proof fn law_stray_keys(text: Seq<char>, c: char)
    ensures
        stray_key(seq![]) is None,
        stray_key(text.push(c)) is None <==> c == '+' || c == '-' || c == '0' || c == '1' || c
            == '2' || c == '3' || c == '4' || c == '5' || c == '6' || c == '7' || c == '8' || c
            == '9',
        stray_key(text.push(c)) matches Some(k) ==> {
            &&& !('a' <= k <= 'z')
            &&& 'a' <= c <= 'z' ==> 'A' <= k <= 'Z' && ascii_lower(k) == c
            &&& !('a' <= c <= 'z') ==> k == c
        },
{
}

/// A key that types something that can be seen is shown by that, and any other by its name.
pub proof fn law_labels_of_keys(name: Seq<char>, c: char)
    ensures
        key_label(name, None) == name,
        white_space(c) ==> key_label(name, Some(c)) == name,
        c < ' ' || '\u{7f}' <= c <= '\u{9f}' ==> key_label(name, Some(c)) == name,
        ' ' < c <= '~' && !white_space(c) ==> key_label(name, Some(c)) == seq![c],
        c > '\u{9f}' && !white_space(c) ==> key_label(name, Some(c)) == seq![c],
{
}

/// The variables that programs are told the state of the window in.
pub proof fn law_variables_of_the_window(
    fullscreen: bool,
    playing: bool,
    ui_visible: bool,
    background: Seq<char>,
)
    ensures
        window_env(fullscreen, playing, ui_visible, background).len() == 4,
        window_env(fullscreen, playing, ui_visible, background)[0] == (
            "AWMAN_FULLSCREEN"@,
            if fullscreen {
                "true"@
            } else {
                "false"@
            },
        ),
        window_env(fullscreen, playing, ui_visible, background)[1] == (
            "AWMAN_ANIMATION_PLAYING"@,
            if playing {
                "true"@
            } else {
                "false"@
            },
        ),
        window_env(fullscreen, playing, ui_visible, background)[2] == (
            "AWMAN_UI_VISIBLE"@,
            if ui_visible {
                "true"@
            } else {
                "false"@
            },
        ),
        window_env(fullscreen, playing, ui_visible, background)[3] == (
            "AWMAN_BACKGROUND"@,
            background,
        ),
{
}

/// A dialog is open or not on its own, whichever others are.
pub proof fn law_dialogs_are_told_apart(o: OpenDialogs)
    ensures
        o.is_open(Dialog::Background) == o.background,
        o.is_open(Dialog::Jump) == o.jump,
        o.is_open(Dialog::File) == o.file,
        o.is_open(Dialog::Help) == o.help,
{
}

} // verus!
