//! Settings: what was asked for on the command line and in the configuration file.
use vstd::prelude::*;

use crate::com::res::{parse_res, Res};
use crate::gui::commands::{quote, quoted};
use crate::path::texts;
use crate::text::chars_of;

verus! {

/// What was asked for on the command line.
#[derive(Debug)]
pub struct Opt {
    /// Start in manga mode.
    pub manga: bool,
    /// Start in upscaling mode.
    pub upscale: bool,
    /// Always open in fileset mode instead of directory mode.
    pub fileset: bool,
    /// Print the supported file extensions and exit.
    pub show_supported: bool,
    /// Print the supported GPUs for OpenCL downscaling and exit.
    pub show_gpus: bool,
    /// The configuration file, if it is not the usual one.
    pub awconf: Option<String>,
    /// Commands to run at the start.
    pub command: Vec<String>,
    pub file_names: Vec<String>,
}

/// A key with what it does.
#[derive(Debug)]
pub struct Shortcut {
    pub action: String,
    pub key: String,
    pub modifiers: Option<String>,
}

/// The part of the context menu that an entry stands in.
#[derive(Debug)]
pub enum ContextMenuGroup {
    Section(String),
    Submenu(String),
}

/// What such a part is.
pub enum ContextMenuGroupView {
    Section(Seq<char>),
    Submenu(Seq<char>),
}

impl View for ContextMenuGroup {
    type V = ContextMenuGroupView;

    open spec fn view(&self) -> ContextMenuGroupView {
        match self {
            ContextMenuGroup::Section(s) => ContextMenuGroupView::Section(s@),
            ContextMenuGroup::Submenu(s) => ContextMenuGroupView::Submenu(s@),
        }
    }
}

/// An entry of the context menu.
#[derive(Debug)]
pub struct ContextMenuEntry {
    pub action: String,
    pub name: String,
    pub group: Option<ContextMenuGroup>,
}

/// The commands to run at the start: those of the command line in their order, and then the one
/// of the configuration.
pub fn startup_commands(opt: &Opt, startup_command: Option<&String>) -> (r: Vec<String>)
    ensures
        texts(r@) == texts(opt.command@) + match startup_command {
            Some(c) => seq![c@],
            None => seq![],
        },
{
    let mut r: Vec<String> = Vec::new();
    let mut i: usize = 0;
    while i < opt.command.len()
        invariant
            i <= opt.command@.len(),
            texts(r@) == texts(opt.command@).take(i as int),
        decreases opt.command.len() - i,
    {
        let ghost before = texts(r@);
        r.push(opt.command[i].clone());
        i += 1;
        assert(texts(r@) =~= before.push(texts(opt.command@)[i - 1]));
        assert(texts(r@) =~= texts(opt.command@).take(i as int));
    }
    assert(texts(r@) =~= texts(opt.command@));
    if let Some(c) = startup_command {
        r.push(c.clone());
    }
    assert(texts(r@) =~= texts(opt.command@) + match startup_command {
        Some(c) => seq![c@],
        None => seq![],
    });
    r
}

/// How many threads extract archives unless the configuration says otherwise.
pub fn default_extraction_threads() -> (r: usize)
    ensures
        r == 2,
{
    2
}

/// How many pages are upscaled at once unless the configuration says otherwise.
pub fn default_upscaling_threads() -> (r: usize)
    ensures
        r == 1,
{
    1
}

/// How far one scroll command goes unless the configuration says otherwise.
pub fn default_scroll_amount() -> (r: u32)
    ensures
        r == 300,
{
    300
}

/// `num_cpus::get` counts the processors of the machine. Nothing is claimed of the count.
#[verifier::external_body]
fn processors() -> (r: usize) {
    num_cpus::get()
}

/// Half as many threads as there are processors, but not fewer than a given number.
pub fn half_of(processors: usize, least: usize) -> (r: usize)
    ensures
        r == if processors / 2 < least {
            least
        } else {
            processors / 2
        },
{
    let half: usize = processors / 2;
    if half < least {
        least
    } else {
        half
    }
}

/// How many threads load pages unless the configuration says otherwise: half as many as there
/// are processors, and two at least. Which number that is depends on the machine.
pub fn half_threads() -> (r: usize)
    ensures
        2 <= r <= usize::MAX / 2,
{
    half_of(processors(), 2)
}

/// How many threads downscale pages unless the configuration says otherwise: half as many as
/// there are processors, and four at least. Which number that is depends on the machine.
pub fn half_threads_four() -> (r: usize)
    ensures
        4 <= r <= usize::MAX / 2,
{
    half_of(processors(), 4)
}

/// A path in the configuration, where an empty one stands for none.
pub fn empty_path_is_none(path: String) -> (r: Option<String>)
    ensures
        match r {
            Some(p) => p@ == path@ && path@.len() > 0,
            None => path@.len() == 0,
        },
{
    if chars_of(&path).len() == 0 {
        None
    } else {
        Some(path)
    }
}

/// A resolution in the configuration, where an empty text stands for none.
pub fn empty_string_is_none(s: &str) -> (r: Result<Option<Res>, String>)
    ensures
        s@.len() == 0 ==> r == Ok::<Option<Res>, String>(None),
        s@.len() > 0 ==> match parse_res(s@) {
            Some(x) => r == Ok::<Option<Res>, String>(Some(x)),
            None => r matches Err(e) && e@ == quoted(
                "Expected a string of the form WIDTHxHEIGHT. Example: 3840x2160"@,
            ),
        },
{
    if chars_of(s).len() == 0 {
        return Ok(None);
    }
    match Res::from_str(s) {
        Ok(x) => Ok(Some(x)),
        Err(e) => Err(quote(e.message())),
    }
}

/// What is said of a number that is too large.
pub open spec fn out_of_range() -> Seq<char> {
    "out of range integral type conversion attempted"@
}

/// A number in the configuration, where zero stands for none. One above the largest that the
/// setting can hold is an error.
pub fn zero_is_none(u: u64, most: u64) -> (r: Result<Option<u64>, String>)
    ensures
        u == 0 ==> r == Ok::<Option<u64>, String>(None),
        0 < u <= most ==> r == Ok::<Option<u64>, String>(Some(u)),
        u > most && u > 0 ==> (r matches Err(e) && e@ == out_of_range()),
{
    if u == 0 {
        Ok(None)
    } else if u <= most {
        Ok(Some(u))
    } else {
        Err("out of range integral type conversion attempted".to_owned())
    }
}

} // verus!
