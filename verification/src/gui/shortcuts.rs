//! Keyboard shortcuts.
use vstd::prelude::*;

use crate::config::Shortcut;
use crate::natsort::{lowercase, to_lowercase};
use crate::text::{chars_of, same_chars};

verus! {

/// The bits that stand for the modifier keys.
pub const SHIFT: u32 = 0x1;

pub const LOCK: u32 = 0x2;

pub const CONTROL: u32 = 0x4;

pub const ALT: u32 = 0x8;

pub const SUPER: u32 = 0x400_0000;

pub const META: u32 = 0x1000_0000;

/// Whether a text has another one in it.
pub open spec fn has_part(s: Seq<char>, part: Seq<char>) -> bool {
    exists|i: int| 0 <= i <= s.len() - part.len() && #[trigger] s.subrange(i, i + part.len()) == part
}

fn contains(s: &[char], part: &str) -> (r: bool)
    ensures
        r == has_part(s@, part@),
{
    let p = chars_of(part);
    if p.len() > s.len() {
        return false;
    }
    let last: usize = s.len() - p.len();
    let mut i: usize = 0;
    loop
        invariant
            i <= last,
            p@ == part@,
            last + p@.len() == s@.len(),
            s@.len() <= usize::MAX,
            forall|j: int| 0 <= j < i ==> #[trigger] s@.subrange(j, j + part@.len()) != part@,
        decreases last - i,
    {
        let piece = vstd::slice::slice_subrange(s, i, i + p.len());
        if same_chars(piece, p.as_slice()) {
            assert(s@.subrange(i as int, i + part@.len()) == part@);
            return true;
        }
        if i == last {
            return false;
        }
        i += 1;
    }
}

/// A bit if a condition holds.
pub open spec fn bit_if(c: bool, bit: u32) -> int {
    if c {
        bit as int
    } else {
        0
    }
}

/// The modifier keys that are named in a text in lower case.
pub open spec fn named_modifiers(m: Seq<char>) -> int {
    bit_if(has_part(m, "control"@), CONTROL) + bit_if(has_part(m, "alt"@), ALT) + bit_if(
        has_part(m, "shift"@),
        SHIFT,
    ) + bit_if(has_part(m, "super"@), SUPER) + bit_if(has_part(m, "command"@), META)
}

/// The modifier keys of a shortcut.
pub open spec fn modifiers_of(s: Shortcut) -> int {
    match s.modifiers {
        Some(m) => named_modifiers(lowercase(m@)),
        None => 0,
    }
}

/// The modifier keys that are named in a text in lower case.
pub fn find_modifiers(m: &str) -> (r: u32)
    ensures
        r == named_modifiers(m@),
{
    let v = chars_of(m);
    let s = v.as_slice();
    let mut r: u32 = 0;
    if contains(s, "control") {
        r += CONTROL;
    }
    if contains(s, "alt") {
        r += ALT;
    }
    if contains(s, "shift") {
        r += SHIFT;
    }
    if contains(s, "super") {
        r += SUPER;
    }
    if contains(s, "command") {
        r += META;
    }
    r
}

fn shortcut_modifiers(s: &Shortcut) -> (r: u32)
    ensures
        r == modifiers_of(*s),
{
    match &s.modifiers {
        Some(m) => find_modifiers(&to_lowercase(m)),
        None => 0,
    }
}

/// A key together with modifier keys as one number.
pub open spec fn chord(mods: int, key: u32) -> u64 {
    (mods * 0x1_0000_0000 + key) as u64
}

fn chord_of(mods: u32, key: u32) -> (r: u64)
    ensures
        r == chord(mods as int, key),
{
    mods as u64 * 0x1_0000_0000 + key as u64
}

/// What a map from keys to commands holds.
pub uninterp spec fn bindings_of(m: ahash::AHashMap<u64, String>) -> Map<u64, Seq<char>>;

/// `ahash::AHashMap::new` makes an empty map.
#[verifier::external_body]
fn new_bindings() -> (m: ahash::AHashMap<u64, String>)
    ensures
        forall|k: u64| !(#[trigger] bindings_of(m).dom().contains(k)),
{
    ahash::AHashMap::new()
}

/// `ahash::AHashMap::get` finds the value of a key, if the map has one.
#[verifier::external_body]
fn find_binding(m: &ahash::AHashMap<u64, String>, k: u64) -> (r: Option<&String>)
    ensures
        match r {
            Some(s) => bindings_of(*m).dom().contains(k) && s@ == bindings_of(*m)[k],
            None => !bindings_of(*m).dom().contains(k),
        },
{
    m.get(&k)
}

/// `ahash::AHashMap::insert` gives a key a value, in place of the one that it had.
#[verifier::external_body]
fn insert_binding(m: &mut ahash::AHashMap<u64, String>, k: u64, v: String)
    ensures
        bindings_of(*final(m)) == bindings_of(*old(m)).insert(k, v@),
{
    m.insert(k, v);
}

/// The keyboard shortcuts.
pub struct Shortcuts {
    bindings: ahash::AHashMap<u64, String>,
}

/// What each key does after some shortcuts were read in turn. Each stands with the number of its
/// key.
pub open spec fn bound(shortcuts: Seq<Shortcut>, keys: Seq<u32>) -> Map<u64, Seq<char>>
    decreases shortcuts.len(),
{
    if shortcuts.len() == 0 {
        Map::empty()
    } else {
        bound(shortcuts.drop_last(), keys.drop_last()).insert(
            chord(modifiers_of(shortcuts.last()), keys.last()),
            shortcuts.last().action@,
        )
    }
}

/// The command for a key that was pressed together with modifier keys. That letters are locked to
/// upper case makes no difference.
pub open spec fn command_for(
    bindings: Map<u64, Seq<char>>,
    key: u32,
    mods: u32,
) -> Option<Seq<char>> {
    let k = chord((mods & !LOCK) as int, key);
    if bindings.dom().contains(k) {
        Some(bindings[k])
    } else {
        None
    }
}

impl View for Shortcuts {
    type V = Map<u64, Seq<char>>;

    closed spec fn view(&self) -> Map<u64, Seq<char>> {
        bindings_of(self.bindings)
    }
}

impl Shortcuts {
    /// Reads the shortcuts of the configuration, each with the number of its key. The later of two
    /// for the same keys counts.
    pub fn parse_shortcuts(shortcuts: &Vec<Shortcut>, keys: &Vec<u32>) -> (r: Shortcuts)
        requires
            shortcuts@.len() == keys@.len(),
        ensures
            r@ == bound(shortcuts@, keys@),
    {
        let mut bindings = new_bindings();
        let mut i: usize = 0;
        assert(bindings_of(bindings) =~= bound(shortcuts@.take(0), keys@.take(0)));
        while i < shortcuts.len()
            invariant
                i <= shortcuts@.len(),
                shortcuts@.len() == keys@.len(),
                bindings_of(bindings) == bound(shortcuts@.take(i as int), keys@.take(i as int)),
            decreases shortcuts.len() - i,
        {
            let s = &shortcuts[i];
            insert_binding(
                &mut bindings,
                chord_of(shortcut_modifiers(s), keys[i]),
                s.action.clone(),
            );
            i += 1;
            assert(shortcuts@.take(i as int).drop_last() =~= shortcuts@.take(i - 1));
            assert(keys@.take(i as int).drop_last() =~= keys@.take(i - 1));
            assert(shortcuts@.take(i as int).last() == shortcuts@[i - 1]);
            assert(keys@.take(i as int).last() == keys@[i - 1]);
        }
        assert(shortcuts@.take(i as int) =~= shortcuts@);
        assert(keys@.take(i as int) =~= keys@);
        Shortcuts { bindings }
    }

    /// The command for a key, given as its upper case form, that was pressed together with
    /// modifier keys.
    pub fn shortcut_from_key(&self, key: u32, mods: u32) -> (r: Option<&String>)
        ensures
            match command_for(self@, key, mods) {
                Some(s) => r matches Some(x) && x@ == s,
                None => r is None,
            },
    {
        find_binding(&self.bindings, chord_of(mods & !LOCK, key))
    }
}

proof fn lemma_chord(m: u32, k: u32, n: u32, l: u32)
    ensures
        chord(m as int, k) == chord(n as int, l) <==> m == n && k == l,
{
}

/// The last of the shortcuts for a key with its modifiers is the one that counts.
pub proof fn law_last_shortcut_counts(shortcuts: Seq<Shortcut>, keys: Seq<u32>, i: int, mods: u32)
    requires
        shortcuts.len() == keys.len(),
        0 <= i < shortcuts.len(),
        modifiers_of(shortcuts[i]) == mods & !LOCK,
        forall|j: int|
            #![trigger shortcuts[j]]
            i < j < shortcuts.len() ==> keys[j] != keys[i] || modifiers_of(shortcuts[j])
                != modifiers_of(shortcuts[i]),
    ensures
        command_for(bound(shortcuts, keys), keys[i], mods) == Some(shortcuts[i].action@),
    decreases shortcuts.len(),
{
    if i < shortcuts.len() - 1 {
        let s = shortcuts.last();
        assert(s == shortcuts[shortcuts.len() - 1]);
        assert forall|j: int|
            #![trigger shortcuts.drop_last()[j]]
            i < j < shortcuts.drop_last().len() implies keys.drop_last()[j] != keys.drop_last()[i]
            || modifiers_of(shortcuts.drop_last()[j]) != modifiers_of(
            shortcuts.drop_last()[i],
        ) by {
            assert(shortcuts.drop_last()[j] == shortcuts[j]);
        }
        law_last_shortcut_counts(shortcuts.drop_last(), keys.drop_last(), i, mods);
        let m = modifiers_of(s);
        assert(0 <= m <= 0xffff_ffff);
        lemma_chord(m as u32, keys.last(), mods & !LOCK, keys[i]);
    }
}

/// Each modifier key that is named has its bit, whichever others are, and no other bit is there.
pub proof fn law_bits_of_modifiers(m: Seq<char>)
    ensures
        0 <= named_modifiers(m) <= 0x1400_000d,
        named_modifiers(m) % 2 == 1 <==> has_part(m, "shift"@),
        named_modifiers(m) / 2 % 2 == 0,
        named_modifiers(m) / 4 % 2 == 1 <==> has_part(m, "control"@),
        named_modifiers(m) / 8 % 2 == 1 <==> has_part(m, "alt"@),
        named_modifiers(m) / 0x400_0000 % 2 == 1 <==> has_part(m, "super"@),
        named_modifiers(m) / 0x1000_0000 % 2 == 1 <==> has_part(m, "command"@),
{
}

/// A name is found wherever it stands in a text.
pub proof fn law_names_of_modifiers_are_found(before: Seq<char>, name: Seq<char>, behind: Seq<char>)
    ensures
        has_part(before + name + behind, name),
        has_part(before, name) ==> has_part(before + behind, name),
        has_part(behind, name) ==> has_part(before + behind, name),
{
    let s = before + name + behind;
    let i = before.len() as int;
    assert(s.subrange(i, i + name.len()) =~= name);
    let t = before + behind;
    if has_part(before, name) {
        let j = choose|j: int|
            0 <= j <= before.len() - name.len() && #[trigger] before.subrange(j, j + name.len())
                == name;
        assert(t.subrange(j, j + name.len()) =~= before.subrange(j, j + name.len()));
    }
    if has_part(behind, name) {
        let j = choose|j: int|
            0 <= j <= behind.len() - name.len() && #[trigger] behind.subrange(j, j + name.len())
                == name;
        assert(t.subrange(i + j, i + j + name.len()) =~= behind.subrange(j, j + name.len()));
    }
}

/// A key does what its shortcut says with exactly the modifiers of that, and nothing with others.
/// That letters are locked to upper case makes no difference.
pub proof fn law_only_its_modifiers(shortcuts: Seq<Shortcut>, keys: Seq<u32>, key: u32, mods: u32)
    requires
        shortcuts.len() == keys.len(),
    ensures
        command_for(bound(shortcuts, keys), key, mods) == command_for(
            bound(shortcuts, keys),
            key,
            mods | LOCK,
        ),
        command_for(bound(shortcuts, keys), key, mods) is Some <==> exists|i: int|
            0 <= i < shortcuts.len() && keys[i] == key && #[trigger] modifiers_of(shortcuts[i])
                == mods & !LOCK,
    decreases shortcuts.len(),
{
    assert((mods | LOCK) & !LOCK == mods & !LOCK) by {
        assert((mods | 2u32) & !2u32 == mods & !2u32) by (bit_vector);
    }
    let b = bound(shortcuts, keys);
    let held = mods & !LOCK;
    if shortcuts.len() > 0 {
        law_only_its_modifiers(shortcuts.drop_last(), keys.drop_last(), key, mods);
        let last = shortcuts.len() - 1;
        let m = modifiers_of(shortcuts.last());
        assert(0 <= m <= u32::MAX);
        lemma_chord(m as u32, keys.last(), held, key);
        let c = bound(shortcuts.drop_last(), keys.drop_last());
        assert(b == c.insert(chord(m, keys.last()), shortcuts.last().action@));
        if command_for(c, key, mods) is Some {
            let i = choose|i: int|
                0 <= i < shortcuts.drop_last().len() && keys.drop_last()[i] == key
                    && #[trigger] modifiers_of(shortcuts.drop_last()[i]) == held;
            assert(keys[i] == key && modifiers_of(shortcuts[i]) == held);
        }
        if exists|i: int|
            0 <= i < shortcuts.len() && keys[i] == key && #[trigger] modifiers_of(shortcuts[i])
                == held {
            let i = choose|i: int|
                0 <= i < shortcuts.len() && keys[i] == key && #[trigger] modifiers_of(shortcuts[i])
                    == held;
            if i < last {
                assert(keys.drop_last()[i] == key && modifiers_of(shortcuts.drop_last()[i])
                    == held);
            }
        }
        if m == held && keys.last() == key {
            assert(keys[last] == key && modifiers_of(shortcuts[last]) == held);
        }
    }
}

/// The modifiers of a shortcut are those that its text names, in any case, and none if it has no
/// text.
pub proof fn law_modifiers_of_shortcuts(s: Shortcut)
    ensures
        s.modifiers is None ==> modifiers_of(s) == 0,
        s.modifiers matches Some(m) ==> modifiers_of(s) == named_modifiers(lowercase(m@)),
{
}

/// The key that locks letters to upper case is the second bit, and makes no difference.
pub proof fn law_locked_letters(bindings: Map<u64, Seq<char>>, key: u32, mods: u32)
    ensures
        command_for(bindings, key, mods | 2) == command_for(bindings, key, mods & !2u32),
{
    assert((mods | 2u32) & !2u32 == (mods & !2u32) & !2u32) by (bit_vector);
}

} // verus!
