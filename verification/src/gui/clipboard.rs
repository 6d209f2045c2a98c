//! What is copied to the clipboard.
use vstd::prelude::*;
use vstd::utf8::{decode_utf8, encode_utf8, valid_utf8};

use crate::manager::files::{join, joined, law_joined};
use crate::filenames::{bytes_of, lemma_bytes_add, name_bytes, shown, shown_name};
use crate::path::texts;
use crate::text::{chars_of, same_text, utf8_text};

verus! {

/// A form that copied files are offered in.
#[derive(Clone, Copy, Debug, PartialEq, Eq, Structural)]
pub enum Form {
    /// What file managers understand: what to do, and the addresses.
    FileManager,
    Addresses,
    Paths,
    /// Paths in ASCII, with everything else escaped.
    Ascii,
}

/// The names of the forms that copied files are offered in.
pub open spec fn form_names() -> Seq<&'static str> {
    seq![
        "x-special/aw-fm-copied-files",
        "x-special/mate-copied-files",
        "x-special/gnome-copied-files",
        "text/uri-list",
        "text/plain;charset=utf-8",
        "text/plain",
        "UTF8_STRING",
        "COMPOUND_TEXT",
        "TEXT",
        "STRING",
    ]
}

/// The form of a name.
pub open spec fn form_of(mime: Seq<char>) -> Option<Form> {
    if mime == "x-special/aw-fm-copied-files"@ || mime == "x-special/mate-copied-files"@ || mime
        == "x-special/gnome-copied-files"@ {
        Some(Form::FileManager)
    } else if mime == "text/uri-list"@ {
        Some(Form::Addresses)
    } else if mime == "text/plain;charset=utf-8"@ || mime == "UTF8_STRING"@ || mime
        == "COMPOUND_TEXT"@ || mime == "TEXT"@ || mime == "STRING"@ {
        Some(Form::Paths)
    } else if mime == "text/plain"@ {
        Some(Form::Ascii)
    } else {
        None
    }
}

/// The names of the forms that copied files are offered in.
pub fn formats() -> (r: Vec<&'static str>)
    ensures
        r@ == form_names(),
{
    let r: Vec<&'static str> =
        vec![
        "x-special/aw-fm-copied-files",
        "x-special/mate-copied-files",
        "x-special/gnome-copied-files",
        "text/uri-list",
        "text/plain;charset=utf-8",
        "text/plain",
        "UTF8_STRING",
        "COMPOUND_TEXT",
        "TEXT",
        "STRING",
    ];
    assert(r@ =~= form_names());
    r
}

/// The form of a name.
pub fn form(mime: &str) -> (r: Option<Form>)
    ensures
        r == form_of(mime@),
{
    if same_text(mime, "x-special/aw-fm-copied-files") || same_text(
        mime,
        "x-special/mate-copied-files",
    ) || same_text(mime, "x-special/gnome-copied-files") {
        Some(Form::FileManager)
    } else if same_text(mime, "text/uri-list") {
        Some(Form::Addresses)
    } else if same_text(mime, "text/plain;charset=utf-8") || same_text(mime, "UTF8_STRING")
        || same_text(mime, "COMPOUND_TEXT") || same_text(mime, "TEXT") || same_text(
        mime,
        "STRING",
    ) {
        Some(Form::Paths)
    } else if same_text(mime, "text/plain") {
        Some(Form::Ascii)
    } else {
        None
    }
}

/// Every form that is offered can be had.
pub proof fn law_offered_forms_are_known(i: int)
    requires
        0 <= i < form_names().len(),
    ensures
        form_of(form_names()[i]@) is Some,
{
}

/// A digit of a hexadecimal number.
pub open spec fn hex_digit(n: nat) -> char {
    if n < 10 {
        ('0' as nat + n) as char
    } else {
        ('a' as nat + n - 10) as char
    }
}

/// A hexadecimal number.
pub open spec fn hex(n: nat) -> Seq<char>
    decreases n,
{
    if n < 16 {
        seq![hex_digit(n)]
    } else {
        hex(n / 16).push(hex_digit(n % 16))
    }
}

/// A character in ASCII: as it is if it can be seen there and has no other meaning, and escaped
/// otherwise.
pub open spec fn escaped_char(c: char) -> Seq<char> {
    if c == '\t' {
        "\\t"@
    } else if c == '\r' {
        "\\r"@
    } else if c == '\n' {
        "\\n"@
    } else if c == '\'' {
        "\\'"@
    } else if c == '"' {
        "\\\""@
    } else if c == '\\' {
        "\\\\"@
    } else if ' ' <= c <= '~' {
        seq![c]
    } else {
        "\\u{"@ + hex(c as nat) + "}"@
    }
}

/// A text in ASCII.
pub open spec fn escaped(s: Seq<char>) -> Seq<char>
    decreases s.len(),
{
    if s.len() == 0 {
        seq![]
    } else {
        escaped(s.drop_last()) + escaped_char(s.last())
    }
}

fn push_hex(s: &mut String, n: u32)
    ensures
        final(s)@ == old(s)@ + hex(n as nat),
    decreases n,
{
    let ghost before = s@;
    if n >= 16 {
        push_hex(s, n / 16);
    }
    let d = (n % 16) as u8;
    let c = if d < 10 {
        (48 + d) as char
    } else {
        (97 + (d - 10)) as char
    };
    assert(c == hex_digit((n % 16) as nat));
    s.push(c);
    assert(s@ =~= before + hex(n as nat));
}

fn push_escaped(s: &mut String, c: char)
    ensures
        final(s)@ == old(s)@ + escaped_char(c),
{
    let ghost before = s@;
    if c == '\t' {
        s.append("\\t");
    } else if c == '\r' {
        s.append("\\r");
    } else if c == '\n' {
        s.append("\\n");
    } else if c == '\'' {
        s.append("\\'");
    } else if c == '"' {
        s.append("\\\"");
    } else if c == '\\' {
        s.append("\\\\");
    } else if ' ' <= c && c <= '~' {
        s.push(c);
        assert(s@ =~= before + escaped_char(c));
    } else {
        s.append("\\u{");
        push_hex(s, c as u32);
        s.append("}");
        assert(s@ =~= before + escaped_char(c));
    }
}

/// A text in ASCII.
pub fn escape(s: &str) -> (r: String)
    ensures
        r@ == escaped(s@),
{
    let v = chars_of(s);
    let mut r = String::new();
    let mut i: usize = 0;
    assert(v@.take(0) =~= seq![]);
    assert(r@ =~= seq![]);
    while i < v.len()
        invariant
            i <= v@.len(),
            r@ == escaped(v@.take(i as int)),
        decreases v.len() - i,
    {
        push_escaped(&mut r, v[i]);
        i += 1;
        assert(v@.take(i as int).drop_last() =~= v@.take(i - 1));
        assert(v@.take(i as int).last() == v@[i - 1]);
    }
    assert(v@.take(i as int) =~= v@);
    r
}

proof fn lemma_hex_ascii(n: nat)
    ensures
        forall|i: int| 0 <= i < hex(n).len() ==> ' ' <= #[trigger] hex(n)[i] <= '~',
    decreases n,
{
    assert(' ' <= hex_digit(n % 16) <= '~');
    if n >= 16 {
        lemma_hex_ascii(n / 16);
        assert forall|i: int| 0 <= i < hex(n).len() implies ' ' <= #[trigger] hex(n)[i] <= '~' by {
            if i < hex(n / 16).len() {
                assert(hex(n)[i] == hex(n / 16)[i]);
            }
        }
    }
}

/// An escaped text has nothing but characters of ASCII that can be seen.
pub proof fn law_escaped_is_ascii(s: Seq<char>, i: int)
    requires
        0 <= i < escaped(s).len(),
    ensures
        ' ' <= escaped(s)[i] <= '~',
    decreases s.len(),
{
    let rest = escaped(s.drop_last());
    let c = s.last();
    if i < rest.len() {
        law_escaped_is_ascii(s.drop_last(), i);
    } else {
        lemma_hex_ascii(c as nat);
        reveal_strlit("\\t");
        reveal_strlit("\\r");
        reveal_strlit("\\n");
        reveal_strlit("\\'");
        reveal_strlit("\\\"");
        reveal_strlit("\\\\");
        reveal_strlit("\\u{");
        reveal_strlit("}");
        assert(escaped(s)[i] == escaped_char(c)[i - rest.len()]);
    }
}

/// The escaped form of what is shown of each of some paths.
pub open spec fn escaped_all(v: Seq<Seq<char>>) -> Seq<Seq<char>> {
    v.map_values(|s: Seq<char>| escaped(shown(s)))
}

fn escape_all(v: &Vec<String>) -> (r: Vec<String>)
    ensures
        texts(r@) == escaped_all(texts(v@)),
{
    let mut r: Vec<String> = Vec::new();
    let mut i: usize = 0;
    while i < v.len()
        invariant
            i <= v@.len(),
            r@.len() == i,
            forall|k: int| 0 <= k < i ==> (#[trigger] r@[k])@ == escaped(shown(v@[k]@)),
        decreases v.len() - i,
    {
        r.push(escape(shown_name(v[i].as_str()).as_str()));
        i += 1;
    }
    assert(texts(r@) =~= escaped_all(texts(v@)));
    r
}

/// What is written to the clipboard for some files in a form. Paths are written as they are,
/// whatever bytes they hold.
pub open spec fn copied(form: Form, paths: Seq<Seq<char>>, uris: Seq<Seq<char>>) -> Seq<u8> {
    match form {
        Form::FileManager => encode_utf8("copy\n"@ + joined(uris, "\n"@)),
        Form::Addresses => encode_utf8(joined(uris, "\n"@)),
        Form::Paths => name_bytes(joined(paths, "\n"@)),
        Form::Ascii => encode_utf8(joined(escaped_all(paths), "\n"@)),
    }
}

fn text_bytes(s: &str) -> (r: Vec<u8>)
    ensures
        r@ == encode_utf8(s@),
{
    vstd::slice::slice_to_vec(s.as_bytes())
}

/// What is written to the clipboard for some files, given by their paths and by their addresses,
/// in the form of a name.
pub fn content(mime: &str, paths: &Vec<String>, uris: &Vec<String>) -> (r: Result<
    Vec<u8>,
    &'static str,
>)
    ensures
        match form_of(mime@) {
            Some(f) => r matches Ok(s) && s@ == copied(f, texts(paths@), texts(uris@)),
            None => r matches Err(e) && e@ == "Unhandled mime type"@,
        },
{
    match form(mime) {
        Some(Form::FileManager) => {
            let mut s = "copy\n".to_owned();
            s.append(join(uris, "\n").as_str());
            Ok(text_bytes(s.as_str()))
        },
        Some(Form::Addresses) => Ok(text_bytes(join(uris, "\n").as_str())),
        Some(Form::Paths) => Ok(bytes_of(join(paths, "\n").as_str())),
        Some(Form::Ascii) => Ok(text_bytes(join(&escape_all(paths), "\n").as_str())),
        None => Err("Unhandled mime type"),
    }
}

/// What is given for some files where a plain text is asked for: their paths one after the other,
/// or nothing if these are no text.
pub fn value(paths: &Vec<String>) -> (r: String)
    ensures
        ({
            let bytes = name_bytes(joined(texts(paths@), ""@));
            r@ == if valid_utf8(bytes) {
                decode_utf8(bytes)
            } else {
                seq![]
            }
        }),
{
    let bytes = bytes_of(join(paths, "").as_str());
    match utf8_text(bytes.as_slice()) {
        Ok(s) => s,
        Err(_) => String::new(),
    }
}

proof fn lemma_lengths_of_names()
    ensures
        "x-special/aw-fm-copied-files"@.len() == 28,
        "x-special/mate-copied-files"@.len() == 27,
        "x-special/gnome-copied-files"@.len() == 28,
        "text/uri-list"@.len() == 13,
        "text/plain;charset=utf-8"@.len() == 24,
        "UTF8_STRING"@.len() == 11,
        "COMPOUND_TEXT"@.len() == 13,
        "TEXT"@.len() == 4,
        "STRING"@.len() == 6,
        "text/plain"@.len() == 10,
        "text/uri-list"@ != "COMPOUND_TEXT"@,
        "x-special/aw-fm-copied-files"@ != "x-special/gnome-copied-files"@,
{
    reveal_strlit("x-special/aw-fm-copied-files");
    reveal_strlit("x-special/mate-copied-files");
    reveal_strlit("x-special/gnome-copied-files");
    reveal_strlit("text/uri-list");
    reveal_strlit("text/plain;charset=utf-8");
    reveal_strlit("UTF8_STRING");
    reveal_strlit("COMPOUND_TEXT");
    reveal_strlit("TEXT");
    reveal_strlit("STRING");
    reveal_strlit("text/plain");
    assert("text/uri-list"@[0] == 't');
    assert("COMPOUND_TEXT"@[0] == 'C');
    assert("x-special/aw-fm-copied-files"@[10] == 'a');
    assert("x-special/gnome-copied-files"@[10] == 'g');
}

/// The forms by their names. File managers are told what to do with the files, the plain name for
/// text stands for ASCII, and the other names for text give the paths as they are.
pub proof fn law_names_of_forms(mime: Seq<char>)
    ensures
        form_of(mime) == Some(Form::FileManager) <==> mime == "x-special/aw-fm-copied-files"@
            || mime == "x-special/mate-copied-files"@ || mime == "x-special/gnome-copied-files"@,
        form_of(mime) == Some(Form::Addresses) <==> mime == "text/uri-list"@,
        form_of(mime) == Some(Form::Ascii) <==> mime == "text/plain"@,
        form_of(mime) == Some(Form::Paths) <==> mime == "text/plain;charset=utf-8"@ || mime
            == "UTF8_STRING"@ || mime == "COMPOUND_TEXT"@ || mime == "TEXT"@ || mime == "STRING"@,
{
    lemma_lengths_of_names();
}

/// There are ten names, and none is offered twice.
pub proof fn law_offered_forms(i: int, j: int)
    requires
        0 <= i < j < form_names().len(),
    ensures
        form_names().len() == 10,
        form_names()[i]@ != form_names()[j]@,
{
    lemma_lengths_of_names();
}

/// The number that hexadecimal digits stand for.
pub open spec fn hex_value(s: Seq<char>) -> nat
    decreases s.len(),
{
    if s.len() == 0 {
        0
    } else {
        hex_value(s.drop_last()) * 16 + if '0' <= s.last() <= '9' {
            (s.last() as nat - '0' as nat) as nat
        } else {
            (s.last() as nat - 'a' as nat + 10) as nat
        }
    }
}

/// A hexadecimal number stands for the number that it was made of, in lower case and without
/// noughts before it.
pub proof fn law_hexadecimal_numbers(n: nat)
    ensures
        hex_value(hex(n)) == n,
        hex(n).len() > 0,
        n > 0 ==> hex(n)[0] != '0',
        forall|i: int|
            0 <= i < hex(n).len() ==> '0' <= #[trigger] hex(n)[i] <= '9' || 'a' <= hex(n)[i]
                <= 'f',
    decreases n,
{
    if n < 16 {
        assert(hex(n).drop_last() =~= seq![]);
        assert(hex_value(hex(n).drop_last()) == 0);
        assert(hex(n).last() == hex_digit(n));
    } else {
        law_hexadecimal_numbers(n / 16);
        assert(hex(n).drop_last() =~= hex(n / 16));
        assert(hex(n).last() == hex_digit(n % 16));
        assert(hex(n)[0] == hex(n / 16)[0]);
        assert(n == (n / 16) * 16 + n % 16);
    }
}

/// How single characters are written in ASCII: what can be seen and has no meaning of its own is
/// kept, and all else stands behind a backslash.
pub proof fn law_escaped_characters(c: char)
    ensures
        escaped_char('\t') == seq!['\\', 't'],
        escaped_char('\r') == seq!['\\', 'r'],
        escaped_char('\n') == seq!['\\', 'n'],
        escaped_char('\'') == seq!['\\', '\''],
        escaped_char('"') == seq!['\\', '"'],
        escaped_char('\\') == seq!['\\', '\\'],
        ' ' <= c <= '~' && c != '\'' && c != '"' && c != '\\' ==> escaped_char(c) == seq![c],
        c > '~' || c < ' ' && c != '\t' && c != '\r' && c != '\n' ==> escaped_char(c) == seq![
            '\\',
            'u',
            '{',
        ] + hex(c as nat) + seq!['}'],
        escaped_char(c).len() > 0,
        escaped_char(c)[0] == '\\' <==> escaped_char(c).len() > 1,
{
    reveal_strlit("\\t");
    reveal_strlit("\\r");
    reveal_strlit("\\n");
    reveal_strlit("\\'");
    reveal_strlit("\\\"");
    reveal_strlit("\\\\");
    reveal_strlit("\\u{");
    reveal_strlit("}");
    assert(escaped_char('\t') =~= seq!['\\', 't']);
    assert(escaped_char('\r') =~= seq!['\\', 'r']);
    assert(escaped_char('\n') =~= seq!['\\', 'n']);
    assert(escaped_char('\'') =~= seq!['\\', '\'']);
    assert(escaped_char('"') =~= seq!['\\', '"']);
    assert(escaped_char('\\') =~= seq!['\\', '\\']);
    assert("\\u{"@ =~= seq!['\\', 'u', '{']);
    assert("}"@ =~= seq!['}']);
}

/// Texts that follow one another are escaped one by one, in order, and a text that needs no
/// escaping is kept.
pub proof fn law_escaped_texts(a: Seq<char>, b: Seq<char>)
    ensures
        escaped(a + b) == escaped(a) + escaped(b),
        (forall|i: int|
            0 <= i < b.len() ==> ' ' <= #[trigger] b[i] <= '~' && b[i] != '\'' && b[i] != '"'
                && b[i] != '\\') ==> escaped(b) == b,
    decreases b.len(),
{
    if b.len() == 0 {
        assert(a + b =~= a);
        assert(escaped(b) =~= b);
    } else {
        law_escaped_texts(a, b.drop_last());
        assert((a + b).drop_last() =~= a + b.drop_last());
        assert((a + b).last() == b.last());
        assert(escaped(a + b) =~= escaped(a) + escaped(b));
        if forall|i: int|
            0 <= i < b.len() ==> ' ' <= #[trigger] b[i] <= '~' && b[i] != '\'' && b[i] != '"'
                && b[i] != '\\' {
            let l = b.len() - 1;
            assert(' ' <= b[l] <= '~');
            assert forall|i: int| 0 <= i < b.drop_last().len() implies ' '
                <= #[trigger] b.drop_last()[i] <= '~' && b.drop_last()[i] != '\''
                && b.drop_last()[i] != '"' && b.drop_last()[i] != '\\' by {
                assert(b.drop_last()[i] == b[i]);
            }
            assert(escaped(b) =~= b);
        }
    }
}

proof fn lemma_encoded(a: Seq<char>, b: Seq<char>)
    ensures
        encode_utf8(a + b) == encode_utf8(a) + encode_utf8(b),
    decreases a.len(),
{
    if a.len() == 0 {
        assert(a + b =~= b);
        assert(encode_utf8(a + b) =~= encode_utf8(a) + encode_utf8(b));
    } else {
        assert((a + b).drop_first() =~= a.drop_first() + b);
        lemma_encoded(a.drop_first(), b);
        assert(encode_utf8(a + b) =~= encode_utf8(a) + encode_utf8(b));
    }
}

/// What file managers get is the word for what to do with the files and then their addresses, as
/// they are given where addresses are asked for. Paths are separated by line ends, and nothing
/// stands behind the last.
pub proof fn law_copied_files(
    paths: Seq<Seq<char>>,
    uris: Seq<Seq<char>>,
    path: Seq<char>,
    uri: Seq<char>,
)
    ensures
        copied(Form::FileManager, paths, uris) == encode_utf8("copy\n"@) + copied(
            Form::Addresses,
            paths,
            uris,
        ),
        copied(Form::Addresses, seq![path], seq![uri]) == encode_utf8(uri),
        copied(Form::Paths, seq![path], seq![uri]) == name_bytes(path),
        copied(Form::Ascii, seq![path], seq![uri]) == encode_utf8(escaped(shown(path))),
        paths.len() > 0 ==> copied(Form::Paths, paths.push(path), uris) == copied(
            Form::Paths,
            paths,
            uris,
        ) + name_bytes("\n"@) + name_bytes(path),
        uris.len() > 0 ==> copied(Form::Addresses, paths, uris.push(uri)) == copied(
            Form::Addresses,
            paths,
            uris,
        ) + encode_utf8("\n"@) + encode_utf8(uri),
        paths.len() > 0 ==> copied(Form::Ascii, paths.push(path), uris) == copied(
            Form::Ascii,
            paths,
            uris,
        ) + encode_utf8("\n"@) + encode_utf8(escaped(shown(path))),
{
    lemma_encoded("copy\n"@, joined(uris, "\n"@));
    assert(joined(seq![path], "\n"@) =~= path);
    assert(joined(seq![uri], "\n"@) =~= uri);
    assert(escaped_all(seq![path]) =~= seq![escaped(shown(path))]);
    assert(joined(seq![escaped(shown(path))], "\n"@) =~= escaped(shown(path)));
    if paths.len() > 0 {
        law_joined(paths, path, "\n"@);
        lemma_bytes_add(joined(paths, "\n"@) + "\n"@, path);
        lemma_bytes_add(joined(paths, "\n"@), "\n"@);
        let all = escaped_all(paths);
        let last = escaped(shown(path));
        assert(escaped_all(paths.push(path)) =~= all.push(last));
        law_joined(all, last, "\n"@);
        lemma_encoded(joined(all, "\n"@) + "\n"@, last);
        lemma_encoded(joined(all, "\n"@), "\n"@);
    }
    if uris.len() > 0 {
        law_joined(uris, uri, "\n"@);
        lemma_encoded(joined(uris, "\n"@) + "\n"@, uri);
        lemma_encoded(joined(uris, "\n"@), "\n"@);
    }
}

} // verus!
