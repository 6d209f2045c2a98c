use std::cmp::Ordering;

use aw_man::filenames::{bytes_of, shown_name, text_of, typed_name};
use aw_man::natsort::{key, order_names, order_plain, sorted_places};

fn compare(a: &str, b: &str) -> Ordering {
    let a = key(a.as_bytes());
    let b = key(b.as_bytes());
    println!("{a:?}, {b:?}, {:?}", a.cmp(&b));
    a.cmp(&b)
}

fn eq(a: &str, b: &str) {
    assert_eq!(compare(a, b), Ordering::Equal)
}

fn lt(a: &str, b: &str) {
    assert_eq!(compare(a, b), Ordering::Less);
    assert_eq!(compare(b, a), Ordering::Greater);
}

#[test]
fn no_numbers() {
    eq("a", "a");
    lt("a", "b");
    lt("abc", "abcd");
    lt("abc", "abd");
    lt("ABC", "abd");
    lt("aBC", "Abd");
    lt("aBc", "AbD");
    lt("", "ABC");
}

#[test]
fn case_change() {
    lt("A", "a");
    lt("ABC", "abc");
}

#[test]
fn only_numbers() {
    eq("17", "17");
    lt("16", "16.5");
    lt("4", "5");
    lt("16.7", "17");
}

#[test]
fn combined() {
    eq("abc 10 abc 20", "abc 10 abc 20");
    lt("abc 10 abc 16", "abc 10 abc 16.5");
    lt("abc 10 abc 18", "abc 10 abd 17");
}

#[test]
fn int_fail_case() {
    // This case fails when integer based tokenization is used.
    lt("16:", "16.5:");
}

#[test]
fn octal_parse() {
    // We should be treating everything as decimal
    lt("12", "013");
    // The tie should be broken in this order since 0 < [1-9].
    lt("05", "5");
    lt("012", "12");
    lt("09", "9");
}

#[test]
fn sort_order() {
    lt("0a1f935e99.jpg", "01_2.jpg");
    lt("0a1f935e99.jpg", "bmidtl.jpg");
    lt("abcd", "abcd01");
}

#[test]
fn unicode() {
    // Kelvin sign
    lt("J", "K");
    lt("K", "K");
    lt("K", "L");
    lt("あ", "い");
    lt("あ", "雨");
    // Would require Mecab to sort these properly
    // lt("雨", "い");
    // lt("い", "ア");
    // lt("あ", "ア");
}

#[test]
fn sort_no_number_before_number() {
    lt("m.png", "m2.png")
}

#[test]
fn sort_chapters() {
    lt("ch 100.zip", "ch 100.5.zip")
}

#[test]
fn example_files() {
    // From http://davekoelle.com/alphanum.html plus some additions
    let unsorted = vec![
        "z1.doc",
        "z10.doc",
        "z100.5.doc",
        "z100.eoc",
        "z101.doc",
        "z102.doc",
        "z11.doc",
        "z12.doc",
        "z13.doc",
        "z14.doc",
        "z15.doc",
        "z16.doc",
        "z17.doc",
        "z18.doc",
        "z19.DOC",
        "z2.doc",
        "Z20.doc",
        "a3.doc",
        "z4.doc",
        "z4.5.doc",
        "z4.3.doc",
        "z4.75.doc",
        "z4.7.doc",
        "Z5.doc",
        "B6.DOC",
        "z7.doc",
        "c8.doc",
        "z9.doc",
    ];

    let sorted = vec![
        "a3.doc",
        "B6.DOC",
        "c8.doc",
        "z1.doc",
        "z2.doc",
        "z4.doc",
        "z4.3.doc",
        "z4.5.doc",
        "z4.7.doc",
        "z4.75.doc",
        "Z5.doc",
        "z7.doc",
        "z9.doc",
        "z10.doc",
        "z11.doc",
        "z12.doc",
        "z13.doc",
        "z14.doc",
        "z15.doc",
        "z16.doc",
        "z17.doc",
        "z18.doc",
        "z19.DOC",
        "Z20.doc",
        "z100.eoc",
        "z100.5.doc",
        "z101.doc",
        "z102.doc",
    ];

    let keys = unsorted.iter().map(|s| key(s.as_bytes())).collect();
    let in_order: Vec<&str> = sorted_places(&keys).into_iter().map(|i| unsorted[i]).collect();
    assert_eq!(in_order, sorted);
}

#[test]
fn numbers_count_by_value() {
    lt("a9b", "a010b");
    lt("a2.25", "a2.5");
    lt("page 900000000000000000000 x", "page 1000000000000000000000 x");
    lt("a0.000001z", "a1a");
}

#[test]
fn numbers_end_where_they_do() {
    lt("\u{7b2c}2\u{8a71}", "\u{7b2c}10\u{8a71}");
    lt("CHAPTER 9", "chapter 10");
    // A full stop that no digit follows belongs to what comes after the number.
    lt("v1.a", "v1.5");
    lt("v1..5", "v1.5");
    // Digits beyond ASCII are found, but not read as numbers.
    lt("a\u{663}", "a\u{664}");
    lt("a\u{662}1", "a\u{662}2");
}

#[test]
fn names_need_not_be_text() {
    let name = b"a\xff2.png";
    let k = key(name);
    assert_eq!(k.cmp(&key(b"a\xff2.png")), Ordering::Equal);
    assert_eq!(k.cmp(&key(b"a\xff10.png")), Ordering::Less);
    // What looks the same is told apart by its bytes.
    assert_eq!(k.cmp(&key(b"a\xfe2.png")), Ordering::Greater);
    assert_eq!(k.cmp(&key("a\u{fffd}2.png".as_bytes())), Ordering::Greater);
    assert_eq!(k.into_original(), name);
    assert_eq!(key(b"ABC\x80").into_original(), b"ABC\x80");
}

#[test]
fn bytes_of_names_come_back() {
    let names: Vec<Vec<u8>> = vec![
        b"".to_vec(),
        b"plain".to_vec(),
        "\u{e9}\u{20ac}\u{1f600}".as_bytes().to_vec(),
        b"\xc3".to_vec(),
        b"\xc3/\xa9".to_vec(),
        b"\xe2\x82x\xf0\x9f\x98".to_vec(),
        b"\xed\xa0\x80\xc0\xaf\xff".to_vec(),
        "\u{10ff80}\u{10ffff}".as_bytes().to_vec(),
    ];
    for n in names {
        assert_eq!(bytes_of(&text_of(&n)), n);
        assert_eq!(shown_name(&text_of(&n)), String::from_utf8_lossy(&n));
    }
    assert_eq!(text_of("\u{e9}.png".as_bytes()), "\u{e9}.png");
    assert_eq!(text_of(b"\xff.png"), "\u{10ffff}.png");
    assert_eq!(shown_name("\u{10ffff}.png"), "\u{fffd}.png");
    assert_eq!(typed_name("\u{e9}"), "\u{e9}");
    assert_eq!(bytes_of(&typed_name("\u{10ffff}")), "\u{10ffff}".as_bytes());
    let joined = [b"a\xe2".to_vec(), b"/".to_vec(), b"\x82\xac".to_vec()].concat();
    assert_eq!(text_of(&joined), text_of(b"a\xe2") + "/" + &text_of(b"\x82\xac"));
}

#[test]
fn names_and_texts_are_put_in_order() {
    let names: Vec<String> = ["b", "a10", "a9"].iter().map(|s| s.to_string()).collect();
    assert_eq!(order_names(&names), vec![2, 1, 0]);
    assert_eq!(order_plain(&names), vec![2, 1, 0]);
}

#[test]
fn names_fall_into_parts() {
    let parts = |s: &str| {
        let k = format!("{:?}", key(s.as_bytes()));
        (k.matches("Seg(").count(), k.matches("Last(").count())
    };
    assert_eq!(parts(""), (0, 1));
    assert_eq!(parts("abc"), (0, 1));
    assert_eq!(parts("a1.5.6b.c7."), (6, 1));
    assert_eq!(parts("1.2.3.4"), (3, 1));
    assert_eq!(parts("\u{663}.\u{664}x"), (1, 1));
    assert!(format!("{:?}", key(b"a1.b")).contains("Last(\"b\")"));
    assert!(format!("{:?}", key(b"A12")).contains("Seg(\"a\", "));
}

#[test]
fn other_letters_lose_their_case_too() {
    lt("\u{c9}TUDE 9", "\u{e9}tude 10");
    lt("\u{413}\u{43b}\u{430}\u{432}\u{430} 2.5", "\u{433}\u{43b}\u{430}\u{432}\u{430} 10");
    // One letter that becomes two.
    lt("\u{130}2", "\u{130}10");
    lt("\u{39f}\u{3a3} 2", "\u{3bf}\u{3c2} 10");
}
