use js_cgi::string_map::StringMap;
use js_cgi::text::{
    ends_with_char, find_char, parse_u16, parse_usize, replace_char, same_text, split, split_once,
    starts_with, trim, trim_start,
};

#[test]
fn every_character_is_white_space_or_not() {
    let ranges: [(u32, u32); 10] = [
        (0x09, 0x0d),
        (0x20, 0x20),
        (0x85, 0x85),
        (0xa0, 0xa0),
        (0x1680, 0x1680),
        (0x2000, 0x200a),
        (0x2028, 0x2029),
        (0x202f, 0x202f),
        (0x205f, 0x205f),
        (0x3000, 0x3000),
    ];
    for code in 0u32..=0x10ffff {
        if let Some(c) = char::from_u32(code) {
            let listed = ranges.iter().any(|(a, b)| *a <= code && code <= *b);
            assert_eq!(trim_start(&c.to_string()).is_empty(), listed, "{:x}", code);
        }
    }
}

#[test]
fn finding_a_character() {
    assert_eq!(find_char("añb=c=d", '='), Some(3));
    assert_eq!(find_char("abc", '='), None);
    assert_eq!(find_char("", '='), None);
    assert_eq!(find_char("=", '='), Some(0));
}

#[test]
fn splitting_once() {
    assert_eq!(split_once("a=b=c", '='), Some(("a", "b=c")));
    assert_eq!(split_once("=", '='), Some(("", "")));
    assert_eq!(split_once("héé:1", ':'), Some(("héé", "1")));
    assert_eq!(split_once("abc", '='), None);
    for s in ["", "a", "=", "a=", "=a", "a=b", "a==b", "é=ü=ß"] {
        assert_eq!(split_once(s, '='), s.split_once('='), "{:?}", s);
    }
}

#[test]
fn splitting_and_joining() {
    assert_eq!(split("a;b;;c", ';'), vec!["a", "b", "", "c"]);
    assert_eq!(split("", ';'), vec![""]);
    for s in ["", ";", "a", "a;", ";a", "a;b", "é;;ü;"] {
        let pieces = split(s, ';');
        assert_eq!(pieces, s.split(';').collect::<Vec<_>>());
        assert_eq!(pieces.join(";"), s);
    }
}

#[test]
fn beginnings_and_ends() {
    assert!(starts_with("<!doctype server>x", "<!doctype server>"));
    assert!(starts_with("abc", ""));
    assert!(starts_with("é", "é"));
    assert!(!starts_with("ab", "abc"));
    assert!(!starts_with("abd", "abc"));
    assert!(ends_with_char("a/", '/'));
    assert!(!ends_with_char("a", '/'));
    assert!(!ends_with_char("", '/'));
    assert!(same_text("https", "https"));
    assert!(!same_text("https", "http"));
}

#[test]
fn trimming() {
    assert_eq!(trim("  a b\t\n"), "a b");
    assert_eq!(trim("\u{3000}é\u{2028}"), "é");
    assert_eq!(trim(" \t "), "");
    assert_eq!(trim(""), "");
    assert_eq!(trim_start(" a "), "a ");
    assert_eq!(trim("\u{200b}a"), "\u{200b}a");
}

#[test]
fn replacing_a_character() {
    assert_eq!(replace_char("x-forwarded-proto", '-', "_"), "x_forwarded_proto");
    assert_eq!(replace_char("--", '-', "_"), "__");
    assert_eq!(replace_char("host", '-', "_"), "host");
    assert_eq!(replace_char("", '-', "_"), "");
}

#[test]
fn reading_numbers() {
    let samples = [
        "", "+", "-", "0", "7", "+7", "-7", "++7", "007", " 7", "7 ", "7a", "a7", "1_0", "65535",
        "65536", "65540", "18446744073709551615", "18446744073709551616", "99999999999999999999",
        "0000000000000000000000000000000042", "\u{0664}", "1.0", "7+",
    ];
    for s in samples {
        assert_eq!(parse_usize(s), s.parse::<usize>().ok(), "{:?}", s);
        assert_eq!(parse_u16(s), s.parse::<u16>().ok(), "{:?}", s);
    }
    assert_eq!(parse_u16("8080"), Some(8080));
}

#[test]
fn maps_give_back_what_was_put_in() {
    let mut m: StringMap<u8> = StringMap::new();
    assert_eq!(m.len(), 0);
    assert_eq!(m.get("a"), None);
    m.insert("a".to_string(), 1);
    m.insert("b".to_string(), 2);
    m.insert("a".to_string(), 3);
    assert_eq!(m.len(), 2);
    assert_eq!(m.get("a"), Some(&3));
    assert_eq!(m.get("b"), Some(&2));
    assert_eq!(m.get("c"), None);
    assert_eq!(m.entry(0), (&"a".to_string(), &3));
    assert_eq!(m.entry(1), (&"b".to_string(), &2));
    let copy = m.clone();
    m.insert("c".to_string(), 4);
    assert_eq!(copy.len(), 2);
    assert_eq!(copy.get("a"), Some(&3));
    assert_eq!(StringMap::<u8>::default().len(), 0);
}
