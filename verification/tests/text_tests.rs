use ganlib::text::{
    char_in_class, chars_of, contains_chars, contains_class, ends_with, find_first, matches_at,
    same_chars, slice_of, spells, split_chars, starts_with, string_of, trim_chars,
    trim_end_chars, CharClass,
};

fn chars(s: &str) -> Vec<char> {
    s.chars().collect()
}

fn text(v: &[char]) -> String {
    v.iter().collect()
}

#[test]
fn whitespace_is_what_the_standard_library_calls_whitespace() {
    let mut count = 0;
    for code in 0u32..=0x10FFFF {
        if let Some(c) = char::from_u32(code) {
            assert_eq!(char_in_class(c, CharClass::Whitespace), c.is_whitespace(), "{:x}", code);
            if c.is_whitespace() {
                count += 1;
            }
        }
    }
    assert_eq!(count, 25);
    assert!(char_in_class('\t', CharClass::Tab));
    assert!(!char_in_class(' ', CharClass::Tab));
    assert!(char_in_class(';', CharClass::Semicolon));
    assert!(char_in_class('=', CharClass::Equals));
    assert!(char_in_class('"', CharClass::Quote));
    assert!(!char_in_class('\'', CharClass::Quote));
}

#[test]
fn strings_and_characters_convert_both_ways() {
    for s in ["", "a", "chr1\tx", "日本語 ä\u{2003}"] {
        let v = chars_of(s);
        assert_eq!(v, chars(s));
        assert_eq!(string_of(&v), s);
        assert!(spells(&v, s));
        assert!(!spells(&v, "other"));
        assert!(same_chars(&v, &chars(s)));
    }
    assert!(!same_chars(&chars("ab"), &chars("ac")));
    assert!(!same_chars(&chars("ab"), &chars("abc")));
    assert_eq!(slice_of(&chars("abcdef"), 2, 4), chars("cd"));
    assert_eq!(slice_of(&chars("abcdef"), 3, 3), chars(""));
}

#[test]
fn splitting_follows_the_standard_library() {
    let samples = ["", ";", "a;b;c", ";a;;b;", "no separator", "a;b;", ";;;"];
    for s in samples {
        let parts: Vec<String> =
            split_chars(&chars(s), CharClass::Semicolon).iter().map(|p| text(p)).collect();
        let want: Vec<String> = s.split(';').map(|p| p.to_string()).collect();
        assert_eq!(parts, want, "{:?}", s);
    }
    let columns = split_chars(&chars("a\tb\t\tc"), CharClass::Tab);
    assert_eq!(columns.len(), 4);
    assert_eq!(text(&columns[2]), "");
}

#[test]
fn trimming_follows_the_standard_library() {
    let samples = ["", "   ", " a b ", "\t\u{a0}x\u{3000}\n", "x", "  x", "x  ", "\r\n"];
    for s in samples {
        assert_eq!(text(&trim_chars(&chars(s), CharClass::Whitespace)), s.trim(), "{:?}", s);
    }
    for s in ["\"v\"", "\"\"v\"\"", "v", "\"", "\"a\"b\"", ""] {
        assert_eq!(text(&trim_chars(&chars(s), CharClass::Quote)), s.trim_matches('"'));
    }
    for s in ["a;b;;", ";", "a", "", ";a"] {
        assert_eq!(
            text(&trim_end_chars(&chars(s), CharClass::Semicolon)),
            s.trim_end_matches(';')
        );
    }
}

#[test]
fn searching_follows_the_standard_library() {
    let hay = "gene_id \"g1\"; note \"x\"";
    let v = chars(hay);
    for pat in ["", "g", "gene_id", " \"", "\"", "x\"", "zz", hay, "gene_id \"g1\"; note \"x\"!"] {
        let p = chars(pat);
        assert_eq!(starts_with(&v, &p), hay.starts_with(pat), "{:?}", pat);
        assert_eq!(ends_with(&v, &p), hay.ends_with(pat), "{:?}", pat);
        assert_eq!(contains_chars(&v, &p), hay.contains(pat), "{:?}", pat);
    }
    assert!(contains_chars(&chars(""), &chars("")));
    assert!(!contains_chars(&chars(""), &chars("a")));
    assert!(matches_at(&v, 8, &chars("\"g1\"")));
    assert!(!matches_at(&v, 9, &chars("\"g1\"")));
    assert!(!matches_at(&v, 100, &chars("")));
    assert!(matches_at(&v, v.len(), &chars("")));
    assert_eq!(find_first(&v, 0, CharClass::Whitespace), 7);
    assert_eq!(find_first(&v, 8, CharClass::Whitespace), 13);
    assert_eq!(find_first(&v, 0, CharClass::Equals), v.len());
    assert_eq!(find_first(&v, v.len(), CharClass::Quote), v.len());
    assert!(contains_class(&v, CharClass::Quote));
    assert!(!contains_class(&v, CharClass::Equals));
}
