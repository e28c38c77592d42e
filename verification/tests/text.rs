use kennel::decimal::{dec_text, padded_text, parse_i64, parse_max, parse_u16, parse_u64, signed_text};
use kennel::layout::{left_text, right_text};
use kennel::order::{ascending_texts, gather, precedes, ranking};
use kennel::path::{
    components_of, file_name, has_any_extension, has_extension, is_absolute, is_under, join, parent,
    stem, strip_base,
};
use kennel::text::{
    char_width, chars_of, find_text, has_no_white, has_piece, is_control, is_whitespace,
    size_of_text, strip_prefix, strip_suffix,
};
use kennel::wire::{push_be16, push_le, read_be16, read_le};
use kennel::words::{join as join_words, lines_of, split_on, split_once, trim_start, trimmed, words_of};

fn owned(v: &[&str]) -> Vec<String> {
    v.iter().map(|s| (*s).to_owned()).collect()
}

#[test]
fn white_space_is_what_the_language_says() {
    for c in (0..=0x0010_ffffu32).filter_map(char::from_u32) {
        assert_eq!(is_whitespace(c), c.is_whitespace(), "{:#x}", u32::from(c));
        assert_eq!(is_control(c), c.is_control(), "{:#x}", u32::from(c));
        assert_eq!(char_width(c), c.len_utf8(), "{:#x}", u32::from(c));
    }
}

#[test]
fn texts_are_trimmed_and_split() {
    assert_eq!(trimmed("\u{2003} a b \n"), " a b".trim());
    assert_eq!(trim_start("  a "), "a ");
    assert_eq!(split_on("a,b,,c", ','), owned(&["a", "b", "", "c"]));
    assert_eq!(split_once("a=b=c", '='), Some(("a", "b=c")));
    assert_eq!(split_once("abc", '='), None);
    for s in ["", "a", "a\n", "a\r\nb", "\n\n", "a\rb", "a\r"] {
        assert_eq!(lines_of(s), s.lines().map(str::to_owned).collect::<Vec<_>>(), "{s:?}");
        assert_eq!(words_of(s), s.split_whitespace().map(str::to_owned).collect::<Vec<_>>());
    }
    assert_eq!(join_words(&split_on("a,b,,c", ','), ","), "a,b,,c");
    assert_eq!(strip_prefix("--x", "--"), Some("x"));
    assert_eq!(strip_suffix("a.pub", ".pub"), Some("a"));
    assert_eq!(strip_suffix("a.pub", ".key"), None);
    assert_eq!(find_text(&chars_of("abcabc"), &chars_of("ca")), Some(2));
    assert!(has_piece("a..b", "..") && !has_piece("a.b", ".."));
    assert!(has_no_white("a\u{ad}b") && !has_no_white("a\u{a0}b"));
    assert_eq!(size_of_text("a\u{e9}\u{20ac}\u{1f600}"), 10);
}

#[test]
fn numbers_read_back() {
    for n in [0u64, 9, 10, 255, 65_535, 65_536, u64::MAX] {
        assert_eq!(dec_text(n), n.to_string());
        assert_eq!(parse_u64(&n.to_string()), Some(n));
        assert_eq!(parse_u16(&n.to_string()), u16::try_from(n).ok());
    }
    for n in [i64::MIN, -1, 0, 1, i64::MAX] {
        assert_eq!(signed_text(n), n.to_string());
        assert_eq!(parse_i64(&n.to_string()), Some(n));
    }
    for s in ["", "+", "-", "+5", "-5", "5 ", "18446744073709551616", "\u{663}"] {
        assert_eq!(parse_u64(s), s.parse::<u64>().ok(), "{s:?}");
        assert_eq!(parse_i64(s), s.parse::<i64>().ok(), "{s:?}");
        assert_eq!(parse_u16(s), s.parse::<u16>().ok(), "{s:?}");
    }
    assert_eq!(padded_text(7, 3), "007");
    assert_eq!(padded_text(1234, 3), "1234");
    assert_eq!(parse_max("99", 98), None);
    assert_eq!(left_text("ab", 4), "ab  ");
    assert_eq!(right_text("ab", 4), "  ab");
    assert_eq!(left_text("abcde", 4), "abcde");
}

#[test]
fn paths_are_taken_apart() {
    assert!(is_absolute("/a") && !is_absolute("a"));
    for (a, b) in [("/a", "b"), ("/a/", "b"), ("/a", "/b"), ("", "b"), ("a", "")] {
        assert_eq!(join(a, b), std::path::Path::new(a).join(b).to_string_lossy());
    }
    for p in ["/a/b.toml", "a/..", "/", "", "a/.", "/a//b/", ".x", "a.b.c", ".."] {
        let path = std::path::Path::new(p);
        let name = path.file_name().map(|n| n.to_string_lossy().into_owned());
        assert_eq!(file_name(p), name, "{p}");
        if let Some(n) = name {
            assert_eq!(Some(stem(&n)), path.file_stem().map(|s| s.to_string_lossy().into_owned()), "{p}");
            assert_eq!(has_extension(&n, "toml"), path.extension().is_some_and(|e| e == "toml"), "{p}");
            assert_eq!(has_any_extension(&n), path.extension().is_some(), "{p}");
        }
    }
    assert_eq!(components_of("/a/./b//c"), owned(&["a", "b", "c"]));
    let bases = ["", "/", ".", "./", "/a", "/a/", "/a/./b", "a", "./a", "a/b", "..", "/a/b/c"];
    let paths = [
        "", "/", ".", "/a", "/a/b", "/a//b/./c//d/", "/a/b/.", "a/b//c", "./a/b", "./", "a", "../x", "/ab",
    ];
    for s in paths {
        let path = std::path::Path::new(s);
        let over = path.parent().map(|p| p.to_string_lossy().into_owned());
        assert_eq!(parent(s), over, "{s}");
        for base in bases {
            let rest = path.strip_prefix(base).ok().map(|p| p.to_string_lossy().into_owned());
            assert_eq!(strip_base(s, base), rest, "{s} below {base}");
        }
    }
    assert!(is_under("/etc/kennel/x", "/etc/kennel") && !is_under("/etc/kennelx", "/etc/kennel"));
}

#[test]
fn texts_are_ordered_as_strings_are() {
    let v = owned(&["b", "", "\u{e9}", "ab", "a", "z", "a"]);
    let mut w = v.clone();
    w.sort();
    assert_eq!(gather(&v, &ranking(&v)), w);
    w.dedup();
    assert_eq!(ascending_texts(&v), w);
    assert!(precedes("a", "ab") && !precedes("a", "a"));
    assert_eq!(ranking(&[3u16, 1, 3, 2]), vec![1, 3, 0, 2]);
}

#[test]
fn integers_go_over_the_wire() {
    let mut out = Vec::new();
    push_le(&mut out, 0x0102_0304, 4);
    assert_eq!(out, 0x0102_0304u32.to_le_bytes());
    assert_eq!(read_le(&out, 0, 4), 0x0102_0304);
    assert_eq!(read_le(&out, 1, 2), 0x0203);
    let mut out = Vec::new();
    push_be16(&mut out, 0x0102);
    assert_eq!(out, [1, 2]);
    assert_eq!(read_be16(out[0], out[1]), 0x0102);
}
