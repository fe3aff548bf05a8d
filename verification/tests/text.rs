use binkflix::paths;
use binkflix::text;
use std::path::Path;

#[test]
fn characters_beyond_ascii() {
    assert!(text::white('\u{a0}') && text::white('\u{3000}') && !text::white('x'));
    assert!(text::letter('é') && text::letter('日') && !text::letter('٣'));
    assert!(text::alnum('٣') && !text::alnum('—'));
    assert!(text::upper('É') && !text::upper('é') && !text::upper('日'));
    assert_eq!(text::to_upper('é'), "É");
    assert_eq!(text::to_upper('ß'), "SS");
    assert_eq!(text::to_lower("ÉTÉ Σ"), "été σ");
    assert_eq!(text::to_lower("ΑΣ"), "ας");
    assert_eq!(text::to_ascii_lower("ÉTÉ A"), "ÉtÉ a".replace('t', "t"));
}

#[test]
fn texts_are_cut_and_joined() {
    assert_eq!(text::trim("\u{a0} a b \n"), "a b");
    assert_eq!(text::split("a,b,,c", ','), vec!["a", "b", "", "c"]);
    assert_eq!(text::lines("a\r\nb\n\nc"), vec!["a", "b", "", "c"]);
    assert_eq!(text::strip_prefix("seg-1", "seg-").as_deref(), Some("1"));
    assert_eq!(text::strip_suffix("a.m4s", ".mp4"), None);
    assert!(text::contains("abc", "bc") && text::contains("abc", ""));
    assert!(text::starts_with("abc", "ab") && text::ends_with("abc", "bc"));
    assert_eq!(text::replace_char("a.b.c", '.', ' '), "a b c");
    assert!(text::eq_ignore_ascii_case("AbC", "aBc") && !text::eq_ignore_ascii_case("é", "É"));
}

#[test]
fn numbers_are_written_and_read() {
    assert_eq!(text::i64_text(i64::MIN), "-9223372036854775808");
    assert_eq!(text::u64_text(0), "0");
    let mut s = String::new();
    text::push_i64_padded(&mut s, 7, 2);
    text::push_i64_padded(&mut s, 123, 2);
    text::push_i64_padded(&mut s, -7, 3);
    assert_eq!(s, format!("{:02}{:02}{:03}", 7, 123, -7));
    for s in ["0", "+5", "-0", "-9223372036854775808", "9223372036854775808", "", "+", "-", "1x", "٣"] {
        assert_eq!(text::parse_i64(s), s.parse::<i64>().ok(), "{s}");
        assert_eq!(text::parse_u32(s), s.parse::<u32>().ok(), "{s}");
        assert_eq!(text::parse_u64(s), s.parse::<u64>().ok(), "{s}");
    }
}

#[test]
fn texts_are_sorted_like_strings() {
    let v: Vec<String> =
        ["b", "", "ab", "é", "a", "Z", "日", "ab"].iter().map(|s| s.to_string()).collect();
    let mut want = v.clone();
    want.sort();
    assert_eq!(text::sort(&v), want);
    assert!(text::comes_before("a", "ab") && !text::comes_before("ab", "ab"));
}

#[test]
fn texts_are_cut_at_bytes() {
    assert_eq!(text::first_bytes("aé日", 3), "aé");
    assert_eq!(text::first_bytes("aé日", 2), "a");
    assert!(text::can_split("aé日", 3) && !text::can_split("aé日", 2) && text::can_split("aé", 9));
    assert!(text::is_wider("é", 1) && !text::is_wider("é", 2));
}

#[test]
fn paths_are_taken_apart() {
    for p in ["/a/b.tar.gz", "a", "/", "", "a/", "/a/./b", "..", "a/..", "/a//b/", ".hidden", "b.", "./x", "a/."] {
        let path = Path::new(p);
        assert_eq!(paths::file_name(p).as_deref(), path.file_name().and_then(|x| x.to_str()), "{p}");
        assert_eq!(paths::file_stem(p).as_deref(), path.file_stem().and_then(|x| x.to_str()), "{p}");
        assert_eq!(paths::extension(p).as_deref(), path.extension().and_then(|x| x.to_str()), "{p}");
        assert_eq!(paths::parent(p).as_deref(), path.parent().and_then(|x| x.to_str()), "{p}");
        assert_eq!(paths::with_extension(p, "nfo"), path.with_extension("nfo").to_str().unwrap(), "{p}");
        for q in ["x", "x/y", "/abs", ""] {
            assert_eq!(paths::join(p, q), path.join(q).to_str().unwrap(), "{p} {q}");
            assert_eq!(paths::is_same(p, q), path == Path::new(q), "{p} {q}");
        }
    }
    assert!(paths::is_same("/a//b/./c/", "/a/b/c"));
}
