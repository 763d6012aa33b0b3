use clowder::path;
use clowder::text;
use std::path::Path;

/// Every text over the letters, up to a length.
fn every(letters: &[char], length: usize) -> Vec<String> {
    let mut all = vec![String::new()];
    let mut from = 0;
    for _ in 0..length {
        let to = all.len();
        for i in from..to {
            for c in letters {
                all.push(format!("{}{c}", all[i]));
            }
        }
        from = to;
    }
    all
}

#[test]
fn white_space_is_what_unicode_calls_so() {
    for n in 0..=0x10ffffu32 {
        if let Some(c) = char::from_u32(n) {
            assert_eq!(text::white(c), c.is_whitespace(), "{n:x}");
        }
    }
}

#[test]
fn text_is_trimmed_and_split_as_std_does() {
    for s in every(&['a', ' ', '\n', '\u{a0}', '/'], 5) {
        assert_eq!(text::trim(&s), s.trim());
        assert_eq!(text::trim_left(&s), s.trim_start());
        assert_eq!(text::trim_right(&s), s.trim_end());
        assert_eq!(text::split(&s, '/'), s.split('/').collect::<Vec<_>>());
        assert_eq!(text::split_words(&s), s.split_whitespace().collect::<Vec<_>>());
        assert_eq!(text::join(&text::split(&s, 'a'), "a"), s);
        assert_eq!(text::text_of(&text::chars_of(&s)), s);
    }
}

#[test]
fn text_is_searched_as_std_does() {
    let all = every(&['a', 'b'], 5);
    let short = every(&['a', 'b'], 3);
    for s in &all {
        for p in &short {
            assert_eq!(text::holds(s, p), s.contains(p.as_str()));
            assert_eq!(text::begins(s, p), s.starts_with(p.as_str()));
            assert_eq!(text::ends(s, p), s.ends_with(p.as_str()));
            assert_eq!(text::strip_prefix(s, p).as_deref(), s.strip_prefix(p.as_str()));
            assert_eq!(text::before(s, p), s < p);
            assert_eq!(text::same(s, p), s == p);
        }
    }
    assert!(text::before("Z", "a") && text::before("a", "\u{e9}"));
}

#[test]
fn numbers_are_shown_and_read_as_std_does() {
    for n in [0u64, 1, 9, 10, 255, 65535, 65536, u64::MAX - 1, u64::MAX] {
        assert_eq!(text::show(n as u128), n.to_string());
    }
    assert_eq!(text::show(u128::MAX), u128::MAX.to_string());
    let mut all = every(&['0', '1', '9', '+', '-', ' '], 4);
    for s in ["65535", "65536", "18446744073709551615", "18446744073709551616", "000000000000000000000001"] {
        all.push(s.to_string());
        all.push(format!("+{s}"));
    }
    for s in all {
        assert_eq!(text::parse_up_to(&s, u64::MAX), s.parse::<u64>().ok(), "{s:?}");
        assert_eq!(text::parse_up_to(&s, 65535), s.parse::<u16>().ok().map(u64::from), "{s:?}");
    }
}

#[test]
fn only_ascii_letters_are_made_small() {
    for s in ["", "ABC xyz 09", "\u{c9}cole", "K\u{212a}"] {
        assert_eq!(text::lower_ascii(s), s.to_ascii_lowercase());
    }
}

fn shown(p: &Path) -> String {
    p.to_string_lossy().into_owned()
}

#[test]
fn paths_are_taken_apart_as_std_does() {
    for s in every(&['/', '.', 'a'], 7) {
        let p = Path::new(&s);
        assert_eq!(path::absolute(&s), p.is_absolute(), "{s:?}");
        let name = p.file_name().map(|n| n.to_string_lossy().into_owned());
        assert_eq!(path::file_name(&s), name, "{s:?}");
        assert_eq!(path::parent(&s), p.parent().map(shown), "{s:?}");
    }
}

#[test]
fn paths_are_put_together_and_compared_as_std_does() {
    let all = every(&['/', '.', 'a', '-'], 4);
    for a in &all {
        let p = Path::new(a);
        for b in &all {
            let q = Path::new(b);
            assert_eq!(path::join(a, b), shown(&p.join(q)), "{a:?} {b:?}");
            assert_eq!(path::within(a, b), p.starts_with(q), "{a:?} {b:?}");
            assert_eq!(path::same_path(a, b), p == q, "{a:?} {b:?}");
            assert_eq!(path::path_before(a, b), p < q, "{a:?} {b:?}");
        }
    }
}

#[test]
fn what_is_seen_from_a_directory_stands_in_it() {
    for dir in ["/", "/a", "/a/", "a/b", "."] {
        for name in ["x", "x/y", "./x", "x/"] {
            assert!(path::within(&path::join(dir, name), dir), "{dir} {name}");
        }
    }
}
