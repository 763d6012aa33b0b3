use clowder::vt::events::VtEvent;
use clowder::vt::prompt::{is_blocking_prompt, looks_like_prompt};
use clowder::vt::screen::{AttentionSignal, Screen};

#[test]
fn matches_interactive_prompts() {
    for line in [
        "Continue? (y/n)",
        "Overwrite? [Y/n] ",
        "Proceed (yes/no)?",
        "Delete everything? [y/N]:",
        "Password:",
        "Enter passphrase for key '/x':",
        "[sudo] password for alice:",
        "Press ENTER to continue",
        "Press any key to continue . . .",
        "--More--",
        "lines 1-10 (END)",
        "? Select an option",
        ">>> ",
        "In [12]:",
    ] {
        assert!(is_blocking_prompt(line), "should match: {line:?}");
    }
}

#[test]
fn rejects_shell_prompts_and_text() {
    for line in [
        "$ ",
        "user@host:~/proj$ ",
        "% ",
        "# ",
        "❯ ",
        "> ",
        "building project...",
        "error: something failed",
        "",
    ] {
        assert!(!is_blocking_prompt(line), "should NOT match: {line:?}");
    }
}

#[test]
fn a_prompt_is_matched_in_lower_case() {
    assert!(is_blocking_prompt("PASSWORD:"));
    assert!(looks_like_prompt("PASSWORD:", "password:"));
    assert!(!looks_like_prompt("PASSWORD:", "PASSWORD:"));
}

#[test]
fn print_places_glyphs_and_advances_cursor() {
    let mut s = Screen::new(10, 3);
    assert!(s.feed(b"hi").is_empty());
    assert_eq!(s.line(0), "hi");
    assert_eq!(s.cursor(), (2, 0));
}

#[test]
fn autowrap_moves_to_next_row() {
    let mut s = Screen::new(3, 2);
    s.feed(b"abcd");
    assert_eq!(s.line(0), "abc");
    assert_eq!(s.line(1), "d");
    assert_eq!(s.cursor(), (1, 1));
}

#[test]
fn wide_char_occupies_two_cells() {
    let mut s = Screen::new(4, 1);
    s.feed("世".as_bytes());
    assert_eq!(s.line(0), "世");
    assert_eq!(s.cursor(), (2, 0));
}

#[test]
fn autowrap_on_last_row_scrolls() {
    let mut s = Screen::new(2, 2);
    s.feed(b"aabb");
    s.feed(b"cc");
    assert_eq!(s.line(0), "bb");
    assert_eq!(s.line(1), "cc");
}

#[test]
fn cr_returns_to_col0_and_overwrites() {
    let mut s = Screen::new(10, 1);
    s.feed(b"hello\rH");
    assert_eq!(s.line(0), "Hello");
    assert_eq!(s.cursor(), (1, 0));
}

#[test]
fn lf_at_bottom_scrolls() {
    let mut s = Screen::new(4, 2);
    s.feed(b"top\r\nbot\r\nnew");
    assert_eq!(s.line(0), "bot");
    assert_eq!(s.line(1), "new");
}

#[test]
fn backspace_and_tab_move_cursor() {
    let mut s = Screen::new(20, 1);
    s.feed(b"ab\x08");
    assert_eq!(s.cursor(), (1, 0));
    let mut s2 = Screen::new(20, 1);
    s2.feed(b"\t");
    assert_eq!(s2.cursor(), (8, 0));
}

#[test]
fn cup_positions_cursor_1_based() {
    let mut s = Screen::new(10, 5);
    s.feed(b"\x1b[3;5H");
    assert_eq!(s.cursor(), (4, 2));
}

#[test]
fn erase_line_and_display() {
    let mut s = Screen::new(6, 2);
    s.feed(b"abcdef\r\nghijkl");
    s.feed(b"\x1b[H");
    s.feed(b"\x1b[2K");
    assert_eq!(s.line(0), "");
    assert_eq!(s.line(1), "ghijkl");
    s.feed(b"\x1b[2J");
    assert_eq!(s.line(1), "");
}

#[test]
fn reverse_index_at_top_scrolls_down() {
    let mut s = Screen::new(4, 2);
    s.feed(b"aa\r\nbb");
    s.feed(b"\x1b[H");
    s.feed(b"\x1bM");
    assert_eq!(s.line(0), "");
    assert_eq!(s.line(1), "aa");
}

#[test]
fn huge_cursor_moves_do_not_panic() {
    let mut s = Screen::new(10, 5);
    s.feed(b"\x1b[65535C\x1b[65535B\x1b[65535A\x1b[65535D");
    let (cx, cy) = s.cursor();
    assert!(cx <= 9 && cy <= 4);
    s.feed(b"\x1b[65535C\t");
    let (cx, _) = s.cursor();
    assert!(cx <= 9);
}

#[test]
fn printing_at_a_pathological_pane_width_does_not_panic() {
    let mut s = Screen::new(10, 2);
    s.resize(u16::MAX, 1);
    s.feed(b"\x1b[65534G");
    s.feed("A世B".as_bytes());
    assert!(s.cursor().0 <= u16::MAX);
}

#[test]
fn alt_screen_enter_clears_and_flags() {
    let mut s = Screen::new(10, 2);
    s.feed(b"normal");
    assert!(!s.is_alt_screen());
    s.feed(b"\x1b[?1049h");
    assert!(s.is_alt_screen());
    assert_eq!(s.line(0), "");
    s.feed(b"\x1b[?1049l");
    assert!(!s.is_alt_screen());
    assert_eq!(s.line(0), "");
}

#[test]
fn resize_reallocates_and_clamps_cursor() {
    let mut s = Screen::new(10, 4);
    s.feed(b"\x1b[4;9H");
    s.resize(5, 2);
    let (cx, cy) = s.cursor();
    assert!(cx <= 4 && cy <= 1);
    assert_eq!(s.line(0), "");
}

#[test]
fn last_nonempty_line_and_snapshot() {
    let mut s = Screen::new(8, 3);
    s.feed(b"first\r\n\r\n");
    assert_eq!(s.last_nonempty_line(), "first");
    assert_eq!(s.snapshot(), vec!["first".to_string(), String::new(), String::new()]);
}

#[test]
fn bell_is_a_signal_and_not_printed() {
    let mut s = Screen::new(10, 1);
    assert_eq!(s.feed(b"a\x07b"), vec![AttentionSignal::Bell]);
    assert_eq!(s.line(0), "ab");
}

#[test]
fn osc9_and_osc777_notify() {
    let mut s = Screen::new(10, 1);
    assert_eq!(
        s.feed(b"\x1b]9;hello\x07"),
        vec![AttentionSignal::Notify { title: String::new(), body: "hello".into() }]
    );
    let mut s2 = Screen::new(10, 1);
    assert_eq!(
        s2.feed(b"\x1b]777;notify;Title;Body\x1b\\"),
        vec![AttentionSignal::Notify { title: "Title".into(), body: "Body".into() }]
    );
}

#[test]
fn title_osc_is_ignored_by_screen() {
    let mut s = Screen::new(20, 1);
    assert_eq!(s.feed(b"\x1b]0;my window title\x07"), vec![]);
}

#[test]
fn a_notification_that_is_no_utf8_is_marked() {
    let mut s = Screen::new(10, 1);
    assert_eq!(
        s.feed(b"\x1b]9;a\xffb\x07"),
        vec![AttentionSignal::Notify { title: String::new(), body: "a\u{fffd}b".into() }]
    );
}

#[test]
fn output_may_come_in_pieces() {
    let mut whole = Screen::new(12, 2);
    whole.feed("ab\x1b[2;3Hx世".as_bytes());
    let mut pieces = Screen::new(12, 2);
    for b in "ab\x1b[2;3Hx世".as_bytes() {
        pieces.feed(&[*b]);
    }
    assert_eq!(whole.snapshot(), pieces.snapshot());
    assert_eq!(whole.cursor(), pieces.cursor());
}

#[test]
fn a_partial_erase_keeps_the_rest_of_the_row() {
    let mut s = Screen::new(6, 3);
    s.feed(b"abcdef\x1b[1;4H\x1b[1K");
    assert_eq!(s.line(0), "    ef");
    s.feed(b"\x1b[1;6H\x1b[K");
    assert_eq!(s.line(0), "    e");
    s.feed(b"\x1b[2;1Hsecond\x1b[3;1Hthird\x1b[2;1H\x1b[1J");
    assert_eq!(s.line(0), "");
    assert_eq!(s.line(1), " econd");
    s.feed(b"\x1b[J");
    assert_eq!(s.snapshot(), vec!["", "", ""]);
}

#[test]
fn events_move_the_cursor_as_output_does() {
    let mut s = Screen::new(8, 2);
    assert_eq!(s.apply(&VtEvent::Print('z')), None);
    assert_eq!(s.apply(&VtEvent::Execute(7)), Some(AttentionSignal::Bell));
    let csi = VtEvent::Csi { params: vec![vec![2], vec![5]], intermediates: vec![], action: 'f' };
    assert_eq!(s.apply_all(&[csi, VtEvent::Esc(b'E')]), vec![]);
    assert_eq!(s.cursor(), (0, 1));
    assert_eq!(s.line(0), "");
    assert_eq!(s.line(9), "");
}

#[test]
fn white_space_around_a_line_is_of_no_account() {
    for line in ["Continue? (y/n)", "no prompt", "? pick", "", "\u{3000}"] {
        let padded = format!(" \t{line}\u{a0} ");
        assert_eq!(is_blocking_prompt(&padded), is_blocking_prompt(line), "{line:?}");
    }
    assert!(!is_blocking_prompt(" \t \u{2003}"));
}

#[test]
fn the_case_of_a_line_is_of_no_account() {
    for line in ["Continue? (y/n)", "Password:", "press any key", "In [3]:", "Building..."] {
        let seen = is_blocking_prompt(line);
        assert_eq!(is_blocking_prompt(&line.to_ascii_uppercase()), seen, "{line}");
        assert_eq!(is_blocking_prompt(&line.to_ascii_lowercase()), seen, "{line}");
    }
    assert!(is_blocking_prompt("--More--") && !is_blocking_prompt("--MORE--"));
}

#[test]
fn no_bytes_ask_for_nothing() {
    let mut s = Screen::new(10, 2);
    assert_eq!(s.feed(b"ab\x07\xe4").len(), 1);
    let (cursor, lines) = (s.cursor(), s.snapshot());
    assert!(s.feed(b"").is_empty());
    assert!(s.feed(b"").is_empty());
    assert_eq!((s.cursor(), s.snapshot()), (cursor, lines));
    s.feed(b"\xbd\xa0");
    assert_eq!(s.line(0), "ab\u{4f60}");
}

#[test]
fn the_cursor_stays_on_a_wide_enough_screen() {
    for cols in 3u16..9 {
        let mut s = Screen::new(cols, 3);
        for _ in 0..20 {
            s.feed("a\u{4f60}\u{17d8}\x1b[99C\t".as_bytes());
            assert!(s.cursor().0 <= cols && s.cursor().1 < 3);
        }
    }
    let mut narrow = Screen::new(1, 1);
    narrow.feed("\u{4f60}".as_bytes());
    assert_eq!(narrow.cursor(), (2, 0));
}

#[test]
fn characters_take_one_two_three_columns_or_none() {
    for (text, at) in [("~", 1), ("\u{4f60}", 2), ("\u{17d8}", 3), ("\u{301}", 0), ("\u{85}", 0)] {
        let mut s = Screen::new(10, 1);
        s.feed(text.as_bytes());
        assert_eq!(s.cursor().0, at, "{text:?}");
    }
}
