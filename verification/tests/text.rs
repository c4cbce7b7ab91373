use bar_tray::order::comes_before;
use bar_tray::text::{cut_line_end, split_words, trim};

#[test]
fn words_are_split_at_any_white_space() {
    assert_eq!(split_words(" rofi\t-dmenu \u{a0} -p\u{2003}Tray\n"), ["rofi", "-dmenu", "-p", "Tray"]);
    assert_eq!(split_words("dmenu"), ["dmenu"]);
    assert!(split_words("").is_empty());
    assert!(split_words(" \t\u{3000}\u{85}\u{1680} ").is_empty());
}

#[test]
fn words_agree_with_std() {
    for text in ["a b", "  é\u{2028}ß ", "x\u{200b}y", "\u{180e}q\u{202f}r\u{205f}", "越 \u{b}\u{c}z"] {
        let std_words: Vec<&str> = text.split_whitespace().collect();
        assert_eq!(split_words(text), std_words);
        assert_eq!(trim(text), text.trim());
    }
}

#[test]
fn words_put_together_are_the_text_without_white_space() {
    let text = " one  two\tthree ";
    assert_eq!(split_words(text).concat(), "onetwothree");
}

#[test]
fn exactly_these_characters_are_white_space() {
    let mut found: Vec<u32> = Vec::new();
    for n in 0..=0x10ffffu32 {
        if let Some(c) = char::from_u32(n) {
            if split_words(&format!("a{c}b")).len() == 2 {
                found.push(n);
            }
        }
    }
    let mut listed: Vec<u32> = vec![0x9, 0xa, 0xb, 0xc, 0xd, 0x20, 0x85, 0xa0, 0x1680];
    listed.extend(0x2000..=0x200au32);
    listed.extend([0x2028, 0x2029, 0x202f, 0x205f, 0x3000]);
    assert_eq!(found, listed);
}

#[test]
fn trimming_leaves_the_inside_alone() {
    assert_eq!(trim("  Open  file \n"), "Open  file");
    assert_eq!(trim("Quit"), "Quit");
    assert_eq!(trim("\nQuit \r\n"), "Quit");
    assert_eq!(trim(" \t\u{3000}\r\n"), "");
    assert_eq!(trim("\u{200b}"), "\u{200b}");
    assert_eq!(trim(""), "");
}

#[test]
fn only_the_line_end_is_cut() {
    assert_eq!(cut_line_end("  Open  file \n"), "  Open  file ");
    assert_eq!(cut_line_end("Quit\r\n"), "Quit");
    assert_eq!(cut_line_end("Quit"), "Quit");
    assert_eq!(cut_line_end("one\ntwo\n\n"), "one\ntwo");
    assert_eq!(cut_line_end("\n"), "");
    assert_eq!(cut_line_end(""), "");
}

#[test]
fn texts_are_ordered_by_their_bytes() {
    assert!(comes_before("a", "b"));
    assert!(comes_before("", "a"));
    assert!(comes_before("ab", "abc"));
    assert!(comes_before("Z", "a"));
    assert!(comes_before("z", "é"));
    assert!(!comes_before("a", "a"));
    assert!(!comes_before("b", "a"));
    let ids = [":1.10", ":1.9", "org.x", "é", "\u{ffff}", "\u{10000}", ""];
    for a in ids {
        for b in ids {
            assert_eq!(comes_before(a, b), a < b);
        }
    }
}
