use ruggine::text::{is_white_space, split_once, strip_prefix, trim, trim_end, trim_start};

#[test]
fn white_space_matches_std_for_every_char() {
    for n in 0u32..=0x10FFFF {
        if let Some(c) = char::from_u32(n) {
            assert_eq!(is_white_space(c), c.is_whitespace(), "char U+{:04X}", n);
        }
    }
}

#[test]
fn trims_match_std() {
    let cases = ["", "   ", "abc", "  abc", "abc  ", " \t a b \n", "\u{3000}x\u{2028}", "\n", "é è "];
    for case in cases {
        assert_eq!(trim_end(case), case.trim_end());
        assert_eq!(trim_start(case), case.trim_start());
        assert_eq!(trim(case), case.trim());
    }
}

#[test]
fn strip_prefix_matches_std() {
    assert_eq!(strip_prefix("/msg G1 hi", "/msg "), Some("G1 hi"));
    assert_eq!(strip_prefix("/msg", "/msg "), None);
    assert_eq!(strip_prefix("/msgG1", "/msg "), None);
    assert_eq!(strip_prefix("/join ", "/join "), Some(""));
    assert_eq!(strip_prefix("", ""), Some(""));
    assert_eq!(strip_prefix("àbc", "à"), Some("bc"));
}

#[test]
fn split_once_matches_std() {
    let cases = ["G1 hello world", "G1", " lead", "trail ", "", "a  b"];
    for case in cases {
        assert_eq!(split_once(case, ' '), case.split_once(' '));
    }
}
