use inspection_stats::text::{is_control, is_whitespace, parse_u64, trim_exec};

#[test]
fn whitespace_class_matches_std() {
    for u in 0u32..=0x10FFFF {
        if let Some(c) = char::from_u32(u) {
            assert_eq!(is_whitespace(c), c.is_whitespace(), "U+{u:04X}");
        }
    }
}

#[test]
fn control_class_matches_std() {
    for u in 0u32..=0x10FFFF {
        if let Some(c) = char::from_u32(u) {
            assert_eq!(is_control(c), c.is_control(), "U+{u:04X}");
        }
    }
}

#[test]
fn trim_matches_std() {
    for s in ["", "  a b  ", "\u{3000}全角\u{3000}", "\t\n", "x", " \u{85}y\u{a0} "] {
        let v: Vec<char> = s.chars().collect();
        let t: String = trim_exec(&v).into_iter().collect();
        assert_eq!(t, s.trim());
    }
}

#[test]
fn parse_matches_std() {
    for s in ["0", "08", "+7", "", "+", "-1", "12a", "4294967295", "4294967296", "99999999999999999999"] {
        let v: Vec<char> = s.chars().collect();
        assert_eq!(parse_u64(&v, u32::MAX as u64).map(|x| x as u32), s.parse::<u32>().ok(), "{s}");
    }
}
