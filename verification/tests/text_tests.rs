use fy::text::{is_whitespace, lines, split, trim};

#[test]
fn whitespace_matches_std_for_every_char() {
    for u in 0u32..=0x10FFFF {
        if let Some(c) = char::from_u32(u) {
            assert_eq!(is_whitespace(c), c.is_whitespace(), "{u:#x}");
        }
    }
}

#[test]
fn trim_lines_and_split_match_std() {
    for s in ["", " a b ", "\u{3000}x\u{85}", "a\r\nb\n\nc\r", "a\n", "\n", "x+y++z+", "+"] {
        let chars: Vec<char> = s.chars().collect();
        assert_eq!(trim(&chars).iter().collect::<String>(), s.trim());
        let got: Vec<String> = lines(&chars).iter().map(|l| l.iter().collect()).collect();
        let want: Vec<String> = s.lines().map(|l| l.to_owned()).collect();
        assert_eq!(got, want, "{s:?}");
        let got: Vec<String> = split(&chars, '+').iter().map(|l| l.iter().collect()).collect();
        let want: Vec<String> = s.split('+').map(|l| l.to_owned()).collect();
        assert_eq!(got, want, "{s:?}");
    }
}
