use neo::appearance::Background;
use neo::editor::Editor;
use neo::input::{fuzzy_rank, fuzzy_score, History};
use neo::theme::ThemeName;
use neo::tui::{decode_key, parse_terminal_size, Key};

#[test]
fn every_theme_and_background_parses_back_from_its_name() {
    for t in ThemeName::all() {
        assert_eq!(ThemeName::parse(t.as_str()), Some(t));
        let loud = format!("  {}  ", t.as_str().to_ascii_uppercase());
        assert_eq!(ThemeName::parse(&loud), Some(t));
    }
    for b in Background::all() {
        assert_eq!(Background::parse(b.as_str()), Some(b));
        let loud = format!("\t{} ", b.as_str().to_ascii_uppercase());
        assert_eq!(Background::parse(&loud), Some(b));
    }
}

#[test]
fn printable_characters_decode_to_themselves() {
    for c in [' ', 'a', 'Z', '~', 'é', '中', '😀'] {
        let mut buf = [0u8; 4];
        let bytes = c.encode_utf8(&mut buf).as_bytes();
        assert_eq!(decode_key(bytes), Key::Char(c), "{c:?}");
    }
}

#[test]
fn stty_output_reads_as_columns_and_rows() {
    assert_eq!(parse_terminal_size("24 80\n"), (80, 24));
    assert_eq!(parse_terminal_size("1 1\n"), (1, 1));
    assert_eq!(parse_terminal_size("60 200\n"), (200, 60));
}

#[test]
fn paste_lands_at_the_cursor_offset() {
    let mut e = Editor::from_text("ab\ncd");
    e.move_home();
    e.move_right();
    e.insert_str("XY\nZ");
    assert_eq!(e.text(), "ab\ncXY\nZd");
    assert_eq!(e.cursor(), (2, 1));
}

#[test]
fn fuzzy_scores_exist_exactly_for_subsequences() {
    assert!(fuzzy_score("ace", "abcde").is_some());
    assert!(fuzzy_score("AcE", "aBcDe").is_some());
    assert!(fuzzy_score("aec", "abcde").is_none());
    assert_eq!(fuzzy_score("", "anything"), Some(0));
}

#[test]
fn ranking_keeps_the_best_matches_in_order() {
    let cands: Vec<String> = ["axxxxxb", "abc", "zzz", "ab"].iter().map(|s| s.to_string()).collect();
    let r = fuzzy_rank("ab", &cands, 2);
    assert_eq!(r.len(), 2);
    for w in r.windows(2) {
        let a = fuzzy_score("ab", w[0].as_str()).unwrap();
        let b = fuzzy_score("ab", w[1].as_str()).unwrap();
        assert!(a < b || (a == b && w[0] <= w[1]));
    }
    assert!(!r.iter().any(|s| s.as_str() == "zzz"));
}

#[test]
fn history_search_gives_the_newest_hit() {
    let mut h = History::new(10);
    h.push("make build");
    h.push("cargo test");
    h.push("make test");
    assert_eq!(h.search("MAKE"), Some("make test"));
    assert_eq!(h.search("cargo"), Some("cargo test"));
    assert_eq!(h.search("nothing"), None);
}
