use neo::paint::{color_mode_of, faint, Color, ColorMode, Grid, Pal};
use neo::stars;
use neo::theme::{get, ThemeName};
use neo::tui::Tone;

#[test]
fn colour_mode_follows_the_environment() {
    assert_eq!(color_mode_of(true, Some("truecolor"), "xterm-256color"), ColorMode::NoColor);
    assert_eq!(color_mode_of(false, Some("truecolor"), "xterm"), ColorMode::TrueColor);
    assert_eq!(color_mode_of(false, Some("24bit"), ""), ColorMode::TrueColor);
    assert_eq!(color_mode_of(false, Some("yes"), "dumb"), ColorMode::NoColor);
    assert_eq!(color_mode_of(false, None, ""), ColorMode::NoColor);
    assert_eq!(color_mode_of(false, None, "xterm-256color"), ColorMode::Ansi256);
    assert_eq!(color_mode_of(false, None, "tmux-256color"), ColorMode::Ansi256);
    assert_eq!(color_mode_of(false, None, "alacritty"), ColorMode::TrueColor);
    assert_eq!(color_mode_of(false, None, "xterm-kitty"), ColorMode::TrueColor);
    assert_eq!(color_mode_of(false, None, "vt100"), ColorMode::Ansi16);
}

#[test]
fn colours_degrade_with_the_mode() {
    let t = get(ThemeName::Neo);
    assert_eq!(Color::Primary.rgb(&t), (0xa7, 0x8b, 0xfa));
    assert_eq!(Color::Primary.fg(ColorMode::TrueColor, &t), "\u{1b}[38;2;167;139;250m");
    assert_eq!(Color::Primary.fg(ColorMode::Ansi256, &t), "\u{1b}[38;5;141m");
    assert_eq!(Color::Primary.fg(ColorMode::Ansi16, &t), "\u{1b}[35m");
    assert_eq!(Color::Primary.fg(ColorMode::NoColor, &t), "");
    assert_eq!(Color::Text.fg(ColorMode::Ansi256, &t), "\u{1b}[38;5;254m");
    assert_eq!(Color::Rgb(1, 2, 3).fg(ColorMode::TrueColor, &t), "\u{1b}[38;2;1;2;3m");
    assert_eq!(faint(ColorMode::Ansi16), "\u{1b}[2m");
    assert_eq!(faint(ColorMode::NoColor), "");
}

#[test]
fn palette_maps_tones() {
    let p = Pal::new(ColorMode::TrueColor, ThemeName::Neo);
    assert_eq!(p.tone(Tone::Primary), "\u{1b}[38;2;167;139;250m");
    assert_eq!(p.tone(Tone::Blank), "\u{1b}[0m");
    assert_eq!(p.tone(Tone::Dim), "\u{1b}[2m");
    assert_eq!(p.tone(Tone::Rgb(9, 8, 7)), "\u{1b}[38;2;9;8;7m");
    assert_eq!(p.tone(Tone::StarDim), "\u{1b}[38;2;43;43;51m");
    let plain = Pal::new(ColorMode::NoColor, ThemeName::Nord);
    for t in [Tone::Blank, Tone::Text, Tone::Primary, Tone::Dim, Tone::StarBright, Tone::Rgb(1, 1, 1)] {
        assert_eq!(plain.tone(t), "", "no colour means no escapes");
    }
}

#[test]
fn put_writes_wide_characters_and_stops_at_the_edge() {
    let mut g = Grid::new(6, 2);
    assert_eq!(g.put(0, 0, "a你b", Tone::Text), 4);
    assert_eq!(&g.ch[0..4], &['a', '你', ' ', 'b']);
    assert_eq!(&g.skip[0..4], &[false, false, true, false]);
    assert_eq!(g.tone[2], Tone::Text);
    // a wide character that would cross the edge is not written
    assert_eq!(g.put(1, 5, "你", Tone::Text), 5);
    assert_eq!(g.ch[11], ' ');
    // zero-width characters take no column
    assert_eq!(g.put(1, 0, "e\u{301}f", Tone::Muted), 2);
    assert_eq!(&g.ch[6..8], &['e', 'f']);
    // a row outside the grid writes nothing
    assert_eq!(g.put(2, 3, "zz", Tone::Text), 3);
    // the limit stops text short of the grid's edge
    g.clamp_put(3);
    assert_eq!(g.put(0, 0, "xyzw", Tone::Error), 3);
    assert_eq!(g.ch[3], 'b');
}

#[test]
fn centred_pieces_and_blanks() {
    let mut g = Grid::new(10, 1);
    g.put_centered_styled(0, &[("ab".to_string(), Tone::Text), ("cd".to_string(), Tone::Accent)]);
    assert_eq!(g.ch.iter().collect::<String>(), "   abcd   ");
    assert_eq!(g.tone[3], Tone::Text);
    assert_eq!(g.tone[5], Tone::Accent);
    assert_eq!(g.tone[0], Tone::Blank);
    let mut g2 = Grid::new(4, 1);
    g2.put_centered_styled(0, &[("toolong".to_string(), Tone::Text)]);
    assert_eq!(g2.ch.iter().collect::<String>(), "tool");
    g.blank(0, 8, 20, Tone::Border);
    assert_eq!(g.tone[8], Tone::Border);
    assert_eq!(g.tone[9], Tone::Border);
    assert_eq!(g.tone[7], Tone::Blank);
    g.blank(0, 5, 2, Tone::Error);
    assert_eq!(g.tone[5], Tone::Accent);
}

#[test]
fn stars_only_land_on_unwritten_cells() {
    let mut g = Grid::new(80, 24);
    g.put(3, 0, &"x".repeat(80), Tone::Text);
    g.fill_stars();
    for r in 0..24 {
        for c in 0..80 {
            let i = r * 80 + c;
            if r == 3 {
                assert_eq!((g.ch[i], g.tone[i]), ('x', Tone::Text));
            } else {
                match stars::cell(r, c, 80) {
                    Some((ch, bright)) => {
                        assert_eq!(g.ch[i], ch);
                        assert_eq!(g.tone[i], if bright { Tone::StarBright } else { Tone::StarDim });
                    }
                    None => assert_eq!((g.ch[i], g.tone[i]), (' ', Tone::Blank)),
                }
            }
        }
    }
}

#[test]
fn lines_group_runs_of_one_tone() {
    let mut g = Grid::new(5, 2);
    g.put(0, 0, "ab", Tone::Primary);
    g.put(0, 2, "你", Tone::Error);
    let p = Pal::new(ColorMode::Ansi16, ThemeName::Neo);
    let lines = g.lines(&p);
    assert_eq!(lines.len(), 2);
    let prim = p.tone(Tone::Primary);
    let err = p.tone(Tone::Error);
    let blank = p.tone(Tone::Blank);
    let reset = "\u{1b}[0m";
    assert_eq!(lines[0], format!("{prim}ab{reset}{err}你{reset}{blank} {reset}"));
    assert_eq!(lines[1], format!("{blank}     {reset}"));
    let plain = g.lines(&Pal::new(ColorMode::NoColor, ThemeName::Neo));
    assert_eq!(plain, vec!["ab你 ".to_string(), "     ".to_string()]);
}

/// The float interpolation the word-mark gradient is defined by.
fn lerp_f32(x: u8, y: u8, t: f32) -> u8 {
    (x as f32 + (y as f32 - x as f32) * t).round().clamp(0.0, 255.0) as u8
}

#[test]
fn integer_gradient_matches_float_interpolation() {
    for a in 0..=255u8 {
        for b in 0..=255u8 {
            for i in 0..=5u32 {
                let t = i as f32 / 5.0;
                assert_eq!(neo::paint::gradient_step(a, b, i, 5), lerp_f32(a, b, t), "a={a} b={b} i={i}");
            }
        }
    }
    assert_eq!(neo::paint::gradient_step(0, 100, 1, 2), 50);
    assert_eq!(neo::paint::gradient_step(0, 1, 1, 2), 1);
}
