use neo::appearance::{Background, LogoStyle, LOGO_SMALL};


#[test]
fn every_background_is_listed_and_parsable() {
    for b in Background::all() {
        assert_eq!(Background::parse(b.as_str()), Some(b), "{b:?} 应可往返解析");
    }
    assert_eq!(Background::parse("default"), Some(Background::Stars));
    assert_eq!(Background::parse("  OFF "), Some(Background::Plain));
    assert_eq!(Background::parse("不存在"), None);
}

#[test]
fn every_logo_style_is_listed_and_parsable() {
    for l in LogoStyle::all() {
        assert_eq!(LogoStyle::parse(l.as_str()), Some(l), "{l:?} 应可往返解析");
    }
    assert_eq!(LogoStyle::parse("default"), Some(LogoStyle::Large));
    assert_eq!(LogoStyle::parse("nope"), None);
}

#[test]
fn textures_are_deterministic() {
    // 关键：TUI 每帧重画，随机纹理会让画面闪成噪点
    for b in Background::all() {
        for (r, c) in [(0, 0), (3, 17), (40, 199), (7, 42)] {
            assert_eq!(b.cell(r, c, 200), b.cell(r, c, 200), "{b:?} 在 ({r},{c}) 不稳定");
        }
    }
}

#[test]
fn none_background_draws_nothing() {
    for (r, c) in [(0, 0), (5, 5), (10, 20)] {
        assert_eq!(Background::Plain.cell(r, c, 80), None);
    }
}

#[test]
fn dots_texture_is_regular_not_noisy() {
    // 网格纹理的价值就在"规律"：同一列上的点应周期性出现
    let col = 2usize;
    let rows_with_dot: Vec<usize> =
        (0..24).filter(|r| Background::Dots.cell(*r, col, 80).is_some()).collect();
    assert_eq!(rows_with_dot, vec![1, 4, 7, 10, 13, 16, 19, 22], "应为每 3 行一个点");
}

#[test]
fn all_textures_use_narrow_characters_only() {
    // 宽字符会让整行右移一列 —— 背景错一列，整屏排版就歪了
    for b in Background::all() {
        for r in 0..60 {
            for c in 0..120 {
                if let Some((ch, _)) = b.cell(r, c, 120) {
                    assert_eq!(
                        neo::width::char_width(ch),
                        1,
                        "{b:?} 在 ({r},{c}) 用了宽字符 {ch:?}"
                    );
                }
            }
        }
    }
}

#[test]
fn texture_density_is_low_but_nonzero() {
    // 太密 = 噪点；全空 = 白做
    for b in [Background::Stars, Background::Dots, Background::Diagonal] {
        let (cols, rows) = (160usize, 50usize);
        let n = (0..rows)
            .flat_map(|r| (0..cols).map(move |c| (r, c)))
            .filter(|(r, c)| b.cell(*r, *c, cols).is_some())
            .count();
        let ratio = n as f64 / (cols * rows) as f64;
        assert!(ratio > 0.001 && ratio < 0.08, "{b:?} 密度 {ratio:.4} 不合理");
    }
}

#[test]
fn logo_small_rows_are_equal_width() {
    // 手改小词标最容易某行差一个字符 —— 终端里立刻看出错位
    let ws: Vec<usize> = LOGO_SMALL.iter().map(|r| r.chars().count()).collect();
    assert!(ws.windows(2).all(|w| w[0] == w[1]), "小词标各行必须等宽，实际 {ws:?}");
}

#[test]
fn logo_style_rows_match_actual_art() {
    assert_eq!(LogoStyle::Large.rows(), 6);
    assert_eq!(LogoStyle::Small.rows(), LOGO_SMALL.len());
    assert_eq!(LogoStyle::Minimal.rows(), 1);
    assert_eq!(LogoStyle::Hidden.rows(), 0);
}

#[test]
fn cycles_wrap_through_all_styles() {
    let mut seen = vec![Background::default()];
    let mut cur = Background::default();
    for _ in 0..Background::all().len() - 1 {
        cur = cur.next();
        assert!(!seen.contains(&cur));
        seen.push(cur);
    }
    assert_eq!(cur.next(), Background::default());

    let mut seen = vec![LogoStyle::default()];
    let mut cur = LogoStyle::default();
    for _ in 0..LogoStyle::all().len() - 1 {
        cur = cur.next();
        assert!(!seen.contains(&cur));
        seen.push(cur);
    }
    assert_eq!(cur.next(), LogoStyle::default());
}
