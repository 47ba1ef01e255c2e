use neo::stars::cell;


#[test]
fn is_deterministic_across_calls() {
    // 同一格调两次必须一致，否则每帧重画会闪
    for (r, c) in [(0, 0), (3, 17), (40, 199), (7, 42)] {
        assert_eq!(cell(r, c, 200), cell(r, c, 200), "位置 ({r},{c}) 不稳定");
    }
}

#[test]
fn density_is_low_but_nonzero() {
    // 太密 = 噪点；全空 = 白做。量化一次，避免"感觉差不多"
    let (cols, rows) = (200usize, 60usize);
    let n = (0..rows)
        .flat_map(|r| (0..cols).map(move |c| (r, c)))
        .filter(|(r, c)| cell(*r, *c, cols).is_some())
        .count();
    let ratio = n as f64 / (cols * rows) as f64;
    assert!(ratio > 0.002 && ratio < 0.03, "星密度 {ratio:.4} 超出合理区间");
}

#[test]
fn only_uses_narrow_characters() {
    // 宽字符会让整行错位；星场必须只用半角
    let chars: Vec<char> = (0..80)
        .flat_map(|r| (0..200).map(move |c| (r, c)))
        .filter_map(|(r, c)| cell(r, c, 200).map(|v| v.0))
        .collect();
    for ch in chars {
        assert_eq!(neo::width::char_width(ch), 1, "{ch:?} 不是半角，会撑歪排版");
    }
}
