use neo::theme::{get, ThemeName};


#[test]
fn every_theme_is_listed_and_resolvable() {
    for n in ThemeName::all() {
        let t = get(n);
        assert_eq!(t.name, n.as_str(), "主题名与枚举必须一致");
    }
}

#[test]
fn starfield_is_dimmer_than_the_border() {
    // 星场是背景：两档都必须比边框暗，否则会跟正文抢注意力。
    // 无纹理主题（light/terminal）不渲染星场，亮度次序不适用。
    for n in ThemeName::all() {
        let t = get(n);
        if !t.stars {
            continue;
        }
        let lum = |c: (u8, u8, u8)| c.0 as u32 + c.1 as u32 + c.2 as u32;
        assert!(
            lum(t.star_bright) < lum(t.border),
            "{} 的亮星比边框还亮，会喧宾夺主",
            t.name
        );
        assert!(
            lum(t.star_dim) < lum(t.star_bright),
            "{} 的星场两档亮度必须拉开",
            t.name
        );
    }
}

#[test]
fn text_contrasts_more_than_muted_in_every_theme() {
    // 正文与次要文字的层次不能反，否则"哪个是重点"会看错。
    // "层次"以**与底色的对比**度量：暗色主题比谁更亮，亮色主题
    // 比谁更深 —— 对亮色主题断言"更亮"等于允许次要不清晰。
    for n in ThemeName::all() {
        let t = get(n);
        let lum = |c: (u8, u8, u8)| c.0 as u32 + c.1 as u32 + c.2 as u32;
        if t.light {
            assert!(lum(t.text) < lum(t.muted), "{} 亮色正文应比次要文字更深", t.name);
        } else {
            assert!(lum(t.text) > lum(t.muted), "{} 正文应比次要文字亮", t.name);
        }
    }
}

#[test]
fn parse_accepts_aliases_and_rejects_junk() {
    assert_eq!(ThemeName::parse("default"), Some(ThemeName::Neo));
    assert_eq!(ThemeName::parse("Rose-Pine"), Some(ThemeName::RosePine));
    assert_eq!(ThemeName::parse("  NORD "), Some(ThemeName::Nord));
    assert_eq!(ThemeName::parse("不存在"), None);
}

#[test]
fn the_default_theme_is_neos_own_purple() {
    // 默认主题必须是 NEO 自己的紫，而不是参考主题的橙。
    // 判据用色相族而不是硬编码三原色值：紫 = 蓝/红高、绿低。
    assert_eq!(ThemeName::default(), ThemeName::Neo);
    let t = get(ThemeName::default());
    let (r, g, b) = t.primary;
    assert!(
        b as u16 > g as u16 + 60 && r as u16 > g as u16 + 20,
        "默认主色应是紫（蓝红高、绿低），实际 #{r:02x}{g:02x}{b:02x}"
    );
}

#[test]
fn opencode_reference_theme_is_still_reachable() {
    // 参考主题保留，供对照；但它不再是默认
    assert_ne!(ThemeName::default(), ThemeName::OpenCode);
    assert!(ThemeName::all().contains(&ThemeName::OpenCode));
    assert!(ThemeName::parse("opencode").is_some());
}

#[test]
fn next_cycles_through_all_and_wraps() {
    let mut seen = vec![ThemeName::default()];
    let mut cur = ThemeName::default();
    for _ in 0..ThemeName::all().len() - 1 {
        cur = cur.next();
        assert!(!seen.contains(&cur), "循环中不该重复");
        seen.push(cur);
    }
    assert_eq!(cur.next(), ThemeName::default(), "应回到起点");
}
