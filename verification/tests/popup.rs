use neo::commands;
use neo::popup::{file_items, slash_items, theme_items, Item, ItemAction, Kind, Popup};


fn p() -> Popup {
    let mut p = Popup::new(Kind::Slash, "");
    p.set_items(slash_items(""), false);
    p
}

#[test]
fn filtering_resets_selection() {
    // 过滤词改变后，旧选中位置失去意义；不重置会让光标停在无关项上
    let mut p = p();
    p.select(3);
    assert_eq!(p.selected, 3);
    p.set_items(slash_items("th"), false);
    assert_eq!(p.selected, 0, "换候选后选中项必须回到第一项");
}

#[test]
fn selection_clamps_at_both_ends() {
    let mut p = p();
    p.move_selection(-1);
    assert_eq!(p.selected, 0, "顶部不能再往上");
    for _ in 0..100 {
        p.move_selection(1);
    }
    assert_eq!(p.selected, p.items.len() - 1, "底部不能再往下（不循环）");
}

#[test]
fn empty_popup_is_navigation_safe() {
    // 无候选时上下移动不得 panic（例如在空目录里按 @）
    let mut p = Popup::new(Kind::File, "");
    p.set_items(vec![], false);
    p.move_selection(1);
    p.move_selection(-1);
    assert_eq!(p.selected, 0);
    assert!(p.selected_item().is_none());
}

#[test]
fn scroll_keeps_selection_visible() {
    let mut p = Popup::new(Kind::File, "");
    let items: Vec<Item> = (0..50)
        .map(|i| {
            Item::plain(
                format!("f{i}.rs"),
                String::new(),
                ItemAction::Insert(format!("@f{i}.rs")),
            )
        })
        .collect();
    p.set_items(items, false);
    p.select(40);
    let top = p.scroll_top(8);
    assert!(
        top <= 40 && 40 < top + 8,
        "选中项 40 应落在窗口 [{top}, {}) 内",
        top + 8
    );
}

#[test]
fn slash_items_cover_the_registry() {
    assert_eq!(slash_items("").len(), commands::registry().len());
}

#[test]
fn file_items_rank_by_fuzzy_match() {
    let files = vec![
        "src/main.rs".to_string(),
        "src/parser.rs".to_string(),
        "README.md".to_string(),
    ];
    let (items, _) = file_items("main", &files, 8);
    assert_eq!(items[0].label, "src/main.rs", "最匹配的应排第一");
    assert!(matches!(&items[0].action, ItemAction::Insert(s) if s == "@src/main.rs"));
}

#[test]
fn empty_query_lists_files_in_enumeration_order() {
    // 空查询不该做"模糊排序"（没有查询词就没有相关性可言）
    let files: Vec<String> = (0..20).map(|i| format!("f{i:02}.rs")).collect();
    let (items, truncated) = file_items("", &files, 8);
    assert_eq!(items.len(), 8);
    assert_eq!(items[0].label, "f00.rs");
    assert!(truncated, "候选多于上限时应标记截断");
}

#[test]
fn theme_items_include_all_and_filter() {
    assert_eq!(theme_items("").len(), neo::theme::ThemeName::all().len());
    let n = theme_items("nord");
    assert_eq!(n.len(), 1);
    assert_eq!(n[0].label, "nord");
    assert!(matches!(n[0].action, ItemAction::SetTheme(_)));
}

#[test]
fn palette_with_empty_query_lists_every_command() {
    assert_eq!(neo::popup::palette_items("  ").len(), commands::registry().len());
}

#[test]
fn palette_matches_descriptions_after_names() {
    // `/theme` matches by name; no command is left out for a match on its own name
    let items = neo::popup::palette_items("theme");
    assert!(items.iter().any(|i| i.label == "/theme"));
    // every item is a registered command
    for i in &items {
        assert!(matches!(i.action, ItemAction::Run(_)));
        assert!(i.label.starts_with('/'));
    }
    // no command matches gibberish
    assert!(neo::popup::palette_items("zzzzqqqq").is_empty());
}

#[test]
fn background_and_logo_pickers_filter_by_name() {
    let b = neo::popup::background_items(" DOTS ");
    assert_eq!(b.len(), 1);
    assert_eq!(b[0].label, "dots");
    assert_eq!(neo::popup::background_items("").len(), 4);
    let l = neo::popup::logo_items("mini");
    assert_eq!(l.len(), 1);
    assert_eq!(l[0].label, "minimal");
    assert!(matches!(l[0].action, ItemAction::SetLogo(_)));
    assert_eq!(neo::popup::logo_items("").len(), 4);
    assert_eq!(l[0].category, "");
}

#[test]
fn scroll_top_is_zero_when_everything_fits() {
    let mut p = Popup::new(Kind::Theme, "");
    p.set_items(theme_items(""), false);
    p.select(8);
    assert_eq!(p.scroll_top(20), 0);
    assert_eq!(p.scroll_top(0), 0);
    assert_eq!(p.scroll_top(4), 5);
    let _unused: Option<&Item> = p.selected_item();
}

#[test]
fn a_selection_past_isize_wraps_like_the_cast_then_clamps() {
    let mut p = p();
    p.selected = usize::MAX;
    p.move_selection(1);
    assert_eq!(p.selected, 0);
    p.selected = usize::MAX;
    p.move_selection(5);
    assert_eq!(p.selected, 4.min(p.items.len() - 1));
}
