use neo::view::TranscriptView;


fn lines(n: usize) -> Vec<String> {
    (0..n).map(|i| format!("line{i}")).collect()
}

#[test]
fn starts_following_the_bottom() {
    let v = TranscriptView::new();
    assert!(v.follow());
    assert_eq!(v.offset(), 0);
    // 视口应贴底
    let (s, e) = v.window(100, 10);
    assert_eq!((s, e), (90, 100));
}

#[test]
fn scrolling_up_stops_following() {
    // 关键语义：用户上翻后**不再**被新内容拽回底部
    let mut v = TranscriptView::new();
    v.scroll_up(5, 100, 10);
    assert_eq!(v.offset(), 5);
    assert!(!v.follow(), "上翻后应停止跟随");
}

#[test]
fn scrolling_back_to_bottom_resumes_following() {
    let mut v = TranscriptView::new();
    v.scroll_up(5, 100, 10);
    v.scroll_down(5, 100, 10);
    assert_eq!(v.offset(), 0);
    assert!(v.follow(), "回到底部应恢复跟随");
}

#[test]
fn scroll_up_cannot_go_past_the_first_line() {
    let mut v = TranscriptView::new();
    v.scroll_up(9999, 100, 10);
    assert_eq!(v.offset(), 90, "偏移上限 = 总行数 - 视口");
    let (s, _) = v.window(100, 10);
    assert_eq!(s, 0);
}

#[test]
fn scrolling_when_content_fits_does_nothing() {
    // 内容比视口短：没有可滚的，偏移必须保持 0（否则会出现空白）
    let mut v = TranscriptView::new();
    v.scroll_up(10, 3, 10);
    assert_eq!(v.offset(), 0);
    assert!(v.follow());
}

#[test]
fn to_top_shows_the_first_line() {
    let mut v = TranscriptView::new();
    v.to_top(100, 10);
    let (s, e) = v.window(100, 10);
    assert_eq!(s, 0);
    assert_eq!(e, 10);
    assert!(!v.follow());
}

#[test]
fn search_finds_all_case_insensitive_matches() {
    let mut v = TranscriptView::new();
    let ls: Vec<String> =
        vec!["Hello".into(), "world".into(), "HELLO again".into(), "other".into()];
    v.set_search(&ls, "hello");
    let s = v.search().expect("应进入搜索状态");
    assert_eq!(s.hits, vec![0, 2]);
    assert_eq!(s.current, 1, "默认定位到最后一个命中（最靠近当前对话）");
}

#[test]
fn empty_query_exits_search_mode() {
    let mut v = TranscriptView::new();
    v.set_search(&lines(5), "line");
    assert!(v.search().is_some());
    v.set_search(&lines(5), "   ");
    assert!(v.search().is_none(), "空白查询应退出搜索");
}

#[test]
fn search_with_no_match_is_reported_not_silently_empty() {
    // 无命中时仍应处于搜索态（界面要能显示"无匹配"），而不是当作没搜索
    let mut v = TranscriptView::new();
    v.set_search(&lines(5), "找不到的词");
    let s = v.search().expect("应仍是搜索态");
    assert!(s.hits.is_empty(), "应如实报告 0 个命中");
}

#[test]
fn search_step_cycles_forward_and_backward() {
    let ls = lines(20);
    let mut v = TranscriptView::new();
    v.set_search(&ls, "line1"); // 命中 line1, line10..line19 → 多个
    let n = v.search().unwrap().hits.len();
    assert!(n > 1);
    let first = v.search().unwrap().current;
    v.search_step(true, ls.len(), 10);
    assert_eq!(v.search().unwrap().current, (first + 1) % n, "前进应循环");
    v.search_step(false, ls.len(), 10);
    assert_eq!(v.search().unwrap().current, first, "后退应回到原处");
}

#[test]
fn search_step_with_no_hits_is_safe() {
    let ls = lines(5);
    let mut v = TranscriptView::new();
    v.set_search(&ls, "zzz");
    v.search_step(true, ls.len(), 3);
    v.search_step(false, ls.len(), 3);
    assert!(v.search().unwrap().hits.is_empty());
}

#[test]
fn search_brings_the_hit_into_view() {
    // 命中行若不在视口内，必须滚过去 —— 否则"找到了"却看不见
    let ls = lines(200);
    let mut v = TranscriptView::new();
    v.set_search(&ls, "line5");
    v.search_step(false, ls.len(), 10); // 往回找更早的命中
    let hit = v.search().unwrap().hits[v.search().unwrap().current];
    let (s, e) = v.window(ls.len(), 10);
    assert!(s <= hit && hit < e, "命中行 {hit} 应在视口 [{s},{e}) 内");
}

#[test]
fn window_never_overflows_bounds() {
    let mut v = TranscriptView::new();
    for offset_press in [0usize, 1, 5, 50, 500] {
        v.scroll_up(offset_press, 100, 10);
        let (s, e) = v.window(100, 10);
        assert!(e <= 100, "end {e} 越界");
        assert!(s <= e, "start {s} > end {e}");
    }
}

#[test]
fn clear_search_leaves_scroll_position_alone() {
    // 退出搜索不该打乱用户当前的阅读位置
    let ls = lines(100);
    let mut v = TranscriptView::new();
    v.scroll_up(7, ls.len(), 10);
    v.set_search(&ls, "line1");
    v.clear_search();
    assert!(v.search().is_none());
    assert_eq!(v.offset(), 7, "退出搜索后滚动位置应保持");
}
