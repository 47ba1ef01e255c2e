use neo::input::{fuzzy_rank, fuzzy_score, History};


#[test]
fn history_records_and_dedups_adjacent() {
    let mut h = History::new(10);
    h.push("one");
    h.push("one"); // 相邻重复不记
    h.push("two");
    assert_eq!(h.entries(), &["one", "two"]);
    h.push(""); // 空串不记
    assert_eq!(h.entries().len(), 2);
}

#[test]
fn history_bounds_its_length() {
    let mut h = History::new(3);
    for i in 0..5 {
        h.push(&format!("cmd{i}"));
    }
    assert_eq!(h.entries(), &["cmd2", "cmd3", "cmd4"], "应丢弃最旧的");
}

#[test]
fn history_navigates_up_and_down_without_wrapping() {
    let mut h = History::new(10);
    h.push("first");
    h.push("second");

    assert_eq!(h.prev(), Some("second"));
    assert_eq!(h.prev(), Some("first"));
    assert_eq!(h.prev(), Some("first"), "到顶后停住，不循环");
    assert_eq!(h.next_entry(), Some("second"));
    assert_eq!(h.next_entry(), None, "越过最新回到空输入");
}

#[test]
fn history_reverse_search_is_case_insensitive_and_newest_first() {
    let mut h = History::new(10);
    h.push("cargo test --lib");
    h.push("git status");
    h.push("cargo build");

    assert_eq!(h.search("cargo"), Some("cargo build"), "应从最新往回找");
    assert_eq!(h.search("CARGO"), Some("cargo build"), "大小写不敏感");
    assert_eq!(h.search("status"), Some("git status"));
    assert_eq!(h.search("nope"), None);
    assert_eq!(h.search(""), Some("cargo build"), "空查询给最新一条");
}

#[test]
fn fuzzy_requires_a_subsequence() {
    assert!(fuzzy_score("ho", "home.ts").is_some());
    assert!(fuzzy_score("hmt", "home.ts").is_some(), "子序列即可");
    assert!(fuzzy_score("xyz", "home.ts").is_none(), "非子序列应拒绝");
    assert!(fuzzy_score("", "anything").is_some(), "空查询匹配一切");
}

#[test]
fn fuzzy_prefers_contiguous_and_early_matches() {
    let contiguous = fuzzy_score("ab", "abc").unwrap();
    let scattered = fuzzy_score("ab", "axxxxxb").unwrap();
    assert!(contiguous < scattered, "连续匹配应得分更优");

    let early = fuzzy_score("a", "abc").unwrap();
    let late = fuzzy_score("a", "xxxxa").unwrap();
    assert!(early < late, "靠前匹配应更优");
}

#[test]
fn fuzzy_prefers_word_boundary_starts() {
    let boundary = fuzzy_score("ho", "home.ts").unwrap();
    let middle = fuzzy_score("ho", "shopping.rs").unwrap();
    assert!(boundary < middle, "词边界起始应更优");
}

#[test]
fn fuzzy_rank_is_stable_and_limited() {
    let cands = vec![
        "src/home.ts".to_string(),
        "src/shopping.rs".to_string(),
        "README.md".to_string(),
        "src/host.rs".to_string(),
    ];
    let r = fuzzy_rank("ho", &cands, 2);
    assert_eq!(r.len(), 2, "应受 limit 约束");
    // 同分时按字典序 → 结果稳定
    let again = fuzzy_rank("ho", &cands, 2);
    assert_eq!(r, again, "排序必须可复现，否则候选列表会跳动");
    assert!(r.iter().any(|c| c.contains("home") || c.contains("host")), "相关项应入选：{r:?}");
}
