use neo::whichkey::{detect, groups_for, Context};


#[test]
fn input_context_lists_the_documented_keys() {
    let gs = groups_for(Context::Input, false);
    let all: Vec<&str> = gs.iter().flat_map(|g| g.keys.iter().map(|(k, _)| *k)).collect();
    // 这些键必须真的实现了才允许出现在提示里
    for needle in ["enter", "ctrl+k", "ctrl+u", "ctrl+_ / ctrl+y", "ctrl+g", "tab", "ctrl+p"] {
        assert!(all.contains(&needle), "输入上下文应提示 {needle}：{all:?}");
    }
}

#[test]
fn popup_context_replaces_input_bindings() {
    // 弹窗打开时输入框的编辑键会被弹窗先吃掉 → 不该再提示它们。
    // 提示"按不到的键"比不提示更糟。
    let gs = groups_for(Context::Popup, false);
    let all: Vec<&str> = gs.iter().flat_map(|g| g.keys.iter().map(|(k, _)| *k)).collect();
    assert!(all.contains(&"enter"), "弹窗应提示确认");
    assert!(all.contains(&"esc"), "弹窗应提示取消");
    assert!(!all.contains(&"ctrl+z"), "弹窗下不该提示输入框的撤销");
    assert!(!all.contains(&"alt+b / alt+f"), "弹窗下不该提示按词移动");
}

#[test]
fn approval_context_shows_the_three_real_options() {
    let gs = groups_for(Context::Approval, false);
    let all: Vec<&str> = gs.iter().flat_map(|g| g.keys.iter().map(|(k, _)| *k)).collect();
    assert!(all.contains(&"y") && all.contains(&"n"), "应提示批准/拒绝");
    assert!(all.contains(&"d"), "应提示可查看完整 diff");
}

#[test]
fn diff_viewer_context_matches_the_real_keys() {
    let gs = groups_for(Context::DiffViewer, false);
    let all: Vec<&str> = gs.iter().flat_map(|g| g.keys.iter().map(|(k, _)| *k)).collect();
    for k in ["j / k", "] / [", "n / p", "v", "b", "q / esc"] {
        assert!(all.contains(&k), "查看器应提示 {k}：{all:?}");
    }
}

#[test]
fn sidebar_group_appears_only_when_the_sidebar_is_visible() {
    let without = groups_for(Context::Input, false);
    assert!(
        !without.iter().any(|g| g.title.starts_with("侧栏")),
        "侧栏不可见时不该提示侧栏键"
    );
    let with = groups_for(Context::Input, true);
    assert!(
        with.iter().any(|g| g.title.starts_with("侧栏")),
        "侧栏可见时应提示"
    );
}

#[test]
fn detect_prioritises_the_most_modal_context() {
    // diff 查看器独占输入 → 最高优先级
    assert_eq!(detect(false, false, false, true, false, false), Context::DiffViewer);
    // 弹窗盖在输入框上
    assert_eq!(detect(true, false, false, false, false, false), Context::Popup);
    // 搜索模式优先于审批提示（搜索时输入框装的是查询词）
    assert_eq!(detect(false, true, true, false, false, false), Context::Search);
    // 待审批优先于已滚动
    assert_eq!(detect(false, false, true, false, true, false), Context::Approval);
    // 已滚动优先于普通输入
    assert_eq!(detect(false, false, false, false, true, false), Context::Scrolled);
}

#[test]
fn every_group_has_a_title_and_at_least_one_key() {
    // 空分组会在界面上留一块空白标题，读起来莫名其妙
    let ctxs = [
        Context::Input,
        Context::Popup,
        Context::Search,
        Context::Scrolled,
        Context::Approval,
        Context::DiffViewer,
        Context::Sidebar,
    ];
    for c in ctxs {
        for g in groups_for(c, true) {
            assert!(!g.title.is_empty(), "{c:?} 有分组缺标题");
            assert!(!g.keys.is_empty(), "{c:?} 的分组「{}」没有键", g.title);
            for (k, d) in g.keys {
                assert!(!k.is_empty() && !d.is_empty(), "{c:?} 有空的键或说明");
            }
        }
    }
}

#[test]
fn no_key_appears_twice_within_the_same_context() {
    // 同一个键在同一上下文出现两次 = 提示互相矛盾
    for c in [
        Context::Input,
        Context::Popup,
        Context::Search,
        Context::Approval,
        Context::DiffViewer,
        Context::Sidebar,
    ] {
        let mut seen: Vec<&str> = Vec::new();
        for g in groups_for(c, true) {
            for (k, _) in g.keys {
                assert!(!seen.contains(k), "{c:?} 里键 {k} 重复出现");
                seen.push(k);
            }
        }
    }
}
