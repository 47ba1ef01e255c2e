use neo::instructions::{
    dirs_between, discover, git_root, join_name, merge, neo_home, Found, Instructions, MAX_BYTES,
    NESTED_LABEL, OVERRIDE_LABEL, PERSONAL_LABEL, REPO_LABEL,
};

/// A directory tree held in memory: the working directory's ancestors
/// (nearest first), which of them hold `.git`, and the files that exist.
fn load_in(home: Option<&str>, chain: &[&str], git: &[bool], files: &[(&str, &str)]) -> Instructions {
    let chain: Vec<String> = chain.iter().map(|s| s.to_string()).collect();
    let root = git_root(git);
    let found: Vec<Found> = discover(home, &chain, root)
        .into_iter()
        .filter_map(|(path, label)| {
            files.iter().find(|(p, _)| *p == path).map(|(_, c)| Found {
                path: path.clone(),
                label: label.to_string(),
                content: Some(c.to_string()),
            })
        })
        .collect();
    merge(&found)
}

#[test]
fn cascade_order_is_override_personal_repo_then_nested() {
    let got = load_in(
        Some("/tmp/home"),
        &["/tmp/repo/crates/app", "/tmp/repo/crates", "/tmp/repo", "/tmp", "/"],
        &[false, false, true, false, false],
        &[
            ("/tmp/home/AGENTS.override.md", "OVERRIDE"),
            ("/tmp/home/AGENTS.md", "PERSONAL"),
            ("/tmp/repo/AGENTS.md", "REPO"),
            ("/tmp/repo/crates/app/AGENTS.md", "NESTED"),
        ],
    );
    let b = &got.block;
    let i_ov = b.find("OVERRIDE").expect("override 必须在内");
    let i_pe = b.find("PERSONAL").expect("personal 必须在内");
    let i_re = b.find("REPO").expect("repo 必须在内");
    let i_ne = b.find("NESTED").expect("nested 必须在内");
    assert!(i_ov < i_pe && i_pe < i_re && i_re < i_ne, "加载顺序必须符合契约");
    assert_eq!(got.sources.len(), 4);
    assert!(!got.truncated);
}

#[test]
fn repo_scope_does_not_pick_up_unrelated_ancestors() {
    let got = load_in(
        None,
        &["/tmp/norepo/deep/nested", "/tmp/norepo/deep", "/tmp/norepo", "/tmp", "/"],
        &[false, false, false, false, false],
        &[
            ("/tmp/norepo/AGENTS.md", "SHOULD_NOT_LOAD"),
            ("/tmp/norepo/deep/nested/AGENTS.md", "LOCAL_ONLY"),
        ],
    );
    assert!(got.block.contains("LOCAL_ONLY"));
    assert!(!got.block.contains("SHOULD_NOT_LOAD"), "无 git 根时不得向上级联");
}

#[test]
fn missing_files_yield_empty_not_error() {
    let got = load_in(Some("/tmp/empty"), &["/tmp/empty", "/tmp", "/"], &[false, false, false], &[]);
    assert!(got.is_empty());
    assert!(got.sources.is_empty());
    assert_eq!(got.summary(), "未找到项目指令（AGENTS.md）");
}

#[test]
fn honors_byte_cap_and_reports_truncation() {
    let big = "A".repeat(MAX_BYTES + 5000);
    let got = load_in(None, &["/tmp/cap", "/tmp", "/"], &[true, false, false], &[("/tmp/cap/AGENTS.md", &big)]);
    assert!(got.truncated, "超限必须如实标记");
    assert!(got.block.len() <= MAX_BYTES + 512, "正文不得越过上限：{}", got.bytes());
    assert!(got.block.contains("已按 32 KiB 上限截断"), "必须告知模型内容不全");
}

#[test]
fn truncation_never_splits_a_utf8_codepoint() {
    let big = "约".repeat(MAX_BYTES);
    let got = load_in(None, &["/tmp/utf8", "/tmp", "/"], &[true, false, false], &[("/tmp/utf8/AGENTS.md", &big)]);
    assert!(got.truncated);
    assert!(std::str::from_utf8(got.block.as_bytes()).is_ok());
}

#[test]
fn header_declares_precedence_explicitly() {
    let got = load_in(None, &["/tmp/hdr", "/tmp", "/"], &[true, false, false], &[("/tmp/hdr/AGENTS.md", "R")]);
    assert!(got.block.contains("最高优先级"), "优先级要显式标注，不靠位置暗示");
}

#[test]
fn merged_text_is_header_then_sections() {
    let found = vec![Found {
        path: "/r/AGENTS.md".to_string(),
        label: REPO_LABEL.to_string(),
        content: Some("rule one  \n\n".to_string()),
    }];
    let got = merge(&found);
    assert_eq!(
        got.block,
        "以下内容来自工作区与用户目录的 AGENTS.md，是**必须遵守**的项目约定；出现冲突时以标注「最高优先级」的为准。\n\n<!-- 来源：/r/AGENTS.md · 仓库约定 -->\nrule one\n"
    );
    assert_eq!(got.sources, vec!["/r/AGENTS.md".to_string()]);
    assert_eq!(got.bytes(), got.block.len());
    assert_eq!(got.summary(), "项目指令：/r/AGENTS.md");
}

#[test]
fn unreadable_files_are_skipped() {
    let found = vec![
        Found { path: "/a/AGENTS.md".to_string(), label: "x".to_string(), content: None },
        Found { path: "/b/AGENTS.md".to_string(), label: "y".to_string(), content: Some("B".to_string()) },
    ];
    let got = merge(&found);
    assert_eq!(got.sources, vec!["/b/AGENTS.md".to_string()]);
    assert!(!got.block.contains("/a/AGENTS.md"));
}

#[test]
fn the_cap_stops_at_the_file_that_does_not_fit() {
    let first = "a".repeat(MAX_BYTES - 100);
    let found = vec![
        Found { path: "/1".to_string(), label: "l".to_string(), content: Some(first) },
        Found { path: "/2".to_string(), label: "l".to_string(), content: Some("b".repeat(500)) },
        Found { path: "/3".to_string(), label: "l".to_string(), content: Some("c".to_string()) },
    ];
    let got = merge(&found);
    assert!(got.truncated);
    assert_eq!(got.sources, vec!["/1".to_string(), "/2".to_string()]);
    assert!(!got.block.contains("\nc\n"));
    let body_start = got.block.find('\n').unwrap() + 1;
    assert_eq!(got.block.len() - body_start, MAX_BYTES);
    assert_eq!(got.summary(), "项目指令：/1、/2（已截断）");
}

#[test]
fn discovery_labels_and_paths() {
    let chain: Vec<String> = vec!["/r/a/b".into(), "/r/a".into(), "/r".into(), "/".into()];
    let got = discover(Some("/h/.neo"), &chain, Some(2));
    let want: Vec<(String, &str)> = vec![
        ("/h/.neo/AGENTS.override.md".to_string(), OVERRIDE_LABEL),
        ("/h/.neo/AGENTS.md".to_string(), PERSONAL_LABEL),
        ("/r/AGENTS.md".to_string(), REPO_LABEL),
        ("/r/a/AGENTS.md".to_string(), NESTED_LABEL),
        ("/r/a/b/AGENTS.md".to_string(), NESTED_LABEL),
    ];
    assert_eq!(got, want);
    let alone = discover(None, &chain, None);
    assert_eq!(alone, vec![("/r/a/b/AGENTS.md".to_string(), NESTED_LABEL)]);
}

#[test]
fn discovery_keeps_at_most_sixteen_repository_directories() {
    let mut chain: Vec<String> = Vec::new();
    for depth in (0..20).rev() {
        chain.push(format!("/r{}", "/d".repeat(depth)));
    }
    let got = discover(None, &chain, Some(19));
    assert_eq!(got.len(), 16);
    assert_eq!(got[0], ("/r/AGENTS.md".to_string(), REPO_LABEL));
    assert_eq!(got[15].0, format!("/r{}/AGENTS.md", "/d".repeat(15)));
}

#[test]
fn root_to_working_directory_chain() {
    let chain: Vec<String> = vec!["/r/a/b".into(), "/r/a".into(), "/r".into(), "/".into()];
    assert_eq!(dirs_between(&chain, 2), vec!["/r".to_string(), "/r/a".to_string(), "/r/a/b".to_string()]);
    assert_eq!(dirs_between(&chain, 0), vec!["/r/a/b".to_string()]);
    assert_eq!(git_root(&[false, true, true]), Some(1));
    assert_eq!(git_root(&[false, false]), None);
}

#[test]
fn joining_and_the_configuration_directory() {
    assert_eq!(join_name("/h", "AGENTS.md"), "/h/AGENTS.md");
    assert_eq!(join_name("/", "AGENTS.md"), "/AGENTS.md");
    assert_eq!(join_name("", "AGENTS.md"), "AGENTS.md");
    assert_eq!(neo_home(None, Some("/home/u")), Some("/home/u/.neo".to_string()));
    assert_eq!(neo_home(Some("/x/.neo"), Some("/home/u")), Some("/x/.neo".to_string()));
    assert_eq!(neo_home(Some("/x/.neo/"), None), Some("/x/.neo/".to_string()));
    assert_eq!(neo_home(Some("/x/neo"), None), Some("/x/neo/.neo".to_string()));
    assert_eq!(neo_home(None, None), None);
}
