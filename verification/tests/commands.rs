use neo::commands::{audit_action_reachability, help_text, keys_text, parse_goal_command, registry, resolve, Action, GoalCmd};


#[test]
fn every_registered_command_resolves_by_all_its_names() {
    // 别名必须都能解析到自己 —— 否则列表里显示了却敲不出来
    for c in registry() {
        assert_eq!(resolve(c.name).map(|x| x.name), Some(c.name));
        for a in c.aliases {
            assert_eq!(
                resolve(a).map(|x| x.name),
                Some(c.name),
                "别名 {a} 未解析到 {}",
                c.name
            );
        }
    }
}

#[test]
fn resolve_accepts_leading_slash_and_case() {
    assert_eq!(resolve("/exit").map(|c| c.name), Some("exit"));
    assert_eq!(resolve("QUIT").map(|c| c.name), Some("exit"));
    assert_eq!(resolve(" /Help ").map(|c| c.name), Some("help"));
    assert_eq!(resolve("/nope"), None);
}

#[test]
fn matches_filters_by_substring_and_is_empty_for_unknown() {
    assert_eq!(neo::commands::matches("").len(), registry().len(), "空查询应返回全部");
    let th = neo::commands::matches("them");
    assert!(th.iter().any(|c| c.name == "theme"), "子串应命中 theme");
    assert!(neo::commands::matches("zzz").is_empty(), "无匹配应为空");
}

#[test]
fn every_action_variant_is_reachable_from_the_registry() {
    // 钉住一个真实 bug：`Action::Status` 定义了、`status_text` 也写了，
    // 却**忘记注册命令** —— 于是 /status 永远"无匹配"。
    //
    let problems = audit_action_reachability();
    assert!(problems.is_empty(), "命令表与动作不一致：{problems:?}");
}

#[test]
fn help_lists_exactly_the_registered_commands() {
    // 帮助文案与实际命令表不能各说一套
    let h = help_text();
    for c in registry() {
        assert!(h.contains(c.name), "帮助里缺少命令 {}：{h}", c.name);
    }
}

#[test]
fn actions_are_unique_per_command_and_cover_the_palette() {
    // 每个命令都有动作；动作不重复（重复说明表里有冗余项）
    let acts: Vec<Action> = registry().iter().map(|c| c.action).collect();
    let mut seen = vec![];
    for a in &acts {
        assert!(!seen.contains(a), "动作 {a:?} 在命令表里重复");
        seen.push(*a);
    }
}

#[test]
fn help_and_keys_advertise_only_real_keys() {
    // 文案里出现的键必须真能用：这里做一个最小一致性检查
    let h = help_text();
    let k = keys_text();
    for needle in ["@", "ctrl+r", "ctrl+p", "ctrl+t", "esc"] {
        assert!(h.contains(needle), "help 应提到 {needle}");
        assert!(k.contains(needle), "keys 应提到 {needle}");
    }
    // 未实现的功能不得出现在文案里。
    // 注意 `/models` 已从这条清单**移除** —— 它在本轮补上了后端能力
    // （内核持模型注册表，运行时可切换）。这条守卫的作用正是提醒：
    // 能力从"无"变"有"时，要把名字从黑名单挪出来，别留下过时的断言。
    for bad in ["/agents", "/mcps", "/share", "/undo-tree"] {
        assert!(!h.contains(bad), "不得宣传未实现命令 {bad}");
        assert!(!k.contains(bad), "不得宣传未实现命令 {bad}");
    }
    // 已实现的反面：必须出现在帮助里
    for good in ["/models", "/settings", "/diff", "/sessions"] {
        assert!(h.contains(good), "已实现命令 {good} 应出现在帮助里");
    }
}


#[test]
fn goal_command_parsing_covers_all_forms() {
    assert_eq!(parse_goal_command("/goal"), Some(GoalCmd::Status));
    assert_eq!(parse_goal_command("/goal "), Some(GoalCmd::Status));
    assert_eq!(
        parse_goal_command("/goal 实现登录\n写测试"),
        Some(GoalCmd::SetGoal("实现登录\n写测试"))
    );
    assert_eq!(parse_goal_command("/goal pause"), Some(GoalCmd::Pause));
    assert_eq!(parse_goal_command("/goal resume"), Some(GoalCmd::Resume));
    assert_eq!(parse_goal_command("/goal clear"), Some(GoalCmd::Clear));
    assert_eq!(parse_goal_command("/goal c"), Some(GoalCmd::Clear));
}

#[test]
fn prefix_lookalikes_are_not_swallowed() {
    // /goals、/goalkeeper 不是 /goal —— 前缀相同但必须放行给命令表
    assert_eq!(parse_goal_command("/goals"), None);
    assert_eq!(parse_goal_command("/goalkeeper x"), None);
}
