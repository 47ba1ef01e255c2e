use neo::commands::help_text;
use neo::editor::Editor;
use neo::mouse::{Button, MouseEvent};
use neo::paint::{color_mode_of, ColorMode};
use neo::popup;
use neo::screen::{searchable_lines, Fact, FileChange, Screen, Seg, TodoEntry, TodoStatus};
use neo::theme::ThemeName;
use neo::tui::{hit_test, About, MouseAction, Regions, Tone, TrustPrompt};
use neo::view::TranscriptView;
use neo::width::display_width;

fn is_final(c: char) -> bool {
    ('\u{40}'..='\u{7e}').contains(&c)
}

fn screen(cols: usize, rows: usize, facts: &[Fact], input: &str, status: &str) -> String {
    screen_in(cols, rows, facts, input, status, ColorMode::TrueColor)
}

fn screen_in(cols: usize, rows: usize, facts: &[Fact], input: &str, status: &str, color: ColorMode) -> String {
    let ed = Editor::from_text(input);
    Screen {
        cols,
        rows,
        facts,
        input: &ed,
        status,
        awaiting_input: false,
        show_cursor: false,
        about: None,
        trust: None,
        theme: ThemeName::OpenCode,
        popup: None,
        preformatted: None,
        sidebar: false,
        view: None,
        color,
    }
    .render()
}

fn about() -> About {
    About {
        version: "0.1.0".into(),
        model: "mock".into(),
        mode: "Default（沙箱 WorkspaceWrite / 审批 OnRequest）".into(),
        mode_short: "default".into(),
        workspace: "/tmp/ws".into(),
        branch: "main".into(),
        example: "修一下代码里的 TODO".into(),
        context_limit: 64_000,
        session: "neo-tui".into(),
    }
}

fn welcome(cols: usize, rows: usize) -> String {
    let a = about();
    Screen {
        cols,
        rows,
        facts: &[],
        input: &Editor::new(),
        status: "就绪",
        awaiting_input: false,
        show_cursor: false,
        about: Some(&a),
        trust: None,
        theme: ThemeName::OpenCode,
        popup: None,
        preformatted: None,
        sidebar: false,
        view: None, color: ColorMode::TrueColor,
    }
    .render()
}

fn plain(rendered: &str) -> Vec<String> {
    let mut lines: Vec<String> = Vec::new();
    let mut cur = String::new();
    let mut it = rendered.chars().peekable();
    while let Some(c) = it.next() {
        match c {
            '\u{1b}' => {
                if it.peek() == Some(&'[') {
                    it.next();
                    // 参数字节 + 中间字节
                    while let Some(&n) = it.peek() {
                        if ('\u{30}'..='\u{3f}').contains(&n) || ('\u{20}'..='\u{2f}').contains(&n) {
                            it.next();
                        } else {
                            break;
                        }
                    }
                    // 终止字节
                    if let Some(&n) = it.peek() {
                        if is_final(n) {
                            it.next();
                        }
                    }
                } else {
                    // 两字符转义（ESC 后跟单个字符）
                    it.next();
                }
            }
            '\r' => {}
            '\n' => lines.push(std::mem::take(&mut cur)),
            _ => cur.push(c),
        }
    }
    lines.push(cur);
    lines
}

fn sidebar_screen(cols: usize, facts: &[Fact], sidebar: bool) -> String {
    let a = About { context_limit: 64_000, ..about() };
    Screen {
        cols,
        rows: 30,
        facts,
        input: &Editor::new(),
        status: "就绪",
        awaiting_input: false,
        show_cursor: false,
        about: Some(&a),
        trust: None,
        theme: ThemeName::OpenCode,
        popup: None,
        preformatted: None,
        sidebar,
        view: None, color: ColorMode::TrueColor,
    }
    .render()
}

fn regions_for(cols: usize, rows: usize, popup: Option<&popup::Popup>) -> Regions {
    let a = about();
    let ed = Editor::new();
    Screen {
        cols, rows, facts: &[], input: &ed, status: "就绪",
        awaiting_input: false, show_cursor: false,
        about: Some(&a), trust: None,
        theme: ThemeName::Neo, popup, preformatted: None,
        sidebar: true, view: None, color: ColorMode::TrueColor,
    }
    .render_with_regions()
    .1
}

fn ev(button: Button, x: usize, y: usize, pressed: bool) -> MouseEvent {
    MouseEvent { button, pressed, x, y, modified: false }
}

#[test]
fn popup_is_opaque_over_content() {
    // 弹窗必须把底下的内容盖住。若不逐格填空，logo/正文会从字符缝隙里
    // 露出来（真机截图里能看到 logo 碎片嵌在弹窗行中）。
    let a = about();
    let mut p = popup::Popup::new(popup::Kind::Slash, "");
    p.set_items(popup::slash_items(""), false);
    let out = Screen {
        cols: 100,
        rows: 30,
        facts: &[],
        input: &Editor::from_text("/"),
        status: "",
        awaiting_input: false,
        show_cursor: false,
        about: Some(&a),
        trust: None,
        theme: ThemeName::OpenCode,
        popup: Some(&p),
        preformatted: None,
        sidebar: false,
        view: None, color: ColorMode::TrueColor,
    }
    .render();
    // 找出弹窗所在的行区间（含边框），断言这些行里没有 logo 的半块字符
    let lines = plain(&out);
    let idxs: Vec<usize> = lines
        .iter()
        .enumerate()
        .filter(|(_, l)| l.contains('╭') || l.contains('│') || l.contains('╰'))
        .map(|(i, _)| i)
        .collect();
    assert!(!idxs.is_empty(), "应画出弹窗：{out}");
    let (top, bottom) = (*idxs.first().unwrap(), *idxs.last().unwrap());
    for l in &lines[top..=bottom] {
        assert!(!l.contains('█'), "弹窗行里漏进了 logo：{l:?}");
    }
}

#[test]
fn info_screen_renders_the_help_text() {
    let help = help_text().to_string();
    let lines: Vec<Vec<Seg>> = help
        .lines()
        .map(|l| vec![(2usize, l.to_string(), Tone::Text)])
        .collect();
    let out = Screen {
        cols: 100,
        rows: 30,
        facts: &[],
        input: &Editor::new(),
        status: "按任意键返回",
        awaiting_input: false,
        show_cursor: false,
        about: None,
        trust: None,
        theme: ThemeName::OpenCode,
        popup: None,
        preformatted: Some(&lines),
        sidebar: false,
        view: None, color: ColorMode::TrueColor,
    }
    .render();
    let text = plain(&out).join("\n");
    assert!(text.contains("编程 Agent 内核"), "应显示帮助正文：{text}");
    assert!(text.contains("按任意键返回"), "应提示如何返回：{text}");
}

#[test]
fn render_writes_exactly_one_screenful_of_lines() {
    // 每帧只能写**一屏**的行数（rows 行）。若写完转录又打印整块网格，
    // 就会写出约两倍的 rows 行 —— 多余的换行会把终端**逐帧上滚**，
    // 表现为内容往上漂、退出后画面错位。
    let a = about();
    for rows in [20usize, 30, 44] {
        let out = Screen {
            cols: 120, rows, facts: &[], input: &Editor::new(), status: "就绪",
            awaiting_input: false, show_cursor: false,
            about: Some(&a), trust: None,
            theme: ThemeName::OpenCode, popup: None, preformatted: None,
            sidebar: true,
            view: None, color: ColorMode::TrueColor,
        }
        .render();
        let newlines = out.matches('\n').count();
        assert!(
            newlines <= rows,
            "rows={rows} 却写了 {newlines} 个换行（>rows 会逐帧滚屏）"
        );
    }
}

#[test]
fn no_line_exceeds_the_terminal_width_even_with_sidebar() {
    // 行超宽会让终端**折行 → 滚屏**，在备用屏里表现为"退出后残留"。
    // 这是网格模型的根本约束，必须覆盖侧栏 + 长内容 + 窄宽度的组合。
    let facts = vec![
        Fact::UserSaid("看下 @src/main.rs 这个文件".into()),
        Fact::AssistantSaid(
            "# 标题\n\n很长的正文，包含中文与 emoji 🚀 以及 `inline code` 与\n\n```rust\nfn main() { println!(\"hi\"); }\n```".into(),
        ),
        Fact::TodoList(vec![
            TodoEntry { content: "一项非常非常非常非常非常非常长的任务描述".into(), status: TodoStatus::InProgress },
        ]),
        Fact::FilesChanged(vec![
            FileChange { path: "src/very/deeply/nested/module/with/long/name/file.rs".into(), additions: 123, deletions: 45 },
        ]),
        Fact::PatchPreview { path: "a.txt".into(), diff: "--- a/a.txt\n+++ b/a.txt\n@@ -1 +1 @@\n-x\n+y".into() },
        Fact::ApprovalNeeded { detail: "写入类调用需确认".into() },
        Fact::Failed("一段很长的错误信息，用于测试右侧面板与正文的边界情况".into()),
        Fact::TurnFinished { input_tokens: 123456, output_tokens: 7890 },
    ];
    for cols in [96usize, 100, 120, 150, 200, 260] {
        for rows in [20usize, 40, 60] {
            let a = About { context_limit: 64_000, ..about() };
            let out = Screen {
                cols, rows, facts: &facts, input: &Editor::from_text("输入中文测试"), status: "就绪",
                awaiting_input: true, show_cursor: true,
                about: Some(&a), trust: None,
                theme: ThemeName::OpenCode, popup: None, preformatted: None,
                sidebar: true,
                view: None, color: ColorMode::TrueColor,
            }
            .render();
            for (i, l) in plain(&out).iter().enumerate() {
                let w = display_width(l);
                assert!(
                    w <= cols,
                    "{cols}x{rows} 第 {i} 行宽 {w} 超过 {cols}（会折行→滚屏）：{l:?}"
                );
            }
        }
    }
}

#[test]
fn popup_lines_also_stay_within_width() {
    // 弹窗同理：它在窄终端里最容易超宽
    let a = about();
    for cols in [96usize, 110, 140] {
        let mut p = popup::Popup::new(popup::Kind::Slash, "");
        p.set_items(popup::slash_items(""), false);
        let out = Screen {
            cols, rows: 40, facts: &[], input: &Editor::from_text("/"), status: "",
            awaiting_input: false, show_cursor: false,
            about: Some(&a), trust: None,
            theme: ThemeName::OpenCode, popup: Some(&p), preformatted: None,
            sidebar: true,
            view: None, color: ColorMode::TrueColor,
        }
        .render();
        for (i, l) in plain(&out).iter().enumerate() {
            let w = display_width(l);
            assert!(w <= cols, "{cols} 第 {i} 行宽 {w} 超宽：{l:?}");
        }
    }
}

#[test]
fn sidebar_shows_todo_and_modified_files() {
    let facts = vec![
        Fact::TodoList(vec![
            TodoEntry { content: "写测试".into(), status: TodoStatus::Completed },
            TodoEntry { content: "改文档".into(), status: TodoStatus::InProgress },
            TodoEntry { content: "发版".into(), status: TodoStatus::Pending },
        ]),
        Fact::FilesChanged(vec![
            FileChange { path: "src/main.rs".into(), additions: 12, deletions: 3 },
        ]),
    ];
    let text = plain(&sidebar_screen(120, &facts, true)).join("\n");
    assert!(text.contains("Todo 1/3"), "应有清单进度：{text}");
    assert!(text.contains("写测试"), "应列出清单项：{text}");
    assert!(text.contains("Modified Files"), "应有已修改文件面板：{text}");
    assert!(text.contains("src/main.rs"), "应列出文件名：{text}");
    assert!(text.contains("+12"), "应显示新增行数：{text}");
}

#[test]
fn sidebar_can_be_turned_off_and_hides_on_narrow_terminals() {
    let facts = vec![Fact::FilesChanged(vec![
        FileChange { path: "a.rs".into(), additions: 1, deletions: 0 },
    ])];
    let off = plain(&sidebar_screen(120, &facts, false)).join("\n");
    assert!(!off.contains("Modified Files"), "关闭后不该有侧栏：{off}");

    // 窄终端：即使 sidebar=true 也必须隐藏（否则正文被挤到不可读）
    let narrow = plain(&sidebar_screen(60, &facts, true)).join("\n");
    assert!(!narrow.contains("Modified Files"), "窄终端不该显示侧栏：{narrow}");
}

#[test]
fn sidebar_omits_the_context_percentage_when_limit_is_unknown() {
    // 上限未知时给百分比等于编数字；宁可不显示
    let a = About { context_limit: 0, ..about() };
    let facts = vec![Fact::TurnFinished { input_tokens: 100, output_tokens: 20 }];
    let out = Screen {
        cols: 120, rows: 30, facts: &facts, input: &Editor::new(), status: "",
        awaiting_input: false, show_cursor: false,
        about: Some(&a), trust: None,
        theme: ThemeName::OpenCode, popup: None, preformatted: None,
        sidebar: true,
        view: None, color: ColorMode::TrueColor,
    }.render();
    let text = plain(&out).join("\n");
    assert!(text.contains("上限未知"), "应说明上限未知：{text}");
    assert!(!text.contains("% of"), "不得编造百分比：{text}");
}

#[test]
fn sidebar_context_percentage_reflects_usage() {
    let a = About { context_limit: 1000, ..about() };
    let facts = vec![Fact::TurnFinished { input_tokens: 800, output_tokens: 100 }];
    let out = Screen {
        cols: 120, rows: 30, facts: &facts, input: &Editor::new(), status: "",
        awaiting_input: false, show_cursor: false,
        about: Some(&a), trust: None,
        theme: ThemeName::OpenCode, popup: None, preformatted: None,
        sidebar: true,
        view: None, color: ColorMode::TrueColor,
    }.render();
    assert!(plain(&out).join("\n").contains("90% of 1000"), "占用率应为 90%");
}

#[test]
fn assistant_markdown_is_rendered_not_dumped() {
    let facts = vec![Fact::AssistantSaid(
        "## 标题\n\n- 一件\n- 两件\n\n```rust\nlet x = 1;\n```".into(),
    )];
    let text = plain(&screen(90, 30, &facts, "", "")).join("\n");
    assert!(text.contains("标题") && !text.contains("## 标题"), "标题标记应剥掉：{text}");
    assert!(text.contains("• 一件"), "列表应换成圆点：{text}");
    assert!(text.contains("let x = 1;"), "代码块内容应保留：{text}");
}

#[test]
fn user_message_keeps_its_bar_after_markdown() {
    let facts = vec![Fact::UserSaid("看下 `src/main.rs`".into())];
    let text = plain(&screen(80, 20, &facts, "", "")).join("\n");
    assert!(text.contains('┃'), "用户消息应保留竖条：{text}");
    assert!(text.contains("src/main.rs"), "内容应保留：{text}");
}

#[test]
fn sidebar_does_not_swallow_body_text() {
    // 侧栏 + 长正文：正文必须完整可见（不能被裁掉或与侧栏重叠）
    let facts = vec![Fact::AssistantSaid("正文内容在这里".repeat(3))];
    let text = plain(&sidebar_screen(120, &facts, true)).join("\n");
    assert!(text.contains("正文内容在这里"), "正文必须可见：{text}");
}

#[test]
fn switching_theme_changes_rendered_colors() {
    // 换主题必须真的改变输出色值，而不是只改了个名字
    let a = about();
    let render = |t: ThemeName| {
        Screen {
            cols: 80, rows: 20, facts: &[], input: &Editor::new(), status: "",
            awaiting_input: false, show_cursor: false,
            about: Some(&a), trust: None,
            theme: t, popup: None, preformatted: None, sidebar: false,
            view: None, color: color_mode_of(false, Some("truecolor"), ""),
        }
        .render()
    };
    let oc = render(ThemeName::OpenCode);
    let nord = render(ThemeName::Nord);
    assert_ne!(oc, nord, "换主题后渲染色值应不同");
    // opencode 主色 #fab283；nord 主色 #88c0d0
    assert!(oc.contains("38;2;250;178;131"), "opencode 主色应为 #fab283");
    assert!(nord.contains("38;2;136;192;208"), "nord 主色应为 #88c0d0");
}

#[test]
fn popup_shrinks_to_fit_instead_of_disappearing() {
    // 矮终端下弹窗装不下时，必须**收缩**而不是不画 ——
    // 不画的话用户按了 `/` 什么都没出现，看起来像功能坏了。
    let a = about();
    let ed = Editor::new();
    let mut p = popup::Popup::new(popup::Kind::Slash, "");
    p.set_items(popup::slash_items(""), false);
    let (out, _) = Screen {
        cols: 100, rows: 14, facts: &[], input: &ed, status: "",
        awaiting_input: false, show_cursor: false,
        about: Some(&a), trust: None,
        theme: ThemeName::Neo, popup: Some(&p), preformatted: None,
        sidebar: false, view: None, color: ColorMode::TrueColor,
    }
    .render_with_regions();
    let text = plain(&out).join("\n");
    assert!(text.contains('╭'), "矮终端也必须画出弹窗：{text}");
    assert!(text.contains("命令"), "至少应显示标题：{text}");
}

#[test]
fn wheel_scrolls_the_transcript() {
    let r = regions_for(140, 30, None);
    assert_eq!(
        hit_test(&r, &ev(Button::WheelUp, 20, 10, true), None, true),
        Some(MouseAction::ScrollTranscript(true))
    );
    assert_eq!(
        hit_test(&r, &ev(Button::WheelDown, 20, 10, true), None, true),
        Some(MouseAction::ScrollTranscript(false))
    );
}

#[test]
fn release_events_do_nothing() {
    // 终端把一次点击拆成按下+释放；两边都处理会让动作执行两次
    let r = regions_for(140, 30, None);
    assert_eq!(hit_test(&r, &ev(Button::Left, 20, 10, false), None, true), None);
}

#[test]
fn clicking_inside_the_input_box_focuses_it() {
    let cols = 140usize;
    let r = regions_for(cols, 30, None);
    let (l, rr, top, bottom) = r.input_box.expect("应有输入框区域");
    // 取输入框正中
    let x = (l + rr) / 2;
    let y = (top + bottom) / 2;
    assert_eq!(
        hit_test(&r, &ev(Button::Left, x, y, true), None, true),
        Some(MouseAction::FocusInput)
    );
}

#[test]
fn clicking_the_sidebar_toggles_it() {
    let r = regions_for(140, 30, None);
    let (x0, x1, _, _) = r.sidebar.expect("宽终端应有侧栏");
    let x = (x0 + x1) / 2;
    assert_eq!(
        hit_test(&r, &ev(Button::Left, x, 5, true), None, true),
        Some(MouseAction::ToggleSidebar)
    );
}

#[test]
fn a_hidden_sidebar_leaves_a_clickable_grip() {
    // 没有把手的话，鼠标用户点收起后**再也点不开**（陷阱）
    let a = about();
    let ed = Editor::new();
    let (_, r) = Screen {
        cols: 140, rows: 30, facts: &[], input: &ed, status: "",
        awaiting_input: false, show_cursor: false,
        about: Some(&a), trust: None,
        theme: ThemeName::Neo, popup: None, preformatted: None,
        sidebar: false, view: None, color: ColorMode::TrueColor,
    }
    .render_with_regions();
    let (gx, gy) = r.sidebar_grip.expect("侧栏收起时应留一个把手");
    assert!(r.sidebar.is_none(), "收起时不该有侧栏区域");
    assert_eq!(
        hit_test(&r, &ev(Button::Left, gx, gy, true), None, false),
        Some(MouseAction::ToggleSidebar),
        "点把手应能展开侧栏"
    );
}

#[test]
fn clicking_a_popup_row_selects_that_item() {
    let mut p = popup::Popup::new(popup::Kind::Slash, "");
    p.set_items(popup::slash_items(""), false);
    let r = regions_for(140, 30, Some(&p));
    assert!(!r.popup_items.is_empty(), "应记录弹窗候选行");
    // 点第二项
    let ((y, x0, x1), index) = r.popup_items[1];
    let got = hit_test(
        &r,
        &ev(Button::Left, (x0 + x1) / 2, y + 1, true),
        Some(&p),
        true,
    );
    assert_eq!(got, Some(MouseAction::SelectPopup(index)));
    assert_eq!(index, 1, "第二个候选的下标应为 1");
}

#[test]
fn popup_takes_priority_over_the_input_box() {
    // 弹窗盖在正文与输入框上方，点击必须优先给弹窗
    let mut p = popup::Popup::new(popup::Kind::Slash, "");
    p.set_items(popup::slash_items(""), false);
    let r = regions_for(140, 30, Some(&p));
    let ((y, x0, x1), _) = r.popup_items[0];
    let got = hit_test(
        &r,
        &ev(Button::Left, (x0 + x1) / 2, y + 1, true),
        Some(&p),
        true,
    );
    assert!(matches!(got, Some(MouseAction::SelectPopup(_))), "应选中弹窗项：{got:?}");
}

#[test]
fn narrow_terminals_have_no_sidebar_region() {
    // 窄终端隐藏侧栏 → 不该有点击侧栏的区域（否则点在正文会切换侧栏）
    let r = regions_for(80, 30, None);
    assert!(r.sidebar.is_none(), "窄终端不该有侧栏区域");
    // 点在右侧应是空白/转录，而不是 ToggleSidebar
    let got = hit_test(&r, &ev(Button::Left, 75, 15, true), None, true);
    assert_ne!(got, Some(MouseAction::ToggleSidebar));
}

#[test]
fn scrolled_view_shows_earlier_content() {
    // 长转录：贴底时看不到开头，上滚后应能看到
    let facts: Vec<Fact> =
        (0..60).map(|i| Fact::AssistantSaid(format!("内容{i}"))).collect();
    let a = about();
    let mut v = TranscriptView::new();
    let mk = |v: &TranscriptView| {
        Screen {
            cols: 100, rows: 20, facts: &facts, input: &Editor::new(),
            status: "", awaiting_input: false, show_cursor: false,
            about: Some(&a), trust: None,
            theme: ThemeName::Neo, popup: None, preformatted: None,
            sidebar: false, view: Some(v), color: ColorMode::TrueColor,
        }
        .render()
    };
    let bottom = plain(&mk(&v)).join("\n");
    assert!(bottom.contains("内容59"), "贴底应显示最新：{bottom}");
    // 上滚
    v.scroll_up(200, 200, 15);
    let top = plain(&mk(&v)).join("\n");
    assert!(top.contains("内容0"), "上滚后应能看到开头：{top}");
    assert!(!top.contains("内容59"), "上滚后不该还显示末尾");
}

#[test]
fn scrolled_view_reports_remaining_lines_below() {
    // 不在底部时必须提示"下方还有内容"，否则用户以为到底了
    let facts: Vec<Fact> =
        (0..40).map(|i| Fact::AssistantSaid(format!("行{i}"))).collect();
    let a = about();
    let mut v = TranscriptView::new();
    v.scroll_up(10, 80, 15);
    let out = Screen {
        cols: 100, rows: 20, facts: &facts, input: &Editor::new(),
        status: "", awaiting_input: false, show_cursor: false,
        about: Some(&a), trust: None,
        theme: ThemeName::Neo, popup: None, preformatted: None,
        sidebar: false, view: Some(&v), color: ColorMode::TrueColor,
    }
    .render();
    assert!(plain(&out).join("\n").contains("下方还有"), "应提示下方还有内容");
}

#[test]
fn search_marks_hits_and_moves_the_view() {
    let facts: Vec<Fact> =
        (0..50).map(|i| Fact::AssistantSaid(format!("第{i}条"))).collect();
    let a = about();
    let mut v = TranscriptView::new();
    let ls = searchable_lines(&facts, 100);
    v.set_search(&ls, "第7条");
    let n = v.search().map(|s| s.hits.len()).unwrap_or(0);
    assert_eq!(n, 1, "「第7条」应恰好命中一条");
    v.search_step(false, ls.len(), 15);
    let out = Screen {
        cols: 100, rows: 20, facts: &facts, input: &Editor::new(),
        status: "", awaiting_input: false, show_cursor: false,
        about: Some(&a), trust: None,
        theme: ThemeName::Neo, popup: None, preformatted: None,
        sidebar: false, view: Some(&v), color: ColorMode::TrueColor,
    }
    .render();
    let t = plain(&out).join("\n");
    assert!(t.contains("第7条"), "命中行应进入视野：{t}");
    assert!(t.contains('▶'), "当前命中应有标记：{t}");
}

#[test]
fn searchable_lines_reflect_what_is_on_screen() {
    // 搜索必须匹配**屏幕上可见的文字**，而不是 Debug 输出里的枚举名
    let facts = vec![Fact::AssistantSaid("代码里有个函数 foo_bar".into())];
    let ls = searchable_lines(&facts, 80).join("\n");
    assert!(ls.contains("foo_bar"), "应能搜到正文内容");
    assert!(!ls.contains("AssistantSaid"), "不该把枚举名纳入搜索：{ls}");
}

#[test]
fn input_box_grows_with_multiline_content() {
    // 贴多行内容时输入框必须长高，且每行都完整显示（不截断中间行）
    let a = about();
    let ed = Editor::from_text("第一行\n第二行\n第三行");
    let out = Screen {
        cols: 120, rows: 30, facts: &[], input: &ed, status: "就绪",
        awaiting_input: false, show_cursor: true,
        about: Some(&a), trust: None,
        theme: ThemeName::Neo, popup: None, preformatted: None,
        sidebar: false,
        view: None, color: ColorMode::TrueColor,
    }
    .render();
    let text = plain(&out).join("\n");
    for needle in ["第一行", "第二行", "第三行"] {
        assert!(text.contains(needle), "多行内容应全部显示，缺 {needle}：{text}");
    }
}

#[test]
fn overlong_input_scrolls_to_the_cursor_line() {
    // 超过上限时显示**末尾**（光标总在可见区），并如实标注总行数
    let a = about();
    let text: String = (0..20).map(|i| format!("line{i}\n")).collect();
    let ed = Editor::from_text(text.trim_end());
    let out = Screen {
        cols: 120, rows: 40, facts: &[], input: &ed, status: "",
        awaiting_input: false, show_cursor: true,
        about: Some(&a), trust: None,
        theme: ThemeName::Neo, popup: None, preformatted: None,
        sidebar: false,
        view: None, color: ColorMode::TrueColor,
    }
    .render();
    let t = plain(&out).join("\n");
    assert!(t.contains("line19"), "应显示末尾（光标所在）行：{t}");
    assert!(t.contains("共 20 行"), "应如实标注总行数：{t}");
}

#[test]
fn multiline_input_keeps_lines_within_width() {
    // 行宽不变量在多行输入下同样成立（否则折行会滚屏）
    let a = about();
    let long = "很长的中文输入行".repeat(10);
    let ed = Editor::from_text(&format!("{long}\n{}", "x".repeat(300)));
    for cols in [96usize, 120, 200] {
        let out = Screen {
            cols, rows: 30, facts: &[], input: &ed, status: "",
            awaiting_input: false, show_cursor: true,
            about: Some(&a), trust: None,
            theme: ThemeName::Neo, popup: None, preformatted: None,
            sidebar: true,
            view: None, color: ColorMode::TrueColor,
        }
        .render();
        for (i, l) in plain(&out).iter().enumerate() {
            let w = display_width(l);
            assert!(w <= cols, "{cols} 第 {i} 行宽 {w} 超宽：{l:?}");
        }
    }
}

#[test]
fn cursor_is_positioned_at_the_editors_cursor_not_the_end() {
    // 光标必须落在编辑器的实际光标处。若仍按"文本末尾"算，
    // 在中间编辑时光标会跑到别处，用户以为敲不进去。
    let a = about();
    let mut ed = Editor::from_text("abcdef");
    ed.move_home();
    ed.move_right();
    ed.move_right();
    let out = Screen {
        cols: 100, rows: 24, facts: &[], input: &ed, status: "",
        awaiting_input: false, show_cursor: true,
        about: Some(&a), trust: None,
        theme: ThemeName::Neo, popup: None, preformatted: None,
        sidebar: false,
        view: None, color: ColorMode::TrueColor,
    }
    .render();
    // 提取光标定位序列 ESC[<row>;<col>H（渲染尾部还有 ?25h 之类，需精确匹配）
    let positions: Vec<usize> = out
        .split("\u{1b}[")
        .filter_map(|seg| {
            let digits: String =
                seg.chars().take_while(|c| c.is_ascii_digit() || *c == ';').collect();
            if !seg[digits.len()..].starts_with('H') || !digits.contains(';') {
                return None;
            }
            digits.split(';').nth(1).and_then(|s| s.parse::<usize>().ok())
        })
        .collect();
    let col = *positions.last().expect("应有光标定位序列 ESC[<row>;<col>H");
    // 光标应在第 3 个字符之后（col 2）→ 屏幕列 = 左边框位置 + 3
    assert!(col > 3, "光标应随编辑器光标移动（实际列 {col}）");
}

#[test]
fn every_rendered_line_is_exactly_cols_wide() {
    // 网格模型的**根本约束**：每行都必须恰好 cols 列。
    // 少一列 → 上一帧残留；多一列 → 换行错位、整屏滚动。
    // 宽字符（中文/emoji）是最容易破坏这条的地方。
    for (cols, rows) in [(40usize, 12usize), (80, 24), (120, 40), (28, 10)] {
        let a = about();
        let facts = vec![
            Fact::UserSaid("中文消息测试宽字符对齐".into()),
            Fact::AssistantSaid("这是助手的回答，也包含中文与 emoji 🚀".into()),
            Fact::ToolFinished { name: "bash".into(), exit_code: 0 },
        ];
        let out = Screen {
            cols, rows, facts: &facts, input: &Editor::from_text("输入中文"), status: "就绪",
            awaiting_input: false, show_cursor: false, about: Some(&a), trust: None,
            theme: ThemeName::OpenCode, popup: None, preformatted: None, sidebar: false,
            view: None, color: ColorMode::TrueColor,
        }
        .render();
        for (i, line) in plain(&out).iter().enumerate() {
            let w = display_width(line);
            assert!(w <= cols, "{cols}x{rows} 第 {i} 行宽 {w} 超过 {cols}：{line:?}");
        }
    }
}

#[test]
fn transcript_scrolls_to_show_the_latest() {
    let facts = vec![
        Fact::AssistantSaid("line1".into()),
        Fact::AssistantSaid("line2".into()),
        Fact::AssistantSaid("line3".into()),
    ];
    let out = screen(40, 12, &facts, "", "s");
    let text = plain(&out).join("\n");
    assert!(text.contains("line3"), "应显示最新内容：{text}");
}

#[test]
fn user_message_is_visible_and_marked() {
    let facts = vec![
        Fact::UserSaid("列一下文件".into()),
        Fact::AssistantSaid("好的".into()),
    ];
    let text = plain(&screen(60, 20, &facts, "", "s")).join("\n");
    assert!(text.contains("列一下文件"), "用户消息必须可见：{text}");
    assert!(text.contains('┃'), "用户消息应带左侧竖条：{text}");
    assert!(text.contains("好的"), "助手正文必须可见：{text}");
}

#[test]
fn tool_success_and_failure_are_distinguishable() {
    let ok = [Fact::ToolFinished { name: "bash".into(), exit_code: 0 }];
    let bad = [Fact::ToolFinished { name: "bash".into(), exit_code: 1 }];
    let a = plain(&screen(60, 12, &ok, "", "s")).join("\n");
    let b = plain(&screen(60, 12, &bad, "", "s")).join("\n");
    assert!(a.contains('✓'), "成功应显示 ✓：{a}");
    assert!(b.contains('✗'), "失败应显示 ✗：{b}");
}

#[test]
fn welcome_is_centered_not_left_aligned() {
    // MiMo 的首页是**居中**构图，不是左对齐 —— 这是本轮对标的重点
    let text = plain(&welcome(100, 30)).join("\n");
    let logo_line = plain(&welcome(100, 30))
        .into_iter()
        .find(|l| l.contains('█'))
        .expect("应有大 logo");
    let lead = logo_line.chars().take_while(|c| *c == ' ').count();
    assert!(lead > 20, "logo 应居中（左侧留白 {lead} 偏少）：{logo_line:?}");
    assert!(text.contains("Neo"), "应显示品牌名：{text}");
}

#[test]
fn welcome_shows_injected_session_info() {
    let text = plain(&welcome(100, 34)).join("\n");
    for needle in ["mock", "/tmp/ws", "main", "0.1.0", "neo-tui"] {
        assert!(text.contains(needle), "首屏应显示 {needle}：{text}");
    }
}

#[test]
fn welcome_includes_an_input_box() {
    // 输入框是首页的主体，必须有边框与占位提示
    let text = plain(&welcome(90, 30)).join("\n");
    assert!(text.contains('╭'), "应有输入框上边框：{text}");
    assert!(text.contains("输入任务"), "应有占位提示：{text}");
    assert!(text.contains("修一下代码里的 TODO"), "占位应带一个具体示例：{text}");
    assert!(text.contains("default ⏵ mock"), "输入框内应有模式/模型状态行：{text}");
}

#[test]
fn welcome_degrades_on_small_terminals() {
    // 小终端必须降级而不是把内容裁掉（裁剪会从顶部裁，最难看）
    let text = plain(&welcome(30, 10)).join("\n");
    assert!(text.contains("Neo"), "小终端仍要显示品牌：{text}");
    assert!(!text.contains('█'), "小终端不该硬塞大 logo：{text}");
}

#[test]
fn starfield_appears_but_never_covers_content() {
    // 星场是背景：必须出现，且**绝不能**盖掉正文/输入框
    let facts = vec![Fact::AssistantSaid("正文内容".into())];
    let out = screen(100, 24, &facts, "我的输入", "就绪");
    let text = plain(&out).join("\n");
    assert!(text.contains('·') || text.contains('+'), "应出现星场：{text}");
    assert!(text.contains("正文内容"), "星场不得覆盖正文：{text}");
    assert!(text.contains("我的输入"), "星场不得覆盖输入：{text}");
    // 输入框边框必须完整可见
    assert!(text.contains('╭') && text.contains('╯'), "输入框边框应完整：{text}");
}

#[test]
fn rendering_is_deterministic_across_frames() {
    // 每帧重画整屏；若星位随机，画面会闪成噪点。必须逐字节一致。
    //
    // 这里**必须锁环境**：颜色档位来自进程级 env，并行的 env 测试
    // 若在两次渲染之间改掉 COLORTERM，两次的颜色转义就不同 ——
    // 那是测试自己引入的抖动，不是星场在闪（星位由位置哈希决定，本就稳定）。
    let (a, b) = (welcome(90, 26), welcome(90, 26));
    assert_eq!(a, b, "同一状态两次渲染必须完全一致（否则星场在闪）");

    // 再单独断言"星位本身"稳定：与颜色无关的部分（剥掉转义）也必须一致
    let (c, d) = (plain(&welcome(90, 26)), plain(&welcome(90, 26)));
    assert_eq!(c, d, "剥掉颜色后星位也必须逐行一致");
}

#[test]
fn hints_do_not_advertise_unimplemented_keys() {
    // 提示行只能列真正可用的键 —— 按了没反应比不提示更糟
    let text = plain(&welcome(110, 30)).join("\n");
    // 提示行只放最高频的几个键（完整键位在 /keys）
    assert!(text.contains("tab 补全"), "应提示补全：{text}");
    assert!(text.contains("ctrl+f"), "应提示搜索：{text}");
    assert!(text.contains("@ 引用"), "应提示引用：{text}");
    assert!(text.contains("pgup"), "应提示滚动：{text}");
    // 未实现的对话框类命令不得出现
    for bad in ["/themes", "/details", "/thinking"] {
        assert!(!text.contains(bad), "不得提示未实现的 {bad}：{text}");
    }
}

#[test]
fn trust_prompt_warns_about_workspace_risk() {
    let a = about();
    let out = Screen {
        cols: 100, rows: 30, facts: &[], input: &Editor::new(), status: "",
        awaiting_input: false, show_cursor: false,
        about: Some(&a), trust: Some(&TrustPrompt::default()),
        theme: ThemeName::OpenCode, popup: None, preformatted: None, sidebar: false,
        view: None, color: ColorMode::TrueColor,
    }
    .render();
    let text = plain(&out).join("\n");
    assert!(text.contains("访问工作区"), "应说明访问哪个目录：{text}");
    assert!(text.contains("/tmp/ws"), "应显示具体路径：{text}");
    assert!(text.contains("恶意"), "必须说明最坏情况：{text}");
    assert!(text.contains("是的，我信任此目录"), "应有肯定选项：{text}");
    assert!(text.contains("否，退出"), "应有否定选项：{text}");
}

#[test]
fn trust_prompt_marks_the_selected_option() {
    let a = about();
    let render_with = |sel: usize| {
        let out = Screen {
            cols: 100, rows: 30, facts: &[], input: &Editor::new(), status: "",
            awaiting_input: false, show_cursor: false,
            about: Some(&a), trust: Some(&TrustPrompt { selected: sel }),
            theme: ThemeName::OpenCode, popup: None, preformatted: None, sidebar: false,
            view: None, color: ColorMode::TrueColor,
        }
        .render();
        plain(&out).join("\n")
    };
    // 只看**选项那一行**的前缀：标题行"● 访问工作区"里也有 ●，
    // 全局 find('●') 会一直命中的是第一行，断言就失去意义
    // 选项行形如 "┃   ● 是的，我信任此目录" —— 竖条在左，
    // 所以要先剔掉非标记字符，再看第一个可见符号是 ● 还是 ○
    let option_line = |t: &str, label: &str| -> String {
        let line = t
            .lines()
            .find(|l| l.contains(label))
            .unwrap_or_else(|| panic!("找不到选项「{label}」"));
        line.trim_matches(|c: char| c == '┃' || c.is_whitespace()).to_string()
    };
    let first = render_with(0);
    let second = render_with(1);
    assert!(
        option_line(&first, "是的，我信任此目录").starts_with('●'),
        "选中第一项时它应是实心 ●：{first}"
    );
    assert!(
        option_line(&first, "否，退出").starts_with('○'),
        "未选中的第二项应是空心 ○：{first}"
    );
    assert!(
        option_line(&second, "否，退出").starts_with('●'),
        "切换后第二项应变为实心 ●：{second}"
    );
}

#[test]
fn no_color_env_disables_all_coloring() {
    let facts = [Fact::UserSaid("hi".into()), Fact::AssistantSaid("yo".into())];
    let out = screen_in(60, 16, &facts, "x", "s", color_mode_of(true, None, "xterm-256color"));
    let mut it = out.chars().peekable();
    let mut kept = Vec::new();
    while let Some(c) = it.next() {
        if c == '\u{1b}' && it.peek() == Some(&'[') {
            it.next();
            let mut seq = String::new();
            while let Some(&n) = it.peek() {
                if ('\u{30}'..='\u{3f}').contains(&n) || ('\u{20}'..='\u{2f}').contains(&n) {
                    it.next();
                    seq.push(n);
                } else {
                    break;
                }
            }
            if let Some(&n) = it.peek() {
                if ('\u{40}'..='\u{7e}').contains(&n) {
                    it.next();
                    seq.push(n);
                }
            }
            kept.push(seq);
        }
    }
    let sgr: Vec<&String> = kept.iter().filter(|x| x.ends_with('m')).collect();
    assert!(sgr.is_empty(), "NO_COLOR 下不应有 SGR 颜色序列：{sgr:?}");
}

#[test]
fn approval_state_changes_the_box_border_color() {
    // 待审批是"现在必须由你决定"的时刻；边框变色是余光可见的提示
    let a = about();
    let render_with = |awaiting: bool| {
        Screen {
            cols: 80, rows: 20, facts: &[], input: &Editor::new(), status: "",
            awaiting_input: awaiting, show_cursor: false,
            about: Some(&a), trust: None,
            theme: ThemeName::OpenCode, popup: None, preformatted: None,
            sidebar: false,
            view: None, color: color_mode_of(false, Some("truecolor"), ""),
        }
        .render()
    };
    let (idle, pending) = (render_with(false), render_with(true));
    // 空闲边框用 border_active(#606060)，审批用 warning(#f5a742)
    assert!(idle.contains("38;2;96;96;96"), "空闲边框应为 border_active");
    assert!(pending.contains("38;2;245;167;66"), "审批边框应为 warning 色");
}

#[test]
fn fact_lines_render_each_fact() {
    let facts = vec![
        Fact::ToolFinished { name: "bash".into(), exit_code: -1 },
        Fact::TurnFinished { input_tokens: 12, output_tokens: 3 },
        Fact::FilesChanged(vec![
            FileChange { path: "a.rs".into(), additions: 2, deletions: 1 },
            FileChange { path: "b.rs".into(), additions: 5, deletions: 0 },
        ]),
        Fact::ApprovalNeeded { detail: "写文件".into() },
        Fact::Failed("坏了".into()),
        Fact::SessionReady { session_id: "s1".into() },
        Fact::TodoList(vec![
            TodoEntry { content: "写测试".into(), status: TodoStatus::Completed },
            TodoEntry { content: "发版".into(), status: TodoStatus::Pending },
        ]),
        Fact::PatchPreview { path: "a.txt".into(), diff: "@@ -1 +1 @@\n-x\n+y\n ctx".into() },
    ];
    let ls = neo::screen::fact_lines(&facts, 40);
    let texts: Vec<Vec<(usize, String, Tone)>> = ls.clone();
    assert_eq!(texts[0], vec![(2, "✗ ".to_string(), Tone::Error), (4, "bash".to_string(), Tone::Text), (9, "exit -1".to_string(), Tone::Muted)]);
    assert_eq!(texts[1], vec![(2, "· 12 in / 3 out".to_string(), Tone::Muted)]);
    assert_eq!(texts[2], vec![(2, "◆ 已修改 2 个文件（+7 -1）".to_string(), Tone::Info)]);
    assert_eq!(texts[3], vec![(2, "△ 需要审批：写文件".to_string(), Tone::Warning)]);
    assert_eq!(texts[4], vec![(2, "✗ 坏了".to_string(), Tone::Error)]);
    assert_eq!(texts[5], vec![(2, "· 会话 s1".to_string(), Tone::Muted)]);
    assert_eq!(texts[6], vec![(2, "◇ 任务清单 1/2".to_string(), Tone::Info)]);
    assert_eq!(texts[7], vec![(4, "[✓] 写测试".to_string(), Tone::Success)]);
    assert_eq!(texts[8], vec![(4, "[ ] 发版".to_string(), Tone::Muted)]);
    assert_eq!(texts[9], vec![(2, "◆ a.txt".to_string(), Tone::Info)]);
    assert_eq!(texts[10], vec![(4, "@@ -1 +1 @@".to_string(), Tone::Accent)]);
    assert_eq!(texts[11], vec![(4, "-x".to_string(), Tone::Error)]);
    assert_eq!(texts[12], vec![(4, "+y".to_string(), Tone::Success)]);
    assert_eq!(texts[13], vec![(4, " ctx".to_string(), Tone::Muted)]);
    assert_eq!(texts.len(), 14);
}

#[test]
fn long_patches_are_cut_and_say_so() {
    let diff: String = (0..205).map(|i| format!("+l{i}\n")).collect();
    let facts = vec![Fact::PatchPreview { path: "p".into(), diff }];
    let ls = neo::screen::fact_lines(&facts, 80);
    assert_eq!(ls.len(), 1 + 200 + 1);
    assert_eq!(ls[201], vec![(4, "… 另有 5 行改动未展示".to_string(), Tone::Muted)]);
}

#[test]
fn user_lines_keep_the_bar_on_every_line() {
    let facts = vec![Fact::UserSaid("一\n\n二".into())];
    let ls = neo::screen::fact_lines(&facts, 40);
    for l in &ls[..ls.len() - 1] {
        assert_eq!(l[0], (0, "┃".to_string(), Tone::Accent));
        assert_eq!(l[1], (2, " ".to_string(), Tone::Text));
    }
    assert!(ls.last().unwrap().is_empty());
}

#[test]
fn hero_lines_degrade_by_tier() {
    let a = about();
    let ed = Editor::new();
    let s = Screen {
        cols: 100, rows: 30, facts: &[], input: &ed, status: "",
        awaiting_input: false, show_cursor: false, about: Some(&a), trust: None,
        theme: ThemeName::Neo, popup: None, preformatted: None, sidebar: false,
        view: None, color: ColorMode::TrueColor,
    };
    let full = s.hero_lines(&a, true, true, true, true);
    assert_eq!(full.len(), 6 + 1 + 2 + 1 + 1 + 1);
    assert_eq!(full[0].1, Tone::Rgb(0xa7, 0x8b, 0xfa));
    assert_eq!(full[5].1, Tone::Rgb(0xe8, 0x79, 0xf9));
    assert_eq!(full[11].0, "v0.1.0 · 会话 neo-tui");
    let bare = s.hero_lines(&a, false, false, false, false);
    let texts: Vec<&str> = bare.iter().map(|(t, _)| t.as_str()).collect();
    assert_eq!(texts, vec!["NEO", "Neo", " —— 编程 Agent 内核"]);
}

#[test]
fn a_frame_is_exactly_one_screenful() {
    let a = about();
    for rows in [1usize, 5, 20, 44] {
        let out = Screen {
            cols: 100, rows, facts: &[], input: &Editor::new(), status: "就绪",
            awaiting_input: false, show_cursor: true, about: Some(&a), trust: None,
            theme: ThemeName::Neo, popup: None, preformatted: None, sidebar: true,
            view: None, color: ColorMode::Ansi256,
        }
        .render();
        assert_eq!(out.matches('\n').count(), rows - 1, "rows={rows}");
        assert!(out.starts_with("\u{1b}[H\u{1b}[2J"));
    }
}

#[test]
fn popup_rows_report_the_drawn_geometry() {
    let a = about();
    let ed = Editor::from_text("/");
    let mut p = popup::Popup::new(popup::Kind::Slash, "");
    p.set_items(popup::slash_items(""), false);
    let s = Screen {
        cols: 100, rows: 30, facts: &[], input: &ed, status: "",
        awaiting_input: false, show_cursor: false, about: Some(&a), trust: None,
        theme: ThemeName::Neo, popup: Some(&p), preformatted: None, sidebar: false,
        view: None, color: ColorMode::NoColor,
    };
    assert_eq!(s.body_cols(), 100);
    assert_eq!(s.box_width(), 76);
    let rows = s.popup_item_rows(22);
    assert_eq!(rows.len(), 8);
    // eight items above a chrome at row 22: box of 2 + 8 rows ending one row above
    assert_eq!(rows[0], ((13, 12, 88), 0));
    assert_eq!(rows[7], ((20, 12, 88), 7));
}
