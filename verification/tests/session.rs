use neo::commands::Action;
use neo::mouse::{Button, MouseEvent};
use neo::popup::Kind;
use neo::session::{Frame, Outcome, Request, Session};
use neo::theme::ThemeName;
use neo::tui::{About, Key, Regions};

fn about() -> About {
    About {
        version: "0.1.0".into(),
        model: "mock".into(),
        mode: "Default".into(),
        mode_short: "default".into(),
        workspace: "/tmp/ws".into(),
        branch: "main".into(),
        example: "修一下代码里的 TODO".into(),
        context_limit: 64_000,
        session: "neo-tui".into(),
    }
}

fn frame() -> Frame {
    Frame { cols: 100, rows: 30, total: 0, body_total: 0, lines: Vec::new(), regions: Regions::default() }
}

fn type_text(s: &mut Session, text: &str) {
    for c in text.chars() {
        let k = Key::Char(c);
        if s.needs_files(k) && s.files.is_none() {
            s.set_files(vec!["src/main.rs".to_string(), "src/lib.rs".to_string(), "README.md".to_string()], false);
        }
        s.step(k, &frame(), &about());
    }
}

#[test]
fn a_new_session_is_ready_and_empty() {
    let s = Session::new(ThemeName::Neo);
    assert_eq!(s.status, "就绪");
    assert!(s.input.is_empty());
    assert!(s.sidebar_open);
    assert!(s.popup.is_none());
}

#[test]
fn slash_opens_the_command_list_and_escape_closes_it() {
    let mut s = Session::new(ThemeName::Neo);
    type_text(&mut s, "/");
    let p = s.popup.as_ref().expect("输入 / 应弹出命令列表");
    assert_eq!(p.kind, Kind::Slash);
    assert!(!p.items.is_empty());
    assert!(s.status.starts_with("命令 · "));
    let o = s.step(Key::Escape, &frame(), &about());
    assert_eq!(o, Outcome::Redraw);
    assert!(s.popup.is_none());
    assert_eq!(s.status, "已取消");
}

#[test]
fn at_sign_lists_files_once_and_filters_them() {
    let mut s = Session::new(ThemeName::Neo);
    assert!(!s.needs_files(Key::Char('x')));
    assert!(s.needs_files(Key::Char('@')));
    type_text(&mut s, "@lib");
    let p = s.popup.as_ref().expect("@ 应弹出文件列表");
    assert_eq!(p.kind, Kind::File);
    assert_eq!(p.query, "lib");
    assert_eq!(p.items[0].label, "src/lib.rs");
    // Enter takes the selected file into the input.
    let o = s.step(Key::Enter, &frame(), &about());
    assert_eq!(o, Outcome::Redraw);
    // the item carries its own `@`, which the completion keeps
    assert_eq!(s.input.text(), "@@src/lib.rs");
    assert_eq!(s.status, "已引用 @src/lib.rs");
}

#[test]
fn tab_completes_the_reference_and_reports_a_cut_listing() {
    let mut s = Session::new(ThemeName::Neo);
    s.input.set("看看 @mai");
    assert!(s.needs_files(Key::Tab));
    s.set_files(vec!["src/main.rs".to_string()], true);
    s.step(Key::Tab, &frame(), &about());
    assert_eq!(s.input.text(), "看看 @src/main.rs");
    assert_eq!(s.status, "补全：src/main.rs（候选已达上限，列表可能不完整）");
    assert_eq!(s.fresh_listing, None);
}

#[test]
fn a_task_is_submitted_with_a_working_status() {
    let mut s = Session::new(ThemeName::Neo);
    type_text(&mut s, "  修复测试 ");
    let o = s.step(Key::Enter, &frame(), &about());
    assert_eq!(
        o,
        Outcome::Submit {
            request: Request::Turn("  修复测试 ".to_string()),
            working: Some("运行中 · 修复测试".to_string()),
        }
    );
    assert!(s.input.is_empty());
    assert_eq!(s.history.entries(), &["修复测试".to_string()]);
    s.finish_request(&Request::Turn(String::new()), Some("call-7".to_string()));
    assert_eq!(s.outstanding.as_deref(), Some("call-7"));
    assert_eq!(s.status, "待审批 · y 批准 / n 拒绝");
}

#[test]
fn approval_answers_are_submitted_only_when_clear() {
    let mut s = Session::new(ThemeName::Neo);
    s.outstanding = Some("call-1".to_string());
    type_text(&mut s, "maybe");
    let o = s.step(Key::Enter, &frame(), &about());
    assert_eq!(o, Outcome::Redraw);
    assert_eq!(s.status, "请回答 y 或 n");
    assert_eq!(s.outstanding.as_deref(), Some("call-1"));
    type_text(&mut s, " Yes ");
    let o = s.step(Key::Enter, &frame(), &about());
    assert_eq!(
        o,
        Outcome::Submit { request: Request::Approve { id: "call-1".to_string(), allow: true }, working: None }
    );
    assert!(s.outstanding.is_none());
    s.finish_request(&Request::Approve { id: "call-1".to_string(), allow: true }, None);
    assert_eq!(s.status, "就绪");
}

#[test]
fn bang_runs_a_shell_command() {
    let mut s = Session::new(ThemeName::Neo);
    type_text(&mut s, "! ls -la ");
    let o = s.step(Key::Enter, &frame(), &about());
    assert_eq!(
        o,
        Outcome::Submit { request: Request::Shell("ls -la".to_string()), working: Some("执行：ls -la".to_string()) }
    );
    type_text(&mut s, "!   ");
    assert_eq!(s.step(Key::Enter, &frame(), &about()), Outcome::Redraw);
}

#[test]
fn slash_commands_run_without_the_model() {
    let mut s = Session::new(ThemeName::Neo);
    s.input.set("/help");
    let o = s.step(Key::Enter, &frame(), &about());
    assert_eq!(o, Outcome::Redraw);
    assert!(s.info.as_deref().unwrap_or("").contains("/help"));
    // any key closes the read-only screen
    assert_eq!(s.step(Key::Char('x'), &frame(), &about()), Outcome::Redraw);
    assert!(s.info.is_none());
    s.input.set("/frobnicate now");
    s.step(Key::Enter, &frame(), &about());
    assert_eq!(s.status, "未知命令：/frobnicate（输入 / 查看列表）");
    s.input.set("/new");
    assert_eq!(s.step(Key::Enter, &frame(), &about()), Outcome::Dispatch(Action::NewSessionReal));
    s.input.set("/quit");
    assert_eq!(s.step(Key::Enter, &frame(), &about()), Outcome::Quit);
}

#[test]
fn theme_keys_change_and_persist_the_theme() {
    let mut s = Session::new(ThemeName::Neo);
    let o = s.step(Key::NextTheme, &frame(), &about());
    assert_eq!(o, Outcome::SaveTheme(ThemeName::OpenCode));
    assert_eq!(s.status, "主题：opencode");
    s.input.set("/theme");
    s.step(Key::Enter, &frame(), &about());
    let p = s.popup.as_ref().expect("/theme 应打开主题选择");
    assert_eq!(p.kind, Kind::Theme);
    assert_eq!(s.status, "主题 · ↑↓ 选择，回车应用");
    s.step(Key::Down, &frame(), &about());
    let o = s.step(Key::Enter, &frame(), &about());
    assert!(matches!(o, Outcome::SaveTheme(_)));
    assert!(s.popup.is_none());
}

#[test]
fn sidebar_toggles_by_key_and_by_click() {
    let mut s = Session::new(ThemeName::Neo);
    s.step(Key::ToggleSidebar, &frame(), &about());
    assert!(!s.sidebar_open);
    assert_eq!(s.status, "侧栏已收起");
    let mut f = frame();
    f.regions.sidebar_grip = Some((100, 1));
    let click = MouseEvent { button: Button::Left, x: 100, y: 1, pressed: true, modified: false };
    s.step(Key::Mouse(click), &f, &about());
    assert!(s.sidebar_open);
    assert_eq!(s.status, "侧栏已展开");
    let release = MouseEvent { pressed: false, ..click };
    s.step(Key::Mouse(release), &f, &about());
    assert!(s.sidebar_open);
}

#[test]
fn search_mode_counts_hits_and_enter_confirms() {
    let mut s = Session::new(ThemeName::Neo);
    let mut f = frame();
    f.lines = vec!["alpha".into(), "beta".into(), "Alpha again".into()];
    f.total = 3;
    s.step(Key::Search, &f, &about());
    assert!(s.searching);
    assert_eq!(s.status, "搜索：输入关键词，回车确认，esc 取消");
    s.step(Key::Char('a'), &f, &about());
    s.step(Key::Char('l'), &f, &about());
    assert_eq!(s.status, "搜索「al」：2 处匹配（回车确认 · ctrl+n/ctrl+p 切换）");
    s.step(Key::Backspace, &f, &about());
    assert_eq!(s.status, "搜索「a」：3 处匹配");
    let o = s.step(Key::Enter, &f, &about());
    assert_eq!(o, Outcome::Redraw);
    assert!(!s.searching);
    assert!(s.input.is_empty());
    assert_eq!(s.status, "搜索「a」：3 处（ctrl+n 下一个 / ctrl+p 上一个）");
}

#[test]
fn history_walks_back_and_forth() {
    let mut s = Session::new(ThemeName::Neo);
    for line in ["one", "two"] {
        type_text(&mut s, line);
        s.step(Key::Enter, &frame(), &about());
    }
    s.step(Key::Up, &frame(), &about());
    assert_eq!(s.input.text(), "two");
    s.step(Key::Up, &frame(), &about());
    assert_eq!(s.input.text(), "one");
    s.step(Key::Down, &frame(), &about());
    assert_eq!(s.input.text(), "two");
    s.step(Key::Down, &frame(), &about());
    assert!(s.input.is_empty());
    assert!(!s.browsing);
    type_text(&mut s, "on");
    s.step(Key::SearchHistory, &frame(), &about());
    assert_eq!(s.input.text(), "one");
    assert_eq!(s.status, "历史搜索：on");
}

#[test]
fn paging_scrolls_half_a_screen() {
    let mut s = Session::new(ThemeName::Neo);
    let mut f = frame();
    f.total = 100;
    f.body_total = 100;
    s.step(Key::PageUp, &f, &about());
    // 30 rows less 6 rows of chrome: 24 rows of transcript, half is 12
    assert_eq!(s.view.offset(), 12);
    s.step(Key::ScrollToTop, &f, &about());
    assert_eq!(s.view.offset(), 76);
    s.step(Key::PageDown, &f, &about());
    assert_eq!(s.view.offset(), 64);
    s.step(Key::ScrollToBottom, &f, &about());
    assert_eq!(s.view.offset(), 0);
}

#[test]
fn external_editor_round_trip() {
    let mut s = Session::new(ThemeName::Neo);
    type_text(&mut s, "draft");
    assert_eq!(s.step(Key::ExternalEditor, &frame(), &about()), Outcome::EditExternally("draft".to_string()));
    s.external_edit_done(Some("line one\nline two\n\n".to_string()));
    assert_eq!(s.input.text(), "line one\nline two");
    assert_eq!(s.status, "已从外部编辑器取回内容");
    s.external_edit_done(None);
    assert_eq!(s.status, "外部编辑器未返回内容");
}

#[test]
fn quit_quits_from_every_screen() {
    let mut s = Session::new(ThemeName::Neo);
    assert_eq!(s.step(Key::Quit, &frame(), &about()), Outcome::Quit);
    type_text(&mut s, "/");
    assert_eq!(s.step(Key::Quit, &frame(), &about()), Outcome::Quit);
    s.info = Some("help".to_string());
    assert_eq!(s.step(Key::Quit, &frame(), &about()), Outcome::Quit);
}
