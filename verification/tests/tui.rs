use neo::commands;
use neo::editor;
use neo::mouse::{Button, MouseEvent};
use neo::popup;
use neo::theme;
use neo::tui::{
    apply_popup_item, chrome_rows, complete_at_token, at_query, decode_key, handle_trust_key,
    hit_test, idle_or_approval, parse_approval_answer, parse_terminal_size, pick_example_from,
    rgb_to_16, rgb_to_256, self_popup_context, truncate_left, wordmark, Effect, Key, MouseAction,
    Regions, TrustOutcome, TrustPrompt, MAX_INPUT_ROWS,
};
use neo::tui::{key_next, key_start, read_key_timeout, KeyStep};
use neo::width;

#[test]
fn decodes_basic_keys() {
    assert_eq!(decode_key(&[0x03]), Key::Quit);
    assert_eq!(decode_key(b"\r"), Key::Enter);
    assert_eq!(decode_key(&[0x7f]), Key::Backspace);
    assert_eq!(decode_key(b"a"), Key::Char('a'));
    assert_eq!(decode_key(&[0x1b, b'[', b'A']), Key::Up);
    assert_eq!(decode_key(&[0x1b, b'[', b'B']), Key::Down);
    // 单独 ESC 现在是"关弹窗"，必须是 Escape 而非 Unknown
    assert_eq!(decode_key(&[0x1b]), Key::Escape, "单独 ESC 应为 Escape");
    assert_eq!(decode_key(&[0x10]), Key::CommandPalette);
    assert_eq!(decode_key(&[0x14]), Key::NextTheme);
    assert_eq!(decode_key(&[0x1b, b'[', b'Z']), Key::Unknown, "未支持的序列应为 Unknown");
}

#[test]
fn decodes_multibyte_utf8_keys() {
    assert_eq!(decode_key("你".as_bytes()), Key::Char('你'));
    assert_eq!(decode_key("🚀".as_bytes()), Key::Char('🚀'));
    assert_eq!(decode_key(&[0xe5, 0x86]), Key::Unknown, "不完整的 UTF-8 应为 Unknown");
    assert_eq!(decode_key(&[0xff, 0xfe]), Key::Unknown, "非法字节应为 Unknown");
}

#[test]
fn accepting_a_command_clears_the_input() {
    // 执行命令后输入框必须清空：留着会让用户以为没执行，且盖住占位提示
    let item = popup::Item {
        label: "/help".into(),
        detail: String::new(),
        action: popup::ItemAction::Run(commands::Action::Help),
        category: "",
        keybinding: "",
    };
    let mut input = editor::Editor::from_text("/help");
    let mut status = String::new();
    let mut theme_name = theme::ThemeName::OpenCode;
    let mut info: Option<String> = None;
    let eff = apply_popup_item(&item, &mut input, &mut status, &mut theme_name, &mut info);
    assert!(input.is_empty(), "执行命令后输入应清空，实际 {:?}", input.text());
    assert!(info.is_some(), "/help 应打开信息屏");
    assert_eq!(eff, Effect::Nothing);
}

#[test]
fn accepting_a_file_ref_keeps_it_in_the_input() {
    // 与命令相反：文件引用要**保留**在输入里，因为它是发给模型的内容
    let item = popup::Item {
        label: "src/main.rs".into(),
        detail: String::new(),
        action: popup::ItemAction::Insert("@src/main.rs".into()),
        category: "",
        keybinding: "",
    };
    let mut input = editor::Editor::from_text("@src/ma");
    let mut status = String::new();
    let mut theme_name = theme::ThemeName::OpenCode;
    let mut info: Option<String> = None;
    apply_popup_item(&item, &mut input, &mut status, &mut theme_name, &mut info);
    let t = input.text();
    assert!(t.contains("@src/main.rs"), "引用应留在输入里，实际 {t:?}");
    assert!(!t.contains("ma@"), "不应重复叠加过滤词：{t:?}");
}

#[test]
fn popup_enter_takes_the_selected_item() {
    let mut p = popup::Popup::new(popup::Kind::Slash, "");
    p.set_items(popup::slash_items(""), false);
    p.move_selection(2);
    let it = p.selected_item().expect("应有选中项");
    assert!(it.label.starts_with('/'), "选中项应是命令：{it:?}");
}

#[test]
fn command_context_detection_is_conservative() {
    // 只有"词首的 @ /"才算弹窗上下文；`a/b` 这样的路径不能误判成命令
    assert!(matches!(self_popup_context("@"), Some((popup::Kind::File, _))));
    assert!(matches!(self_popup_context("看下 @src"), Some((popup::Kind::File, _))));
    assert!(matches!(self_popup_context("/th"), Some((popup::Kind::Slash, _))));
    assert!(self_popup_context("a/b").is_none(), "路径中的 / 不是命令");
    assert!(self_popup_context("@a b").is_none(), "已进入正文就不再是过滤词");
    assert!(self_popup_context("普通文本").is_none());
}

#[test]
fn long_paths_keep_their_filename() {
    // 侧栏路径从左侧截断：文件名是识别信息，不能被截掉
    let long = "src/very/deeply/nested/directory/structure/module.rs";
    let t = truncate_left(long, 20);
    assert!(t.ends_with("module.rs"), "应保留文件名：{t}");
    assert!(width::display_width(&t) <= 20, "不应超预算：{t}");
    // 短路径原样返回
    assert_eq!(truncate_left("a.rs", 20), "a.rs");
}

#[test]
fn chrome_height_is_dynamic_not_constant() {
    // 布局必须按输入行数算高度：用固定常量会让多行输入盖住正文
    assert_eq!(chrome_rows(1), 6, "单行时 chrome 应为 6 行");
    assert!(chrome_rows(3) > chrome_rows(1), "多行时 chrome 必须更高");
    // 上限：输入框不能吃掉整屏
    assert_eq!(chrome_rows(100), chrome_rows(MAX_INPUT_ROWS));
}

#[test]
fn trust_keys_are_handled_consistently() {
    // 抽出 handle_trust_key 的理由：让"等待输入"与"渲染"两条路径共用语义。
    // 这里断言每个键都被映射到明确的结论，不留模糊分支。
    let mut tp = TrustPrompt::default();
    assert!(matches!(handle_trust_key(Key::Up, &mut tp), TrustOutcome::Continue));
    assert_eq!(tp.selected, 0);
    assert!(matches!(handle_trust_key(Key::Down, &mut tp), TrustOutcome::Continue));
    assert_eq!(tp.selected, 1);
    // Enter 跟随选中项：选中"否"时应退出而不是接受
    assert!(matches!(handle_trust_key(Key::Enter, &mut tp), TrustOutcome::Quit));
    tp.selected = 0;
    assert!(matches!(handle_trust_key(Key::Quit, &mut tp), TrustOutcome::Quit));
    assert!(matches!(handle_trust_key(Key::Char('n'), &mut tp), TrustOutcome::Quit));
}

#[test]
fn rgb_conversions_stay_in_range() {
    // 降级路径用的转换必须是合法色号，否则终端会显示乱码/忽略
    for (r, g, b) in [(0u8, 0u8, 0u8), (255, 255, 255), (250, 178, 131), (157, 124, 216)] {
        let c256 = rgb_to_256(r, g, b);
        assert!(c256 >= 16, "256 色号 {c256} 落在系统色区（16 以下）");
        let c16 = rgb_to_16(r, g, b);
        assert!((30..=37).contains(&c16) || c16 == 90, "16 色号 {c16} 非法");
    }
}

#[test]
fn wordmark_rows_are_equal_width() {
    let ws: Vec<usize> = wordmark().iter().map(|r| r.chars().count()).collect();
    assert!(ws.windows(2).all(|w| w[0] == w[1]), "词标各行必须等宽，实际 {ws:?}");
}

#[test]
fn parses_approval_answers_and_rejects_noise() {
    for yes in ["y", "Y", "yes", "YES", " y "] {
        assert_eq!(parse_approval_answer(yes), Some(true), "{yes} 应判为批准");
    }
    for no in ["n", "N", "no"] {
        assert_eq!(parse_approval_answer(no), Some(false), "{no} 应判为拒绝");
    }
    assert_eq!(parse_approval_answer("maybe"), None);
    assert_eq!(parse_approval_answer(""), None);
}

// ── further cases ────────────────────────────────────────────────────

#[test]
fn escape_sequences_with_four_bytes_decode() {
    assert_eq!(decode_key(&[0x1b, b'[', b'3', b'~']), Key::Delete);
    assert_eq!(decode_key(&[0x1b, b'[', b'1', b'~']), Key::Home);
    assert_eq!(decode_key(&[0x1b, b'[', b'6', b'~']), Key::PageDown);
    assert_eq!(decode_key(&[0x1b, b'b']), Key::WordBackward);
    assert_eq!(decode_key(&[]), Key::Unknown);
    assert_eq!(decode_key("ab".as_bytes()), Key::Char('a'));
}

#[test]
fn at_token_completion_replaces_only_the_open_fragment() {
    assert_eq!(complete_at_token("看 @sr", "src/a.rs"), "看 @src/a.rs");
    assert_eq!(complete_at_token("无引用", "x"), "无引用@x");
    assert_eq!(complete_at_token("@a 然后", "b"), "@a 然后@b");
    assert_eq!(at_query("看 @sr"), Some("sr"));
    assert_eq!(at_query("@a b"), None);
    assert_eq!(at_query("none"), None);
}

#[test]
fn truncation_edge_cases() {
    assert_eq!(truncate_left("abcdef", 1), "");
    assert_eq!(truncate_left("abcdef", 4), "…def");
    // a wide character that does not fit is not split
    assert_eq!(truncate_left("a你好", 4), "…好");
}

#[test]
fn trust_accepts_only_explicit_consent() {
    let mut tp = TrustPrompt::default();
    assert_eq!(handle_trust_key(Key::Char('y'), &mut tp), TrustOutcome::Accepted);
    assert_eq!(handle_trust_key(Key::Enter, &mut tp), TrustOutcome::Accepted);
    assert_eq!(handle_trust_key(Key::Char('x'), &mut tp), TrustOutcome::Continue);
    assert_eq!(handle_trust_key(Key::Char('j'), &mut tp), TrustOutcome::Continue);
    assert_eq!(tp.selected, 1);
}

#[test]
fn theme_items_and_next_theme_update_status() {
    let mut input = editor::Editor::from_text("/theme");
    let mut status = String::new();
    let mut theme_name = theme::ThemeName::Neo;
    let mut info: Option<String> = None;
    let item = popup::Item::plain(
        "nord".into(),
        String::new(),
        popup::ItemAction::SetTheme(theme::ThemeName::Nord),
    );
    let eff = apply_popup_item(&item, &mut input, &mut status, &mut theme_name, &mut info);
    assert_eq!(eff, Effect::Nothing);
    assert_eq!(theme_name, theme::ThemeName::Nord);
    assert_eq!(status, "主题：nord");
    assert!(input.is_empty());
    let next = popup::Item::plain(
        "/next".into(),
        String::new(),
        popup::ItemAction::Run(commands::Action::NextTheme),
    );
    apply_popup_item(&next, &mut input, &mut status, &mut theme_name, &mut info);
    assert_eq!(theme_name, theme::ThemeName::Gruvbox);
    let quit = popup::Item::plain(
        "/quit".into(),
        String::new(),
        popup::ItemAction::Run(commands::Action::Quit),
    );
    assert_eq!(
        apply_popup_item(&quit, &mut input, &mut status, &mut theme_name, &mut info),
        Effect::Quit
    );
    let diff = popup::Item::plain(
        "/diff".into(),
        String::new(),
        popup::ItemAction::Run(commands::Action::DiffViewer),
    );
    assert_eq!(
        apply_popup_item(&diff, &mut input, &mut status, &mut theme_name, &mut info),
        Effect::Dispatch(commands::Action::DiffViewer)
    );
}

fn ev(button: Button, x: usize, y: usize, pressed: bool) -> MouseEvent {
    MouseEvent { button, pressed, x, y, modified: false }
}

#[test]
fn hit_testing_follows_the_priority_order() {
    let mut r = Regions::default();
    r.transcript = Some((0, 10));
    r.input_box = Some((2, 40, 12, 15));
    r.sidebar = Some((60, 94, 0, 20));
    r.popup_items = vec![((8, 2, 30), 0), ((9, 2, 30), 1)];
    assert_eq!(hit_test(&r, &ev(Button::WheelUp, 1, 1, true), None, false), Some(MouseAction::ScrollTranscript(true)));
    assert_eq!(hit_test(&r, &ev(Button::Left, 5, 13, false), None, false), None);
    assert_eq!(hit_test(&r, &ev(Button::Left, 5, 13, true), None, false), Some(MouseAction::FocusInput));
    assert_eq!(hit_test(&r, &ev(Button::Left, 70, 5, true), None, false), Some(MouseAction::ToggleSidebar));
    assert_eq!(hit_test(&r, &ev(Button::Left, 5, 5, true), None, false), Some(MouseAction::ScrollTranscript(false)));
    let p = popup::Popup::new(popup::Kind::Slash, "");
    assert_eq!(hit_test(&r, &ev(Button::Left, 5, 10, true), Some(&p), false), Some(MouseAction::SelectPopup(1)));
    assert_eq!(hit_test(&r, &ev(Button::Left, 5, 13, true), Some(&p), false), None);
    r.sidebar_grip = Some((5, 13));
    assert_eq!(hit_test(&r, &ev(Button::Left, 5, 13, true), Some(&p), false), Some(MouseAction::ToggleSidebar));
}

#[test]
fn small_helpers() {
    assert_eq!(idle_or_approval(&Some("a1".to_string())), "待审批 · y 批准 / n 拒绝");
    assert_eq!(idle_or_approval(&None), "就绪");
    assert_eq!(pick_example_from(5), "这个项目的技术栈是什么？");
    assert_eq!(parse_terminal_size("24 80\n"), (80, 24));
    assert_eq!(parse_terminal_size("0 80"), (80, 24));
    assert_eq!(parse_terminal_size("garbage"), (80, 24));
    assert_eq!(parse_terminal_size(" 50   200 "), (200, 50));
    assert_eq!(neo::tui::self_body_cols(120, true), 86);
    assert_eq!(neo::tui::self_body_cols(90, true), 90);
    assert_eq!(neo::tui::available_rows(2), 0);
    assert_eq!(rgb_to_256(128, 128, 128), 243);
    assert_eq!(rgb_to_16(10, 10, 10), 90);
}

/// Feeds `input` to the key reader byte by byte; past the end every read
/// brings nothing. Returns the key and how many bytes it took.
fn read_key_from(input: &[u8]) -> (Key, usize) {
    let mut step = key_start(input[0]);
    let mut used = 1;
    loop {
        match step {
            KeyStep::Done(k) => return (k, used),
            KeyStep::More(st) => {
                let byte = input.get(used).copied();
                if byte.is_some() {
                    used += 1;
                }
                step = key_next(st, byte);
            }
        }
    }
}

#[test]
fn key_reader_decodes_escape_sequences() {
    assert_eq!(read_key_from(&[0x1b, b'[', b'A']), (Key::Up, 3));
    assert_eq!(read_key_from(&[0x1b, b'[', b'3', b'~']), (Key::Delete, 4));
    assert_eq!(read_key_from(&[0x1b, b'[', b'5', b'~', b'x']), (Key::PageUp, 4));
    assert_eq!(read_key_from(&[0x1b]), (Key::Escape, 1));
    assert_eq!(read_key_from(&[0x1b, b'b']), (Key::WordBackward, 2));
    // the fourth byte ends a sequence even without a terminator
    assert_eq!(read_key_from(&[0x1b, b'[', b'1', b'2', b'~']), (Key::Unknown, 4));
}

#[test]
fn key_reader_decodes_mouse_reports() {
    let report = b"\x1b[<0;12;5M";
    assert_eq!(read_key_from(report), (Key::Mouse(ev(Button::Left, 12, 5, true)), report.len()));
    let release = b"\x1b[<64;3;4m";
    assert_eq!(read_key_from(release).0, Key::Mouse(ev(Button::WheelUp, 3, 4, false)));
    // a report cut short decodes as nothing known
    assert_eq!(read_key_from(b"\x1b[<0;1").0, Key::Unknown);
}

#[test]
fn key_reader_decodes_utf8_and_plain_bytes() {
    assert_eq!(read_key_from("你好".as_bytes()), (Key::Char('你'), 3));
    assert_eq!(read_key_from("🚀".as_bytes()), (Key::Char('🚀'), 4));
    assert_eq!(read_key_from(b"q"), (Key::Char('q'), 1));
    assert_eq!(read_key_from(&[0x03]), (Key::Quit, 1));
    // a character cut short, and a byte that cannot start one
    assert_eq!(read_key_from(&[0xe4, 0xbd]), (Key::Unknown, 2));
    assert_eq!(read_key_from(&[0xff]), (Key::Unknown, 1));
}

#[test]
fn timeout_read_returns_none_when_there_is_no_input() {
    let empty: &[u8] = &[];
    assert_eq!(read_key_timeout(empty), None, "无输入应返回 None 而不是 Quit");
}

#[test]
fn timeout_read_decodes_bytes_normally() {
    assert_eq!(read_key_timeout(b"\r"), Some(Key::Enter));
    assert_eq!(read_key_timeout(&[0x03]), Some(Key::Quit));
    assert_eq!(read_key_timeout("你".as_bytes()), Some(Key::Char('你')));
    assert_eq!(read_key_timeout(b"\x1b[<0;12;5M"), Some(Key::Mouse(ev(Button::Left, 12, 5, true))));
    assert_eq!(read_key_timeout(&[0x1b]), Some(Key::Escape));
}
