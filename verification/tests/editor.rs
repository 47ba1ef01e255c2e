use neo::editor::{Editor, MAX_UNDO};


#[test]
fn starts_empty_with_one_line() {
    let e = Editor::new();
    assert!(e.is_empty());
    assert_eq!(e.line_count(), 1);
    assert_eq!(e.cursor(), (0, 0));
    assert_eq!(e.text(), "");
}

#[test]
fn typing_and_backspace_round_trip() {
    let mut e = Editor::new();
    for c in "hello".chars() {
        e.insert_char(c);
    }
    assert_eq!(e.text(), "hello");
    assert_eq!(e.cursor(), (0, 5));
    assert!(e.backspace());
    assert_eq!(e.text(), "hell");
}

#[test]
fn backspace_at_start_of_line_joins_lines() {
    let mut e = Editor::from_text("ab\ncd");
    // 光标在 (1,2) → 移到第 1 行行首 (1,0)
    e.move_home();
    assert_eq!(e.cursor(), (1, 0));
    assert!(e.backspace(), "非首行行首退格应把两行合回");
    assert_eq!(e.text(), "abcd");
    assert_eq!(e.cursor(), (0, 2), "光标应落到接合处");
}

#[test]
fn backspace_at_very_start_reports_nothing_deleted() {
    // 首行行首没有可删内容 → 必须返回 false，让调用方知道"退格无效果"
    // （UI 据此决定是否要转而关闭弹窗等）
    let mut e = Editor::new();
    assert!(!e.backspace());
    let mut e = Editor::from_text("ab");
    e.move_home();
    assert!(!e.backspace());
    assert_eq!(e.text(), "ab");
}

#[test]
fn newline_splits_and_enter_joins() {
    let mut e = Editor::from_text("abcd");
    e.move_home();
    e.move_right();
    e.move_right();
    e.newline();
    assert_eq!(e.text(), "ab\ncd");
    assert_eq!(e.cursor(), (1, 0));
    assert!(e.backspace());
    assert_eq!(e.text(), "abcd", "行首退格应把两行合回");
}

#[test]
fn ctrl_k_deletes_to_end_and_then_joins_next_line() {
    // from_text 后光标在末行末尾 → 先移到首行再定位到 col 2
    let mut e = Editor::from_text("abcdef\nghi");
    e.move_up();
    e.move_home();
    e.move_right();
    e.move_right();
    assert_eq!(e.cursor(), (0, 2));
    e.delete_to_line_end();
    assert_eq!(e.text(), "ab\nghi", "应删掉本行 col 2 之后的内容");
    // 已在行尾，再按应并入下一行
    e.delete_to_line_end();
    assert_eq!(e.text(), "abghi");
}

#[test]
fn ctrl_u_deletes_to_line_start() {
    let mut e = Editor::from_text("hello world");
    e.move_home();
    for _ in 0..6 {
        e.move_right();
    }
    e.delete_to_line_start();
    assert_eq!(e.text(), "world");
    assert_eq!(e.cursor(), (0, 0));
}

#[test]
fn ctrl_w_deletes_a_word_including_trailing_space() {
    let mut e = Editor::from_text("foo bar baz");
    e.delete_word_backward();
    assert_eq!(e.text(), "foo bar ");
    e.delete_word_backward();
    assert_eq!(e.text(), "foo ");
}

#[test]
fn word_movement_skips_whitespace() {
    let mut e = Editor::from_text("foo bar");
    e.word_backward();
    assert_eq!(e.cursor(), (0, 4), "应停在 bar 的词首");
    e.word_forward();
    assert_eq!(e.cursor(), (0, 7));
}

#[test]
fn arrows_clamp_and_cross_lines() {
    let mut e = Editor::from_text("ab\ncdef");
    // 从末尾 (1,4) 上移到 (0,2)（列夹到较短行长度）
    e.move_up();
    assert_eq!(e.cursor(), (0, 2));
    e.move_down();
    assert_eq!(e.cursor(), (1, 2));
    e.move_home();
    e.move_left();
    assert_eq!(e.cursor(), (0, 2), "跨行左移应到上一行末尾");
    e.move_end();
    e.move_right();
    assert_eq!(e.cursor(), (1, 0), "跨行右移应到下一行行首");
}

#[test]
fn delete_forward_joins_lines_at_line_end() {
    let mut e = Editor::from_text("ab\ncd");
    e.move_up();
    e.move_end();
    assert!(e.delete_forward());
    assert_eq!(e.text(), "abcd");
}

#[test]
fn multibyte_editing_never_panics_and_keeps_content() {
    // 关键契约：中文/emoji 下所有编辑都不得 panic，且不丢字符。
    // 若把字节偏移当字符下标用，这里会 panic 或切出半个字符。
    let mut e = Editor::from_text("中文测试🚀ok");
    e.move_home();
    e.move_right();
    e.move_right();
    // col=2 表示"中文"之后（字符下标，不是字节）
    assert_eq!(e.cursor(), (0, 2));
    e.insert_char('新');
    assert_eq!(e.text(), "中文新测试🚀ok");
    assert!(e.backspace());
    assert_eq!(e.text(), "中文测试🚀ok");
    // 词边界按**空白**划分（与 shell/readline 一致）：
    // `中文测试🚀ok` 中间没有空白 → 整段算一个词，ctrl+w 会全删。
    // 中文不按单字拆分：这是刻意的取舍（见模块文档的边界说明）。
    e.move_end();
    e.delete_word_backward();
    assert!(e.is_empty(), "无空白分隔时整段是一个词");

    // 有空白时按词删
    e.set("中文测试 ok");
    e.delete_word_backward();
    assert_eq!(e.text(), "中文测试 ");
}

#[test]
fn cursor_column_is_character_count_not_bytes() {
    let mut e = Editor::from_text("中文");
    assert_eq!(e.cursor(), (0, 2), "两个汉字 → 列号应为 2 而不是 6");
    e.move_home();
    e.move_right();
    assert_eq!(e.cursor(), (0, 1));
    e.insert_char('X');
    assert_eq!(e.text(), "中X文");
}

#[test]
fn paste_with_newlines_splits_into_lines() {
    let mut e = Editor::new();
    e.insert_str("line1\nline2\nline3");
    assert_eq!(e.line_count(), 3);
    assert_eq!(e.text(), "line1\nline2\nline3");
    assert_eq!(e.cursor(), (2, 5));
}

#[test]
fn paste_in_the_middle_keeps_both_sides() {
    let mut e = Editor::from_text("HEADTAIL");
    e.move_home();
    for _ in 0..4 {
        e.move_right();
    }
    e.insert_str("A\nB");
    assert_eq!(e.text(), "HEADA\nBTAIL");
}

#[test]
fn undo_and_redo_restore_text() {
    let mut e = Editor::new();
    e.insert_char('a');
    e.insert_char('b');
    let after = e.text();
    // 连续打字算一个撤销单元 → 一次撤销应回到空
    e.undo();
    assert!(e.text() != after);
    e.redo();
    assert_eq!(e.text(), after);
}

#[test]
fn undo_stack_is_bounded() {
    // 内存有界：撤销栈不能随输入无限增长
    let mut e = Editor::new();
    for i in 0..(MAX_UNDO * 3) {
        // 每次插入都断开"连续打字"合并，确保产生独立的撤销点
        e.insert_str(&format!("{i} "));
    }
    assert!(e.undo_depth() <= MAX_UNDO, "撤销栈 {} 超过上限", e.undo_depth());
}

#[test]
fn new_edit_clears_redo_stack() {
    let mut e = Editor::new();
    e.insert_str("one");
    e.undo();
    e.insert_str("two");
    e.redo(); // 重做栈已作废，不该有变化
    assert_eq!(e.text(), "two");
}

#[test]
fn set_replaces_content_and_puts_cursor_at_end() {
    let mut e = Editor::new();
    e.set("/theme");
    assert_eq!(e.text(), "/theme");
    assert_eq!(e.cursor(), (0, 6));
    // 多行
    e.set("a\nb\nc");
    assert_eq!(e.line_count(), 3);
    assert_eq!(e.cursor(), (2, 1));
}

#[test]
fn clear_only_records_undo_when_there_was_content() {
    let mut e = Editor::new();
    e.clear(); // 本来就空 → 不该产生撤销点
    assert!(e.undo_depth() == 0);
    e.insert_str("x");
    e.clear();
    assert!(e.is_empty());
    e.undo();
    assert_eq!(e.text(), "x", "清空应可撤销");
}

#[test]
fn text_and_lines_agree() {
    let e = Editor::from_text("a\nbb\nccc");
    assert_eq!(e.lines().len(), 3);
    assert_eq!(e.text(), e.lines().join("\n"));
    for (i, l) in e.lines().iter().enumerate() {
        assert_eq!(l, e.text().lines().nth(i).unwrap());
    }
}

#[test]
fn empty_editor_operations_are_safe() {
    // 空编辑器上任何操作都不该 panic
    let mut e = Editor::new();
    e.backspace();
    e.delete_forward();
    e.delete_to_line_end();
    e.delete_to_line_start();
    e.delete_word_backward();
    e.move_left();
    e.move_right();
    e.move_up();
    e.move_down();
    e.word_backward();
    e.word_forward();
    e.undo();
    e.redo();
    assert!(e.is_empty());
}

#[test]
fn cursor_stays_valid_after_undo_shrinks_text() {
    // 撤销会让文本变短；光标若越界，后续插入会 panic
    let mut e = Editor::from_text("aaaaaaaaaa\nbbbbbbbbbb");
    e.insert_str("很长的一段追加");
    assert!(e.cursor().0 < e.line_count());
    e.undo();
    assert!(e.cursor().0 < e.line_count());
    assert!(e.cursor().1 <= e.lines()[e.cursor().0].chars().count());
    e.insert_char('x'); // 不得 panic
}

