use neo::markdown::{render, Line};
use neo::tui::Tone;


fn text_of(lines: &[Line]) -> String {
    lines
        .iter()
        .map(|l| l.iter().map(|(_, t, _)| t.as_str()).collect::<String>())
        .collect::<Vec<_>>()
        .join("\n")
}

#[test]
fn plain_paragraph_passes_through() {
    let ls = render("这是一段普通文字。", 40);
    assert_eq!(text_of(&ls), "这是一段普通文字。");
}

#[test]
fn heading_loses_its_hashes_and_gets_emphasis() {
    // 星号/# 号本身是噪声：剥掉标记，用颜色表达层次
    let ls = render("## 标题", 40);
    assert_eq!(text_of(&ls), "标题");
    assert_eq!(ls[0][0].2, Tone::Accent, "标题应用强调色");
}

#[test]
fn fenced_code_block_is_syntax_highlighted() {
    let md = "说明：\n```rust\nlet x = \"s\"; // c\n```\n后文";
    let ls = render(md, 60);
    let text = text_of(&ls);
    assert!(text.contains("let x = \"s\"; // c"), "代码内容应保留：{text}");
    // 关键字 / 字符串 / 注释都应有各自的色调
    let tones: Vec<Tone> = ls.iter().flatten().map(|(_, _, t)| *t).collect();
    assert!(tones.contains(&Tone::Accent), "应有关键字色：{tones:?}");
    assert!(tones.contains(&Tone::Success), "应有字符串色：{tones:?}");
    assert!(tones.contains(&Tone::Muted), "应有注释色：{tones:?}");
}

#[test]
fn code_fence_without_language_is_not_highlighted() {
    let ls = render("```\nlet x = 1;\n```", 60);
    let tones: Vec<Tone> = ls.iter().flatten().map(|(_, _, t)| *t).collect();
    assert!(!tones.contains(&Tone::Accent), "未知语言不该高亮：{tones:?}");
}

#[test]
fn inline_code_keeps_its_content_without_backticks() {
    let ls = render("运行 `cargo test` 即可", 60);
    let text = text_of(&ls);
    assert_eq!(text, "运行 cargo test 即可", "反引号应被剥掉：{text}");
    assert!(
        ls[0].iter().any(|(_, t, tone)| t == "cargo test" && *tone == Tone::Success),
        "行内代码应有独立色调：{:?}",
        ls[0]
    );
}

#[test]
fn bold_and_emphasis_markers_are_removed() {
    let ls = render("这是 **重点** 与 *次要* 内容", 60);
    let text = text_of(&ls);
    assert!(!text.contains('*'), "强调标记应被剥掉：{text}");
    assert!(text.contains("重点") && text.contains("次要"), "{text}");
}

#[test]
fn asterisks_inside_inline_code_are_preserved() {
    // 行内代码里 `a * b` 的星号是内容，不能被当强调标记吃掉
    let ls = render("计算 `a * b` 的值", 60);
    let text = text_of(&ls);
    assert!(text.contains("a * b"), "代码内的星号必须保留：{text}");
}

#[test]
fn bullets_become_dots_and_keep_text() {
    let ls = render("- 第一项\n- 第二项", 40);
    let text = text_of(&ls);
    assert!(text.contains("• 第一项"), "{text}");
    assert!(text.contains("• 第二项"), "{text}");
    assert!(!text.contains("- 第一项"), "短横线应换成圆点：{text}");
}

#[test]
fn ordered_list_keeps_its_numbering() {
    let ls = render("1. 甲\n2. 乙", 40);
    let text = text_of(&ls);
    assert!(text.contains("1. 甲") && text.contains("2. 乙"), "{text}");
}

#[test]
fn quote_gets_a_left_bar_and_muted_tone() {
    let ls = render("> 引用内容", 40);
    assert!(text_of(&ls).contains("引用内容"));
    let tones: Vec<Tone> = ls.iter().flatten().map(|(_, _, t)| *t).collect();
    assert!(tones.contains(&Tone::Border) && tones.contains(&Tone::Muted), "{tones:?}");
}

#[test]
fn horizontal_rule_is_rendered_as_a_line() {
    let ls = render("---", 40);
    assert!(text_of(&ls).contains('─'), "{:?}", text_of(&ls));
}

#[test]
fn a_long_digit_run_is_not_treated_as_a_list() {
    // 防御：`1234567. x` 不是有序列表（避免误判噪声）
    let ls = render("1234567. 不是列表", 60);
    assert!(text_of(&ls).contains("1234567. 不是列表"), "不该被拆成编号");
}

#[test]
fn wraps_long_lines_to_the_width_budget() {
    let long = "字".repeat(100);
    let ls = render(&long, 20);
    assert!(ls.len() > 1, "超宽段落应换行");
    for l in &ls {
        let w: usize = l.iter().map(|(_, t, _)| neo::width::display_width(t)).sum();
        assert!(w <= 20, "行宽 {w} 超预算");
    }
}

#[test]
fn unclosed_code_fence_does_not_lose_content() {
    // 模型输出的围栏可能不闭合；内容不能因此消失
    let ls = render("```rust\nlet x = 1;", 60);
    assert!(text_of(&ls).contains("let x = 1;"), "未闭合围栏也要显示内容");
}

#[test]
fn every_column_is_non_negative_and_ordered() {
    // 列号用于网格放置；倒序或负数会画错位置
    let md = "## 标题\n- 项 `code` 与 **粗体**\n> 引\n```py\nx = 1\n```";
    for l in render(md, 50) {
        let mut prev = 0usize;
        for (col, text, _) in &l {
            assert!(*col >= prev, "列号必须单调不减：{l:?}");
            prev = *col;
            assert!(!text.is_empty() || l.len() == 1);
        }
    }
}

#[test]
fn headings_quotes_and_rules_keep_their_shape() {
    let ls = render("#### 小标题", 40);
    assert_eq!(ls[0][0].2, Tone::Info, "三级以下标题用信息色");
    let ls = render("- a\n  - b", 40);
    assert_eq!(ls[1][0].0, 2, "嵌套列表保留缩进");
    let ls = render("___", 10);
    assert_eq!(ls[0][0].1, "─".repeat(10));
    let ls = render("12. x", 40);
    assert_eq!(ls[0][0].1, "12. ");
    assert_eq!(ls[0][1].0, 4);
    let ls = render("a\n\nb", 40);
    assert_eq!(ls.len(), 3);
    assert!(ls[1].is_empty());
}

#[test]
fn highlighting_marks_numbers_and_plain_fences_stay_plain() {
    let code = neo::syntax::highlight_line("x = 42 # c", neo::syntax::Lang::Python);
    assert!(code.iter().any(|(t, tone)| t == "42" && *tone == Tone::Warning));
    assert!(code.iter().any(|(t, tone)| t == "# c" && *tone == Tone::Muted));
    assert_eq!(neo::syntax::Lang::from_fence(" TS extra"), neo::syntax::Lang::Js);
    assert_eq!(neo::syntax::Lang::from_fence(""), neo::syntax::Lang::Plain);
    let plain = neo::syntax::highlight_line("let x", neo::syntax::Lang::Plain);
    assert_eq!(plain, vec![("let x".to_string(), Tone::Text)]);
}
