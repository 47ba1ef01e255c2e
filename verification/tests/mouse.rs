use neo::mouse::{parse_sgr, Button};


#[test]
fn parses_left_click_press_and_release() {
    let down = parse_sgr("0;12;5M").expect("左键按下应可解析");
    assert_eq!(down.button, Button::Left);
    assert!(down.pressed);
    assert_eq!((down.x, down.y), (12, 5));

    let up = parse_sgr("0;12;5m").expect("左键释放应可解析");
    assert!(!up.pressed, "小写 m 表示释放");
}

#[test]
fn parses_wheel_directions() {
    let up = parse_sgr("64;3;7M").expect("滚轮上");
    assert_eq!(up.button, Button::WheelUp);
    let down = parse_sgr("65;3;7M").expect("滚轮下");
    assert_eq!(down.button, Button::WheelDown);
}

#[test]
fn parses_middle_and_right() {
    assert_eq!(parse_sgr("1;1;1M").unwrap().button, Button::Middle);
    assert_eq!(parse_sgr("2;1;1M").unwrap().button, Button::Right);
}

#[test]
fn detects_modifiers() {
    // 4=shift, 8=alt, 16=ctrl
    for code in [4, 8, 16, 4 | 8 | 16] {
        let e = parse_sgr(&format!("{code};1;1M")).unwrap();
        assert!(e.modified, "code={code} 应标记为含修饰键");
    }
    assert!(!parse_sgr("0;1;1M").unwrap().modified);
}

#[test]
fn handles_wide_columns_that_break_the_old_protocol() {
    // 老 X10 协议在列号 >223 时会溢出；SGR 用十进制文本，多宽都行。
    // 用户实测用过 260 列宽终端，所以这条必须有。
    let e = parse_sgr("0;300;40M").expect("300 列应可解析");
    assert_eq!(e.x, 300);
    let e = parse_sgr("0;1000;1M").expect("1000 列应可解析");
    assert_eq!(e.x, 1000);
}

#[test]
fn rejects_malformed_input_without_panicking() {
    // 终端可能送来我们不认识的扩展；必须安静忽略而不是崩
    for bad in ["", "M", "0;1M", "a;b;cM", "0;1;2;3M", "0;0;5M", "0;5;0M", "0;1;2X", ";;M"] {
        assert!(parse_sgr(bad).is_none(), "{bad:?} 应被拒绝");
    }
}

#[test]
fn unknown_button_bits_are_marked_other() {
    // 3 = "仅释放，无按键信息"；不该被误判成左键
    assert_eq!(parse_sgr("3;1;1m").unwrap().button, Button::Other);
}

#[test]
fn release_events_are_recognised_for_non_wheel() {
    let e = parse_sgr("2;10;10m").unwrap();
    assert_eq!(e.button, Button::Right);
    assert!(!e.pressed);
}

#[test]
fn plus_signs_and_overflow_follow_decimal_parsing() {
    // a leading '+' is accepted the way `str::parse` accepts it
    assert_eq!(parse_sgr("+0;+2;3M").unwrap().x, 2);
    // a code past u32 is no report
    assert!(parse_sgr("4294967296;1;1M").is_none());
    assert!(parse_sgr("4294967295;1;1M").is_some());
    // wheel with modifiers
    let e = parse_sgr("69;4;4M").unwrap();
    assert_eq!(e.button, Button::WheelDown);
    assert!(e.modified);
}
