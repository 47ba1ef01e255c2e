use neo::trust::{is_trusted_in, trusted_with};

#[test]
fn unknown_workspace_is_not_trusted_in_an_empty_store() {
    assert!(!is_trusted_in("[]", "/home/u/somewhere"));
    assert!(!is_trusted_in("", "/home/u/somewhere"));
}

#[test]
fn trusting_then_checking_round_trips_through_the_store_text() {
    let s = trusted_with("[]", "/ws/proj");
    assert!(is_trusted_in(&s, "/ws/proj"));
    let again = trusted_with(&s, "/ws/proj");
    let list: Vec<String> = serde_json::from_str(&again).unwrap();
    assert_eq!(list, vec!["/ws/proj".to_string()], "同一路径只记一次");
}

#[test]
fn corrupt_store_fails_closed_and_is_replaced_on_trust() {
    assert!(!is_trusted_in("{ 不是合法 JSON", "/ws/proj"));
    let s = trusted_with("{ 不是合法 JSON", "/ws/proj");
    let list: Vec<String> = serde_json::from_str(&s).unwrap();
    assert_eq!(list, vec!["/ws/proj".to_string()]);
}

#[test]
fn different_paths_are_not_conflated_and_stay_sorted() {
    let s = trusted_with(r#"["/z","/a"]"#, "/m");
    assert!(is_trusted_in(&s, "/m"));
    assert!(is_trusted_in(&s, "/a"));
    assert!(!is_trusted_in(&s, "/b"));
    let list: Vec<String> = serde_json::from_str(&s).unwrap();
    assert_eq!(list, vec!["/a", "/m", "/z"]);
    assert_eq!(s, serde_json::to_string_pretty(&list).unwrap());
}
