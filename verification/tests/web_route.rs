use neo::web::route::{route_of, gate, status_of, Route};
use neo::web::page::INDEX_HTML;

#[test]
fn serves_the_builtin_page_at_root_and_index() {
    for path in ["/", "/index.html", "/?x=1"] {
        assert_eq!(route_of("GET", path, ""), Route::Page, "{path}");
        assert_eq!(status_of(&route_of("GET", path, ""), false), 200);
    }
    assert!(INDEX_HTML.starts_with("<!doctype html>"));
}

#[test]
fn unknown_path_and_wrong_method_are_404() {
    assert_eq!(route_of("GET", "/nope", ""), Route::NotFound);
    assert_eq!(route_of("GET", "/api/turn", ""), Route::NotFound);
    assert_eq!(route_of("POST", "/api/events", "x"), Route::NotFound);
    assert_eq!(route_of("DELETE", "/", ""), Route::NotFound);
}

#[test]
fn turn_rejects_a_blank_task() {
    assert_eq!(route_of("POST", "/api/turn", "   \n  "), Route::BlankTask);
    assert_eq!(route_of("POST", "/api/turn", ""), Route::BlankTask);
}

#[test]
fn turn_carries_the_trimmed_task() {
    assert_eq!(route_of("POST", "/api/turn", "  看下 @src/main.rs \n"), Route::Turn("看下 @src/main.rs".to_string()));
}

#[test]
fn approve_maps_the_query_to_a_decision() {
    assert_eq!(
        route_of("GET", "/api/approve?id=a1&allow=true", ""),
        Route::Approve { id: "a1".to_string(), allow: true }
    );
    assert_eq!(
        route_of("GET", "/api/approve?id=a2&allow=false", ""),
        Route::Approve { id: "a2".to_string(), allow: false }
    );
    // anything but exactly `true` denies; the last pair of a key wins
    assert_eq!(
        route_of("GET", "/api/approve?allow=TRUE&id=x&id=y&junk", ""),
        Route::Approve { id: "y".to_string(), allow: false }
    );
}

#[test]
fn approve_unescapes_percent_encoded_ids() {
    assert_eq!(
        route_of("GET", "/api/approve?id=a%3Db&allow=true", ""),
        Route::Approve { id: "a=b".to_string(), allow: true }
    );
    assert_eq!(
        route_of("GET", "/api/approve?id=%3D%3D%3&allow=true", ""),
        Route::Approve { id: "==%3".to_string(), allow: true }
    );
}

#[test]
fn approve_without_an_id_is_rejected() {
    assert_eq!(route_of("GET", "/api/approve?allow=true", ""), Route::MissingId);
    assert_eq!(route_of("GET", "/api/approve", ""), Route::MissingId);
    assert_eq!(route_of("GET", "/api/approve?id=", ""), Route::MissingId);
}

#[test]
fn events_and_facts_are_routed() {
    assert_eq!(route_of("GET", "/api/events", ""), Route::Events);
    assert_eq!(route_of("GET", "/api/facts?token=t", ""), Route::Facts);
}

const TOKEN: &str = "0123456789abcdef0123456789abcdef0123456789abcdef0123456789abcdef";

#[test]
fn the_page_needs_no_token() {
    assert_eq!(gate("GET", "/", "", None, TOKEN), Route::Page);
    assert_eq!(gate("GET", "/index.html", "", None, TOKEN), Route::Page);
}

#[test]
fn every_endpoint_without_a_token_is_401() {
    for (m, p, b) in [
        ("POST", "/api/turn", "rm -rf /"),
        ("GET", "/api/events", ""),
        ("GET", "/api/approve?id=a1&allow=true", ""),
        ("GET", "/api/facts", ""),
        ("POST", "/api/goal", "目标"),
        ("GET", "/api/goal?action=advance", ""),
        ("GET", "/definitely-not-a-route", ""),
        ("POST", "/definitely-not-a-route", "x"),
        ("POST", "/", "x"),
    ] {
        let r = gate(m, p, b, None, TOKEN);
        assert_eq!(r, Route::Unauthorized, "{m} {p}");
        assert_eq!(status_of(&r, true), 401);
    }
}

#[test]
fn a_wrong_or_empty_token_is_401() {
    let wrong = format!("{}1", &TOKEN[..63]);
    assert_eq!(gate("GET", "/api/facts", "", Some(wrong.as_str()), TOKEN), Route::Unauthorized);
    assert_eq!(gate("GET", "/api/facts?token=", "", None, TOKEN), Route::Unauthorized);
    assert_eq!(gate("GET", "/api/facts", "", Some(""), TOKEN), Route::Unauthorized);
    let q = format!("/api/facts?token={}", wrong);
    assert_eq!(gate("GET", q.as_str(), "", Some(TOKEN), TOKEN), Route::Unauthorized);
}

#[test]
fn the_right_token_routes_as_usual() {
    let q = format!("/api/approve?id=a1&allow=true&token={}", TOKEN);
    assert_eq!(gate("GET", q.as_str(), "", None, TOKEN), Route::Approve { id: "a1".to_string(), allow: true });
    assert_eq!(gate("GET", "/api/facts", "", Some(TOKEN), TOKEN), Route::Facts);
    let r = gate("GET", "/nope", "", Some(TOKEN), TOKEN);
    assert_eq!(r, Route::NotFound);
    assert_eq!(status_of(&r, false), 404);
}

#[test]
fn goal_routes_and_their_statuses() {
    let body = "重构 A\n重构 B";
    assert_eq!(route_of("POST", "/api/goal", body), Route::GoalSet(body.to_string()));
    let blank = route_of("POST", "/api/goal", "  ");
    assert_eq!(blank, Route::BlankGoal);
    assert_eq!(status_of(&blank, true), 400);
    assert_eq!(route_of("GET", "/api/goal?action=advance", ""), Route::GoalAdvance);
    assert_eq!(route_of("GET", "/api/goal?action=clear", ""), Route::GoalClear);
    assert_eq!(status_of(&Route::GoalAdvance, false), 200);
    let bogus = route_of("GET", "/api/goal?action=bogus", "");
    assert_eq!(bogus, Route::BadGoalAction);
    assert_eq!(status_of(&bogus, true), 400);
    assert_eq!(route_of("GET", "/api/goal", ""), Route::BadGoalAction);
    let pause = route_of("GET", "/api/goal?action=pause", "");
    assert_eq!(pause, Route::GoalPause);
    assert_eq!(status_of(&pause, false), 409);
    assert_eq!(status_of(&pause, true), 200);
    assert_eq!(route_of("GET", "/api/goal?action=resume&x=1", ""), Route::GoalResume);
    assert_eq!(status_of(&Route::GoalResume, false), 409);
}
