//! Request routing for the web host: which of the fixed endpoints a
//! request names, and what it asks for.
use vstd::prelude::*;
use crate::web::auth::{extract_token, token_matches, request_token, str_opt};
use crate::text::{chars_of, first_index, find_char, trim, trim_str, owned, string_of, sub_chars,
    str_eq, push_char, lemma_first_index_bound};

verus! {

/// What a request asks of the host.
#[derive(Debug, Clone, PartialEq, Eq)]
pub enum Route {
    /// The built-in page (`GET /` or `GET /index.html`).
    Page,
    /// A new task for the agent (`POST /api/turn`), with surrounding blanks removed.
    Turn(String),
    /// A turn with an empty task (answered 400).
    BlankTask,
    /// Subscribe to the event stream (`GET /api/events`).
    Events,
    /// An approval answer (`GET /api/approve?id=…&allow=…`).
    Approve { id: String, allow: bool },
    /// An approval answer without an id (answered 400).
    MissingId,
    /// The diagnostic endpoint (`GET /api/facts`).
    Facts,
    /// Anything else (answered 404).
    NotFound,
    /// A goal to pursue (`POST /api/goal`), the body as sent.
    GoalSet(String),
    /// A goal with an empty body (answered 400).
    BlankGoal,
    /// `GET /api/goal?action=advance`.
    GoalAdvance,
    /// `GET /api/goal?action=clear`.
    GoalClear,
    /// `GET /api/goal?action=pause` (409 without an active goal).
    GoalPause,
    /// `GET /api/goal?action=resume` (409 without an active goal).
    GoalResume,
    /// `GET /api/goal` with an unknown or missing action (answered 400).
    BadGoalAction,
    /// No valid token on a request other than the page (answered 401).
    Unauthorized,
}

pub enum RouteModel {
    Page,
    Turn(Seq<char>),
    BlankTask,
    Events,
    Approve(Seq<char>, bool),
    MissingId,
    Facts,
    NotFound,
    GoalSet(Seq<char>),
    BlankGoal,
    GoalAdvance,
    GoalClear,
    GoalPause,
    GoalResume,
    BadGoalAction,
    Unauthorized,
}

pub open spec fn route_view(r: Route) -> RouteModel {
    match r {
        Route::Page => RouteModel::Page,
        Route::Turn(t) => RouteModel::Turn(t@),
        Route::BlankTask => RouteModel::BlankTask,
        Route::Events => RouteModel::Events,
        Route::Approve { id, allow } => RouteModel::Approve(id@, allow),
        Route::MissingId => RouteModel::MissingId,
        Route::Facts => RouteModel::Facts,
        Route::NotFound => RouteModel::NotFound,
        Route::GoalSet(g) => RouteModel::GoalSet(g@),
        Route::BlankGoal => RouteModel::BlankGoal,
        Route::GoalAdvance => RouteModel::GoalAdvance,
        Route::GoalClear => RouteModel::GoalClear,
        Route::GoalPause => RouteModel::GoalPause,
        Route::GoalResume => RouteModel::GoalResume,
        Route::BadGoalAction => RouteModel::BadGoalAction,
        Route::Unauthorized => RouteModel::Unauthorized,
    }
}

/// The path without its query.
pub open spec fn path_part(p: Seq<char>) -> Seq<char> {
    match first_index(p, '?') {
        Some(k) => p.take(k),
        None => p,
    }
}

/// The query: what follows the first `?`.
pub open spec fn query_part(p: Seq<char>) -> Option<Seq<char>> {
    match first_index(p, '?') {
        Some(k) => Some(p.skip(k + 1)),
        None => None,
    }
}

/// `%3D` written back as `=`, left to right.
pub open spec fn unescape_eq(s: Seq<char>) -> Seq<char>
    decreases s.len(),
{
    if s.len() == 0 {
        s
    } else if s.len() >= 3 && s[0] == '%' && s[1] == '3' && s[2] == 'D' {
        seq!['='] + unescape_eq(s.skip(3))
    } else {
        seq![s[0]] + unescape_eq(s.skip(1))
    }
}

/// A `key=value` pair (a pair without `=` has an empty value).
pub open spec fn pair_kv(pair: Seq<char>) -> (Seq<char>, Seq<char>) {
    match first_index(pair, '=') {
        Some(k) => (pair.take(k), pair.skip(k + 1)),
        None => (pair, Seq::empty()),
    }
}

/// One pair applied to the answer so far: `id` sets the id, `allow` sets
/// whether it is allowed (`true` exactly); other keys are ignored.
pub open spec fn apply_pair(pair: Seq<char>, id: Seq<char>, allow: bool) -> (Seq<char>, bool) {
    let (k, v) = pair_kv(pair);
    let v = unescape_eq(v);
    if k == "id"@ {
        (v, allow)
    } else if k == "allow"@ {
        (id, v == "true"@)
    } else {
        (id, allow)
    }
}

/// The approval answer of a query: its `&`-separated pairs in order, the
/// last of each key winning.
pub open spec fn approve_of(q: Seq<char>, id: Seq<char>, allow: bool) -> (Seq<char>, bool)
    decreases q.len(),
{
    match first_index(q, '&') {
        Some(k) => if 0 <= k < q.len() {
            let (id2, allow2) = apply_pair(q.take(k), id, allow);
            approve_of(q.skip(k + 1), id2, allow2)
        } else {
            (id, allow)
        },
        None => apply_pair(q, id, allow),
    }
}

/// The `action` of a goal query: the value of its last `action=` pair
/// (empty when there is none).
pub open spec fn action_of(q: Seq<char>, a: Seq<char>) -> Seq<char>
    decreases q.len(),
{
    let step = |pair: Seq<char>, a: Seq<char>| if pair_kv(pair).0 == "action"@ { pair_kv(pair).1 } else { a };
    match first_index(q, '&') {
        Some(k) => if 0 <= k < q.len() {
            action_of(q.skip(k + 1), step(q.take(k), a))
        } else {
            a
        },
        None => step(q, a),
    }
}

/// The goal route for an action.
pub open spec fn goal_action(a: Seq<char>) -> RouteModel {
    if a == "advance"@ {
        RouteModel::GoalAdvance
    } else if a == "clear"@ {
        RouteModel::GoalClear
    } else if a == "pause"@ {
        RouteModel::GoalPause
    } else if a == "resume"@ {
        RouteModel::GoalResume
    } else {
        RouteModel::BadGoalAction
    }
}

/// The route for a request line and body: exact method and path matches
/// (the query is ignored for matching).
pub open spec fn route_spec(method: Seq<char>, path: Seq<char>, body: Seq<char>) -> RouteModel {
    let p = path_part(path);
    if method == "GET"@ && (p == "/"@ || p == "/index.html"@) {
        RouteModel::Page
    } else if method == "POST"@ && p == "/api/turn"@ {
        if trim(body).len() == 0 {
            RouteModel::BlankTask
        } else {
            RouteModel::Turn(trim(body))
        }
    } else if method == "GET"@ && p == "/api/events"@ {
        RouteModel::Events
    } else if method == "GET"@ && p == "/api/approve"@ {
        let (id, allow) = match query_part(path) {
            Some(q) => approve_of(q, Seq::empty(), false),
            None => (Seq::empty(), false),
        };
        if id.len() == 0 {
            RouteModel::MissingId
        } else {
            RouteModel::Approve(id, allow)
        }
    } else if method == "GET"@ && p == "/api/facts"@ {
        RouteModel::Facts
    } else if method == "POST"@ && p == "/api/goal"@ {
        if trim(body).len() == 0 {
            RouteModel::BlankGoal
        } else {
            RouteModel::GoalSet(body)
        }
    } else if method == "GET"@ && p == "/api/goal"@ {
        match query_part(path) {
            Some(q) => goal_action(action_of(q, Seq::empty())),
            None => RouteModel::BadGoalAction,
        }
    } else {
        RouteModel::NotFound
    }
}

/// The route a request gets once its token is checked: the page needs
/// none; every other request, unknown paths included, is `Unauthorized`
/// unless the token it carries (query `token=`, else the `X-Neo-Token`
/// header) is the expected one.
pub open spec fn gate_spec(
    method: Seq<char>,
    path: Seq<char>,
    body: Seq<char>,
    header: Option<Seq<char>>,
    expected: Seq<char>,
) -> RouteModel {
    let r = route_spec(method, path, body);
    if r is Page {
        r
    } else if request_token(query_part(path), header) == Some(expected) {
        r
    } else {
        RouteModel::Unauthorized
    }
}

/// The HTTP status of a route; pause and resume without an active goal are
/// a conflict (409).
pub open spec fn status_spec(r: RouteModel, has_goal: bool) -> u16 {
    match r {
        RouteModel::BlankTask | RouteModel::MissingId | RouteModel::BlankGoal
        | RouteModel::BadGoalAction => 400,
        RouteModel::NotFound => 404,
        RouteModel::Unauthorized => 401,
        RouteModel::GoalPause | RouteModel::GoalResume => if has_goal {
            200
        } else {
            409
        },
        _ => 200,
    }
}

fn unescape_eq_exec(v: &[char]) -> (r: Vec<char>)
    ensures
        r@ == unescape_eq(v@),
{
    let n = v.len();
    let mut out: Vec<char> = Vec::new();
    let mut i: usize = 0;
    assert(v@.skip(0) =~= v@);
    while i < n
        invariant
            i <= n,
            n == v@.len(),
            out@ + unescape_eq(v@.skip(i as int)) == unescape_eq(v@),
        decreases n - i,
    {
        let ghost rest = v@.skip(i as int);
        if n - i >= 3 && v[i] == '%' && v[i + 1] == '3' && v[i + 2] == 'D' {
            assert(rest.skip(3) =~= v@.skip(i + 3));
            out.push('=');
            assert(out@ + unescape_eq(v@.skip(i + 3)) =~= unescape_eq(v@));
            i = i + 3;
        } else {
            assert(rest.skip(1) =~= v@.skip(i + 1));
            out.push(v[i]);
            assert(out@ + unescape_eq(v@.skip(i + 1)) =~= unescape_eq(v@));
            i = i + 1;
        }
    }
    assert(v@.skip(n as int) =~= Seq::<char>::empty());
    assert(out@ + Seq::<char>::empty() =~= out@);
    out
}

fn apply_pair_exec(pair: &[char], id: Vec<char>, allow: bool) -> (r: (Vec<char>, bool))
    ensures
        (r.0@, r.1) == apply_pair(pair@, id@, allow),
{
    proof {
        lemma_first_index_bound(pair@, '=');
    }
    let plen = pair.len();
    let (k, v) = match find_char(pair, '=') {
        Some(j) => (sub_chars(pair, 0, j), sub_chars(pair, j + 1, plen)),
        None => (sub_chars(pair, 0, pair.len()), Vec::new()),
    };
    proof {
        lemma_first_index_bound(pair@, '=');
        match first_index(pair@, '=') {
            Some(j) => {
                assert(k@ =~= pair@.take(j));
                assert(v@ =~= pair@.skip(j + 1));
            },
            None => {
                assert(k@ =~= pair@);
                assert(v@ =~= Seq::<char>::empty());
            },
        }
    }
    let v = unescape_eq_exec(v.as_slice());
    let key_id = chars_of("id");
    let key_allow = chars_of("allow");
    let word_true = chars_of("true");
    if crate::text::seq_eq(k.as_slice(), key_id.as_slice()) {
        (v, allow)
    } else if crate::text::seq_eq(k.as_slice(), key_allow.as_slice()) {
        (id, crate::text::seq_eq(v.as_slice(), word_true.as_slice()))
    } else {
        (id, allow)
    }
}

fn approve_exec(q: &[char]) -> (r: (Vec<char>, bool))
    ensures
        (r.0@, r.1) == approve_of(q@, Seq::empty(), false),
{
    let n = q.len();
    let mut id: Vec<char> = Vec::new();
    let mut allow = false;
    let mut start: usize = 0;
    assert(q@.skip(0) =~= q@);
    loop
        invariant
            start <= n,
            n == q@.len(),
            approve_of(q@.skip(start as int), id@, allow) == approve_of(q@, Seq::empty(), false),
        decreases n - start,
    {
        let ghost rest = q@.skip(start as int);
        let tail = sub_chars(q, start, n);
        assert(tail@ =~= rest);
        match find_char(tail.as_slice(), '&') {
            Some(k) => {
                proof {
                    lemma_first_index_bound(rest, '&');
                }
                let piece = sub_chars(tail.as_slice(), 0, k);
                assert(piece@ =~= rest.take(k as int));
                let (id2, allow2) = apply_pair_exec(piece.as_slice(), id, allow);
                id = id2;
                allow = allow2;
                assert(rest.skip(k + 1) =~= q@.skip(start + k + 1));
                start = start + k + 1;
            },
            None => {
                let (id2, allow2) = apply_pair_exec(tail.as_slice(), id, allow);
                return (id2, allow2);
            },
        }
    }
}

fn action_exec(q: &[char]) -> (r: Vec<char>)
    ensures
        r@ == action_of(q@, Seq::empty()),
{
    let n = q.len();
    let mut a: Vec<char> = Vec::new();
    let mut start: usize = 0;
    let key = chars_of("action");
    assert(q@.skip(0) =~= q@);
    loop
        invariant
            start <= n,
            n == q@.len(),
            key@ == "action"@,
            action_of(q@.skip(start as int), a@) == action_of(q@, Seq::empty()),
        decreases n - start,
    {
        let ghost rest = q@.skip(start as int);
        let tail = sub_chars(q, start, n);
        assert(tail@ =~= rest);
        let (piece, last) = match find_char(tail.as_slice(), '&') {
            Some(k) => {
                proof {
                    lemma_first_index_bound(rest, '&');
                }
                let piece = sub_chars(tail.as_slice(), 0, k);
                assert(piece@ =~= rest.take(k as int));
                (piece, false)
            },
            None => (tail, true),
        };
        let plen = piece.len();
        proof {
            lemma_first_index_bound(piece@, '=');
        }
        let (k, v) = match find_char(piece.as_slice(), '=') {
            Some(j) => (sub_chars(piece.as_slice(), 0, j), sub_chars(piece.as_slice(), j + 1, plen)),
            None => (sub_chars(piece.as_slice(), 0, plen), Vec::new()),
        };
        proof {
            match first_index(piece@, '=') {
                Some(j) => {
                    assert(k@ =~= piece@.take(j));
                    assert(v@ =~= piece@.skip(j + 1));
                },
                None => {
                    assert(k@ =~= piece@);
                    assert(v@ =~= Seq::<char>::empty());
                },
            }
        }
        if crate::text::seq_eq(k.as_slice(), key.as_slice()) {
            a = v;
        }
        if last {
            return a;
        }
        proof {
            lemma_first_index_bound(rest, '&');
            let j = first_index(rest, '&')->Some_0;
            assert(rest.skip(j + 1) =~= q@.skip(start + j + 1));
        }
        start = start + plen + 1;
    }
}

/// Routes a request by its method, path (with any query) and body.
pub fn route_of(method: &str, path: &str, body: &str) -> (r: Route)
    ensures
        route_view(r) == route_spec(method@, path@, body@),
{
    let pv = chars_of(path);
    let (p, query) = match find_char(pv.as_slice(), '?') {
        Some(k) => (sub_chars(pv.as_slice(), 0, k), Some(sub_chars(pv.as_slice(), k + 1, pv.len()))),
        None => (sub_chars(pv.as_slice(), 0, pv.len()), None),
    };
    proof {
        lemma_first_index_bound(path@, '?');
        match first_index(path@, '?') {
            Some(k) => {
                assert(p@ =~= path@.take(k));
                assert(query.unwrap()@ =~= path@.skip(k + 1));
            },
            None => assert(p@ =~= path@),
        }
    }
    let ps = string_of(p.as_slice());
    let get = str_eq(method, "GET");
    let post = str_eq(method, "POST");
    if get && (str_eq(ps.as_str(), "/") || str_eq(ps.as_str(), "/index.html")) {
        Route::Page
    } else if post && str_eq(ps.as_str(), "/api/turn") {
        let t = trim_str(body);
        if t.unicode_len() == 0 {
            Route::BlankTask
        } else {
            Route::Turn(owned(t))
        }
    } else if get && str_eq(ps.as_str(), "/api/events") {
        Route::Events
    } else if get && str_eq(ps.as_str(), "/api/approve") {
        let (id, allow) = match query {
            Some(q) => approve_exec(q.as_slice()),
            None => (Vec::new(), false),
        };
        if id.len() == 0 {
            Route::MissingId
        } else {
            Route::Approve { id: string_of(id.as_slice()), allow }
        }
    } else if get && str_eq(ps.as_str(), "/api/facts") {
        Route::Facts
    } else if post && str_eq(ps.as_str(), "/api/goal") {
        if trim_str(body).unicode_len() == 0 {
            Route::BlankGoal
        } else {
            Route::GoalSet(owned(body))
        }
    } else if get && str_eq(ps.as_str(), "/api/goal") {
        match query {
            Some(q) => {
                let a = action_exec(q.as_slice());
                let a = string_of(a.as_slice());
                if str_eq(a.as_str(), "advance") {
                    Route::GoalAdvance
                } else if str_eq(a.as_str(), "clear") {
                    Route::GoalClear
                } else if str_eq(a.as_str(), "pause") {
                    Route::GoalPause
                } else if str_eq(a.as_str(), "resume") {
                    Route::GoalResume
                } else {
                    Route::BadGoalAction
                }
            },
            None => Route::BadGoalAction,
        }
    } else {
        Route::NotFound
    }
}

/// Routes a request and checks its token: the page needs none; any other
/// request (unknown paths too, so that routes cannot be probed) is
/// `Unauthorized` unless it carries the expected token in its query or in
/// the `header` value.
pub fn gate(method: &str, path: &str, body: &str, header: Option<&str>, expected: &str) -> (r: Route)
    ensures
        route_view(r) == gate_spec(method@, path@, body@, str_opt(header), expected@),
{
    let r = route_of(method, path, body);
    if let Route::Page = r {
        return r;
    }
    let pv = chars_of(path);
    proof {
        lemma_first_index_bound(path@, '?');
    }
    let query = match find_char(pv.as_slice(), '?') {
        Some(k) => Some(string_of(sub_chars(pv.as_slice(), k + 1, pv.len()).as_slice())),
        None => None,
    };
    proof {
        match first_index(path@, '?') {
            Some(k) => assert(query.unwrap()@ =~= path@.skip(k + 1)),
            None => {},
        }
    }
    let qs = match &query {
        Some(q) => Some(q.as_str()),
        None => None,
    };
    assert(str_opt(qs) == query_part(path@));
    match extract_token(qs, header) {
        Some(t) => {
            if token_matches(expected, t) {
                r
            } else {
                Route::Unauthorized
            }
        },
        None => Route::Unauthorized,
    }
}

/// The HTTP status a route is answered with, `has_goal` telling whether
/// a goal is active.
pub fn status_of(r: &Route, has_goal: bool) -> (s: u16)
    ensures
        s == status_spec(route_view(*r), has_goal),
{
    match r {
        Route::BlankTask | Route::MissingId | Route::BlankGoal | Route::BadGoalAction => 400,
        Route::NotFound => 404,
        Route::Unauthorized => 401,
        Route::GoalPause | Route::GoalResume => if has_goal {
            200
        } else {
            409
        },
        _ => 200,
    }
}

/// The access law: a request other than the page is routed only with the
/// expected token; without it (unknown paths included) it is answered 401
/// before anything reaches the agent.
pub proof fn law_token_gate(
    method: Seq<char>,
    path: Seq<char>,
    body: Seq<char>,
    header: Option<Seq<char>>,
    expected: Seq<char>,
)
    ensures
        !(route_spec(method, path, body) is Page) && request_token(query_part(path), header) != Some(
            expected,
        ) ==> gate_spec(method, path, body, header, expected) == RouteModel::Unauthorized
            && status_spec(gate_spec(method, path, body, header, expected), false) == 401,
        route_spec(method, path, body) is Page ==> gate_spec(method, path, body, header, expected)
            == RouteModel::Page,
        request_token(query_part(path), header) == Some(expected) ==> gate_spec(
            method,
            path,
            body,
            header,
            expected,
        ) == route_spec(method, path, body),
{
}

} // verus!
