//! Workspace trust: the store is a JSON list of normalised workspace paths
//! kept in the user's directory. Reading it fails closed (a store that
//! does not parse trusts nothing); trusting a path keeps every earlier
//! entry and writes the set back sorted and without repeats.
use vstd::prelude::*;
use crate::rank::{lex_le, lex_le_exec, lemma_lex_antisym, lemma_lex_trans, lemma_lex_total,
    lemma_lex_refl};
use crate::text::{chars_of, owned, seq_eq};

verus! {

/// The list of strings a JSON text holds, when it is a JSON array of
/// strings (what `serde_json::from_str::<Vec<String>>` accepts).
pub uninterp spec fn json_strings(raw: Seq<char>) -> Option<Seq<Seq<char>>>;

/// The pretty-printed JSON array of a list of strings (what
/// `serde_json::to_string_pretty` writes for it).
pub uninterp spec fn json_pretty(list: Seq<Seq<char>>) -> Seq<char>;

pub open spec fn strings_view(v: Seq<String>) -> Seq<Seq<char>> {
    v.map_values(|s: String| s@)
}

/// Calls `serde_json::from_str::<Vec<String>>`: the strings of a JSON
/// array of strings, nothing for any other text. The JSON grammar is not
/// restated; the result is named.
#[verifier::external_body]
fn parse_string_list(raw: &str) -> (r: Option<Vec<String>>)
    ensures
        match r {
            Some(v) => json_strings(raw@) == Some(strings_view(v@)),
            None => json_strings(raw@) is None,
        },
{
    serde_json::from_str::<Vec<String>>(raw).ok()
}

/// Calls `serde_json::to_string_pretty` on a list of strings. Its
/// documentation names two failures, a `Serialize` impl that fails and a
/// map with non-string keys; a list of strings has neither, so it succeeds.
/// Reading the text back gives the same list (JSON strings escape every
/// character they cannot hold).
#[verifier::external_body]
fn pretty_string_list(list: &Vec<String>) -> (r: Option<String>)
    ensures
        r is Some,
        r matches Some(s) ==> s@ == json_pretty(strings_view(list@)),
        r matches Some(s) ==> json_strings(s@) == Some(strings_view(list@)),
{
    serde_json::to_string_pretty(list).ok()
}

/// The trusted workspaces a store holds (none when it does not parse).
pub open spec fn store_of(raw: Seq<char>) -> Seq<Seq<char>> {
    match json_strings(raw) {
        Some(l) => l,
        None => Seq::empty(),
    }
}

/// Whether a workspace (normalised path) is trusted by a store.
pub fn is_trusted_in(store: &str, workspace: &str) -> (r: bool)
    ensures
        r == store_of(store@).contains(workspace@),
{
    let list = match parse_string_list(store) {
        Some(v) => v,
        None => return false,
    };
    let ghost l = strings_view(list@);
    let w = chars_of(workspace);
    let mut i: usize = 0;
    while i < list.len()
        invariant
            i <= list@.len(),
            l == strings_view(list@),
            store_of(store@) == l,
            w@ == workspace@,
            forall|j: int| 0 <= j < i ==> l[j] != workspace@,
        decreases list@.len() - i,
    {
        let e = chars_of(list[i].as_str());
        if seq_eq(e.as_slice(), w.as_slice()) {
            assert(l[i as int] == workspace@);
            assert(l.contains(workspace@));
            return true;
        }
        i = i + 1;
    }
    false
}

// ── the store as a sorted set ────────────────────────────────────────

/// Strict order on paths (code-point order, as `String` orders them).
pub open spec fn lex_lt(a: Seq<char>, b: Seq<char>) -> bool {
    lex_le(a, b) && a != b
}

pub open spec fn strictly_sorted(l: Seq<Seq<char>>) -> bool {
    forall|i: int, j: int| 0 <= i < j < l.len() ==> lex_lt(#[trigger] l[i], #[trigger] l[j])
}

/// `l` with `x` added: sorted, without repeats.
proof fn lemma_insert_sorted(l: Seq<Seq<char>>, p: int, x: Seq<char>)
    requires
        strictly_sorted(l),
        0 <= p <= l.len(),
        forall|i: int| 0 <= i < p ==> lex_lt(#[trigger] l[i], x),
        p < l.len() ==> lex_le(x, l[p]) && x != l[p],
    ensures
        strictly_sorted(l.insert(p, x)),
        l.insert(p, x).to_set() == l.to_set().insert(x),
{
    let m = l.insert(p, x);
    assert forall|i: int, j: int| 0 <= i < j < m.len() implies lex_lt(#[trigger] m[i], #[trigger] m[j]) by {
        if j < p {
            assert(m[i] == l[i] && m[j] == l[j]);
        } else if j == p {
            assert(m[i] == l[i]);
        } else if i == p {
            assert(m[j] == l[j - 1]);
            if j - 1 > p {
                assert(lex_lt(l[p], l[j - 1]));
                lemma_lex_trans(x, l[p], l[j - 1]);
                if x == l[j - 1] {
                    lemma_lex_antisym(l[p], l[j - 1]);
                }
            }
        } else if i < p {
            assert(m[i] == l[i] && m[j] == l[j - 1]);
        } else {
            assert(m[i] == l[i - 1] && m[j] == l[j - 1]);
        }
    }
    assert(m.to_set() =~= l.to_set().insert(x)) by {
        assert forall|y: Seq<char>| m.to_set().contains(y) implies l.to_set().insert(x).contains(y) by {
            let k = choose|k: int| 0 <= k < m.len() && m[k] == y;
            if k < p {
                assert(l[k] == y);
            } else if k > p {
                assert(l[k - 1] == y);
            }
        }
        assert forall|y: Seq<char>| l.to_set().insert(x).contains(y) implies m.to_set().contains(y) by {
            if y == x {
                assert(m[p] == x);
            } else {
                let k = choose|k: int| 0 <= k < l.len() && l[k] == y;
                if k < p {
                    assert(m[k] == y);
                } else {
                    assert(m[k + 1] == y);
                }
            }
        }
    }
}

fn lex_lt_exec(a: &[char], b: &[char]) -> (r: bool)
    ensures
        r == lex_lt(a@, b@),
{
    lex_le_exec(a, b) && !seq_eq(a, b)
}

/// Add `x` to a sorted list without repeats.
fn insert_sorted(v: &mut Vec<String>, x: &str)
    requires
        strictly_sorted(strings_view(old(v)@)),
    ensures
        strictly_sorted(strings_view(final(v)@)),
        strings_view(final(v)@).to_set() == strings_view(old(v)@).to_set().insert(x@),
{
    let ghost l = strings_view(v@);
    let xv = chars_of(x);
    let mut p: usize = 0;
    while p < v.len() && lex_lt_exec(chars_of(v[p].as_str()).as_slice(), xv.as_slice())
        invariant
            p <= v@.len(),
            l == strings_view(v@),
            xv@ == x@,
            forall|i: int| 0 <= i < p ==> lex_lt(#[trigger] l[i], x@),
        decreases v@.len() - p,
    {
        p = p + 1;
    }
    if p < v.len() {
        let e = chars_of(v[p].as_str());
        if seq_eq(e.as_slice(), xv.as_slice()) {
            assert(l.to_set().insert(x@) =~= l.to_set()) by {
                assert(l[p as int] == x@);
            }
            return;
        }
        proof {
            lemma_lex_total(l[p as int], x@);
        }
    }
    proof {
        lemma_insert_sorted(l, p as int, x@);
    }
    v.insert(p, owned(x));
    assert(strings_view(v@) =~= l.insert(p as int, x@));
}

/// The store after trusting `workspace`: the JSON list of the paths of
/// `store` and `workspace`, each once, in code-point order.
pub fn trusted_with(store: &str, workspace: &str) -> (r: String)
    ensures
        ({
            let out = json_strings(r@);
            &&& out is Some
            &&& strictly_sorted(out->0)
            &&& out->0.to_set() == store_of(store@).to_set().insert(workspace@)
            &&& r@ == json_pretty(out->0)
        }),
{
    let list = match parse_string_list(store) {
        Some(v) => v,
        None => Vec::new(),
    };
    let ghost l = strings_view(list@);
    assert(l == store_of(store@)) by {
        if json_strings(store@) is None {
            assert(l =~= Seq::<Seq<char>>::empty());
        }
    }
    let mut set: Vec<String> = Vec::new();
    let mut i: usize = 0;
    assert(strings_view(set@).to_set() =~= l.take(0).to_set());
    while i < list.len()
        invariant
            i <= list@.len(),
            l == strings_view(list@),
            strictly_sorted(strings_view(set@)),
            strings_view(set@).to_set() == l.take(i as int).to_set(),
        decreases list@.len() - i,
    {
        let ghost s0 = strings_view(set@);
        insert_sorted(&mut set, list[i].as_str());
        assert(l.take(i + 1) =~= l.take(i as int).push(l[i as int]));
        proof {
            l.take(i as int).lemma_push_to_set_commute(l[i as int]);
        }
        i = i + 1;
    }
    assert(l.take(list@.len() as int) =~= l);
    insert_sorted(&mut set, workspace);
    match pretty_string_list(&set) {
        Some(s) => s,
        None => {
            proof {
                assert(false);
            }
            String::new()
        },
    }
}

/// Trusting a workspace makes it trusted.
pub proof fn law_trust_then_trusted(store: Seq<char>, ws: Seq<char>, written: Seq<char>)
    requires
        json_strings(written) is Some,
        json_strings(written)->0.to_set() == store_of(store).to_set().insert(ws),
    ensures
        store_of(written).contains(ws),
{
    let out = json_strings(written)->0;
    assert(out.to_set().contains(ws));
}

/// Trusting one workspace trusts nothing else: a path is trusted after
/// exactly when it is the new one or was trusted before.
pub proof fn law_trust_is_precise(store: Seq<char>, ws: Seq<char>, written: Seq<char>, other: Seq<char>)
    requires
        json_strings(written) is Some,
        json_strings(written)->0.to_set() == store_of(store).to_set().insert(ws),
    ensures
        store_of(written).contains(other) <==> (other == ws || store_of(store).contains(other)),
{
    let out = json_strings(written)->0;
    assert(out.to_set().contains(other) <==> out.contains(other));
    assert(store_of(store).to_set().contains(other) <==> store_of(store).contains(other));
}

/// A store that does not parse trusts nothing (fail-closed).
pub proof fn law_corrupt_store_trusts_nothing(store: Seq<char>, ws: Seq<char>)
    requires
        json_strings(store) is None,
    ensures
        !store_of(store).contains(ws),
{
}

} // verus!
