//! Where MCP servers may be configured: only at user level
//! (`$NEO_HOME/mcp.json`). A project-level file is refused with the
//! reason: a repository that names programs to run turns `git clone`
//! into running whatever its author chose.
//!
//! The configuration file is decoded by the caller into [`ConfigDoc`];
//! the rules on its entries are here.
use vstd::prelude::*;
use crate::instructions::{joined, join_name, neo_home, neo_home_spec};
use crate::text::{owned, push_str, chars_of};

verus! {

/// One server: a local process (`command`, stdio) or an endpoint (`url`,
/// Streamable HTTP), exactly one of the two.
#[derive(Debug, Clone, PartialEq, Eq)]
pub struct ServerSpec {
    pub name: String,
    pub command: String,
    pub args: Vec<String>,
    pub url: Option<String>,
}

/// One entry of `servers`, as far as the rules read it.
pub struct ServerEntry {
    /// `name` when it is a string.
    pub name: Option<String>,
    /// `command` when it is a string.
    pub command: Option<String>,
    /// `url` is a string.
    pub has_url: bool,
    /// The entry as JSON text (quoted in the error for an incomplete one).
    pub text: String,
    /// The entry decoded as a server (or why it could not be).
    pub spec: Result<ServerSpec, String>,
}

/// The configuration file, decoded.
pub struct ConfigDoc {
    /// `servers` when it is an array.
    pub servers: Option<Vec<ServerEntry>>,
}

/// An entry names a server and a transport.
pub open spec fn complete(e: ServerEntry) -> bool {
    let name = match e.name {
        Some(n) => n@,
        None => Seq::empty(),
    };
    let has_command = match e.command {
        Some(c) => c@.len() > 0,
        None => false,
    };
    name.len() > 0 && (has_command || e.has_url)
}

/// Exactly one transport is filled in.
pub open spec fn one_transport(s: ServerSpec) -> bool {
    (s.command@.len() == 0) != (s.url is None)
}

/// The first entry that breaks a rule (in order: incomplete, not
/// decodable, two or no transports), or none.
pub open spec fn first_bad(es: Seq<ServerEntry>) -> Option<int>
    decreases es.len(),
{
    if es.len() == 0 {
        None
    } else {
        match first_bad(es.drop_last()) {
            Some(i) => Some(i),
            None => {
                let e = es.last();
                if !complete(e) || e.spec is Err || !one_transport(e.spec->Ok_0) {
                    Some(es.len() - 1)
                } else {
                    None
                }
            },
        }
    }
}

/// What is wrong with an entry.
pub open spec fn entry_error(e: ServerEntry) -> Seq<char> {
    if !complete(e) {
        "servers 里的条目缺少 name 或 transport（command / url）："@ + e.text@
    } else {
        match e.spec {
            Err(m) => m@,
            Ok(s) => "服务器 "@ + s.name@ + " 必须且只能填 command（stdio）或 url（HTTP）之一"@,
        }
    }
}

/// Check the decoded configuration: it must have a `servers` array; every
/// entry must name a server and a transport, decode, and fill exactly one
/// of `command` and `url`. The first entry that does not is the error.
pub fn parse_user_config(doc: ConfigDoc) -> (r: Result<Vec<ServerSpec>, String>)
    ensures
        match doc.servers {
            None => (r matches Err(m) && m@ == "缺少 servers 数组"@),
            Some(es) => match first_bad(es@) {
                Some(i) => (r matches Err(m) && m@ == entry_error(es@[i])),
                None => (r matches Ok(v) && v@.len() == es@.len() && forall|i: int|
                    0 <= i < es@.len() ==> #[trigger] v@[i] == es@[i].spec->Ok_0),
            },
        },
{
    let es = match doc.servers {
        None => return Err(owned("缺少 servers 数组")),
        Some(es) => es,
    };
    let mut out: Vec<ServerSpec> = Vec::new();
    let mut i: usize = 0;
    let ghost ev = es@;
    let mut rest = es;
    let total = rest.len();
    assert(rest@ =~= ev.skip(0));
    while rest.len() > 0
        invariant
            i <= ev.len(),
            ev.len() == total,
            doc.servers matches Some(x) && x@ == ev,
            rest@ =~= ev.skip(i as int),
            first_bad(ev.take(i as int)) is None,
            out@.len() == i,
            forall|j: int| 0 <= j < i ==> #[trigger] out@[j] == ev[j].spec->Ok_0,
        decreases rest@.len(),
    {
        let e = rest.remove(0);
        proof {
            assert(ev.take(i + 1).drop_last() =~= ev.take(i as int));
            assert(ev.take(i + 1).last() == ev[i as int]);
            assert(rest@ =~= ev.skip(i + 1));
        }
        let name_ok = match &e.name {
            Some(n) => chars_of(n.as_str()).len() > 0,
            None => false,
        };
        let has_command = match &e.command {
            Some(c) => chars_of(c.as_str()).len() > 0,
            None => false,
        };
        if !name_ok || !(has_command || e.has_url) {
            let mut m = owned("servers 里的条目缺少 name 或 transport（command / url）：");
            push_str(&mut m, e.text.as_str());
            proof {
                lemma_first_bad_stays(ev, i as int + 1);
            }
            return Err(m);
        }
        let spec = match e.spec {
            Err(m) => {
                proof {
                    lemma_first_bad_stays(ev, i as int + 1);
                }
                return Err(m);
            },
            Ok(s) => s,
        };
        if (chars_of(spec.command.as_str()).len() == 0) == spec.url.is_none() {
            let mut m = owned("服务器 ");
            push_str(&mut m, spec.name.as_str());
            push_str(&mut m, " 必须且只能填 command（stdio）或 url（HTTP）之一");
            proof {
                lemma_first_bad_stays(ev, i as int + 1);
            }
            return Err(m);
        }
        out.push(spec);
        i = i + 1;
    }
    assert(ev.take(i as int) =~= ev);
    Ok(out)
}

proof fn lemma_first_bad_stays(es: Seq<ServerEntry>, k: int)
    requires
        0 <= k <= es.len(),
        first_bad(es.take(k)) is Some,
    ensures
        first_bad(es) == first_bad(es.take(k)),
    decreases es.len() - k,
{
    if k == es.len() {
        assert(es.take(k) =~= es);
    } else {
        assert(es.take(k + 1).drop_last() =~= es.take(k));
        lemma_first_bad_stays(es, k + 1);
    }
}

/// The user-level configuration file, `$NEO_HOME/mcp.json` (from the
/// values of `NEO_HOME` and `HOME`).
pub fn user_config_path(neo_home_var: Option<&str>, home_var: Option<&str>) -> (r: Option<String>)
    ensures
        match r {
            Some(p) => neo_home_spec(
                match neo_home_var { Some(h) => Some(h@), None => None },
                match home_var { Some(h) => Some(h@), None => None },
            ) matches Some(h) && p@ == joined(h, "mcp.json"@),
            None => neo_home_spec(
                match neo_home_var { Some(h) => Some(h@), None => None },
                match home_var { Some(h) => Some(h@), None => None },
            ) is None,
        },
{
    match neo_home(neo_home_var, home_var) {
        Some(h) => Some(join_name(h.as_str(), "mcp.json")),
        None => None,
    }
}

/// The project-level files that are refused, under the workspace.
pub fn project_candidates(workspace: &str) -> (r: Vec<String>)
    ensures
        r@.len() == 2,
        r@[0]@ == joined(workspace@, "mcp.json"@),
        r@[1]@ == joined(workspace@, ".neo/mcp.json"@),
{
    let mut r: Vec<String> = Vec::new();
    r.push(join_name(workspace, "mcp.json"));
    r.push(join_name(workspace, ".neo/mcp.json"));
    r
}

/// Why a project-level file is refused.
pub open spec fn refusal(path: Seq<char>) -> Seq<char> {
    "拒绝读取项目级 "@ + path
        + "：MCP 服务器是可执行程序，属于供应链敏感配置，只允许放在用户级 ~/.neo/mcp.json（仓库指定的程序会让 git clone 变成任意代码执行）"@
}

/// `p` occurs in `s`.
pub open spec fn occurs(s: Seq<char>, p: Seq<char>) -> bool {
    exists|i: int| 0 <= i && i + p.len() <= s.len() && #[trigger] s.subrange(i, i + p.len()) == p
}

/// A refusal names the rejected file and says why: the file is supply-chain
/// sensitive (供应链) and belongs at user level (用户级) only.
pub proof fn law_refusal_explains(path: Seq<char>)
    ensures
        occurs(refusal(path), path),
        occurs(refusal(path), "供应链"@),
        occurs(refusal(path), "用户级"@),
{
    let a = "拒绝读取项目级 "@;
    let b = "：MCP 服务器是可执行程序，属于供应链敏感配置，只允许放在用户级 ~/.neo/mcp.json（仓库指定的程序会让 git clone 变成任意代码执行）"@;
    reveal_strlit("拒绝读取项目级 ");
    reveal_strlit("：MCP 服务器是可执行程序，属于供应链敏感配置，只允许放在用户级 ~/.neo/mcp.json（仓库指定的程序会让 git clone 变成任意代码执行）");
    reveal_strlit("供应链");
    reveal_strlit("用户级");
    let r = refusal(path);
    let n = path.len() as int;
    assert(r.subrange(8, 8 + n) =~= path);
    let i1 = 8 + n + 17;
    let i2 = 8 + n + 30;
    assert(r.subrange(i1, i1 + "供应链"@.len()) =~= "供应链"@);
    assert(r.subrange(i2, i2 + "用户级"@.len()) =~= "用户级"@);
    assert(r.subrange(8int, 8int + path.len()) =~= path);
}

/// Refuse the workspace when either project-level file exists
/// (`is_file[i]` for the `i`-th of [`project_candidates`]).
pub fn reject_project_level(workspace: &str, is_file: &[bool]) -> (r: Result<(), String>)
    requires
        is_file@.len() == 2,
    ensures
        is_file@[0] ==> (r matches Err(m) && m@ == refusal(joined(workspace@, "mcp.json"@))),
        !is_file@[0] && is_file@[1] ==> (r matches Err(m) && m@ == refusal(
            joined(workspace@, ".neo/mcp.json"@),
        )),
        !is_file@[0] && !is_file@[1] ==> r is Ok,
{
    let cands = project_candidates(workspace);
    let mut i: usize = 0;
    while i < 2
        invariant
            i <= 2,
            is_file@.len() == 2,
            cands@.len() == 2,
            cands@[0]@ == joined(workspace@, "mcp.json"@),
            cands@[1]@ == joined(workspace@, ".neo/mcp.json"@),
            forall|j: int| 0 <= j < i ==> !is_file@[j],
        decreases 2 - i,
    {
        if is_file[i] {
            let mut m = owned("拒绝读取项目级 ");
            push_str(&mut m, cands[i].as_str());
            push_str(
                &mut m,
                "：MCP 服务器是可执行程序，属于供应链敏感配置，只允许放在用户级 ~/.neo/mcp.json（仓库指定的程序会让 git clone 变成任意代码执行）",
            );
            return Err(m);
        }
        i = i + 1;
    }
    Ok(())
}

} // verus!
