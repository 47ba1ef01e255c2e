//! Line-by-line syntax highlighting for fenced code in Markdown: keywords,
//! strings, numbers and comments of a few common languages; anything else
//! stays plain.
use vstd::prelude::*;
use crate::tui::Tone;
use crate::text::{chars_of, trim, ascii_lower, first_index, string_of, sub_chars, chars_eq_str,
    next_word, next_word_exec, to_ascii_lower};

verus! {

/// Language of a code block.
#[derive(Debug, Clone, Copy, PartialEq, Eq, Structural)]
pub enum Lang {
    /// Not highlighted.
    Plain,
    Rust,
    Python,
    /// JavaScript and TypeScript.
    Js,
    /// POSIX shells.
    Shell,
}

/// The language a fence names (`rust`, `py`, `ts`, `bash`, …; first word,
/// any ASCII case); anything else is plain.
pub open spec fn lang_of(rest: Seq<char>) -> Lang {
    match next_word(rest) {
        None => Lang::Plain,
        Some((w, _)) => {
            let k = ascii_lower(w);
            if k == "rust"@ || k == "rs"@ {
                Lang::Rust
            } else if k == "python"@ || k == "py"@ {
                Lang::Python
            } else if k == "js"@ || k == "javascript"@ || k == "ts"@ || k == "typescript"@ {
                Lang::Js
            } else if k == "sh"@ || k == "bash"@ || k == "shell"@ || k == "zsh"@ {
                Lang::Shell
            } else {
                Lang::Plain
            }
        },
    }
}

impl Lang {
    /// The language named after an opening fence.
    pub fn from_fence(rest: &str) -> (r: Lang)
        ensures
            r == lang_of(rest@),
    {
        let v = chars_of(rest);
        match next_word_exec(v.as_slice()) {
            None => Lang::Plain,
            Some((w, _)) => {
                let k = to_ascii_lower(w.as_slice());
                let k = k.as_slice();
                if chars_eq_str(k, "rust") || chars_eq_str(k, "rs") {
                    Lang::Rust
                } else if chars_eq_str(k, "python") || chars_eq_str(k, "py") {
                    Lang::Python
                } else if chars_eq_str(k, "js") || chars_eq_str(k, "javascript") || chars_eq_str(
                    k,
                    "ts",
                ) || chars_eq_str(k, "typescript") {
                    Lang::Js
                } else if chars_eq_str(k, "sh") || chars_eq_str(k, "bash") || chars_eq_str(k, "shell")
                    || chars_eq_str(k, "zsh") {
                    Lang::Shell
                } else {
                    Lang::Plain
                }
            },
        }
    }
}

/// The keywords of a language.
pub open spec fn keywords(lang: Lang) -> Seq<Seq<char>> {
    match lang {
        Lang::Rust => seq!["as"@, "async"@, "await"@, "break"@, "const"@, "continue"@, "crate"@, "dyn"@, "else"@, "enum"@, "false"@, "fn"@, "for"@, "if"@, "impl"@, "in"@, "let"@, "loop"@, "match"@, "mod"@, "move"@, "mut"@, "pub"@, "ref"@, "return"@, "self"@, "Self"@, "static"@, "struct"@, "super"@, "trait"@, "true"@, "type"@, "unsafe"@, "use"@, "where"@, "while"@],
        Lang::Python => seq!["and"@, "as"@, "async"@, "await"@, "break"@, "class"@, "continue"@, "def"@, "del"@, "elif"@, "else"@, "except"@, "False"@, "finally"@, "for"@, "from"@, "global"@, "if"@, "import"@, "in"@, "is"@, "lambda"@, "None"@, "nonlocal"@, "not"@, "or"@, "pass"@, "raise"@, "return"@, "True"@, "try"@, "while"@, "with"@, "yield"@],
        Lang::Js => seq!["async"@, "await"@, "break"@, "case"@, "catch"@, "class"@, "const"@, "continue"@, "default"@, "do"@, "else"@, "export"@, "false"@, "finally"@, "for"@, "from"@, "function"@, "if"@, "import"@, "in"@, "instanceof"@, "let"@, "new"@, "null"@, "of"@, "return"@, "switch"@, "this"@, "throw"@, "true"@, "try"@, "typeof"@, "undefined"@, "var"@, "while"@],
        Lang::Shell => seq!["case"@, "do"@, "done"@, "elif"@, "else"@, "esac"@, "export"@, "fi"@, "for"@, "function"@, "if"@, "in"@, "local"@, "return"@, "then"@, "while"@],
        Lang::Plain => Seq::empty(),
    }
}

fn keyword_list(lang: Lang) -> (r: Vec<&'static str>)
    ensures
        r@.map_values(|s: &'static str| s@) == keywords(lang),
{
    let mut v: Vec<&'static str> = Vec::new();
    match lang {
        Lang::Rust => {
            v.push("as");
            v.push("async");
            v.push("await");
            v.push("break");
            v.push("const");
            v.push("continue");
            v.push("crate");
            v.push("dyn");
            v.push("else");
            v.push("enum");
            v.push("false");
            v.push("fn");
            v.push("for");
            v.push("if");
            v.push("impl");
            v.push("in");
            v.push("let");
            v.push("loop");
            v.push("match");
            v.push("mod");
            v.push("move");
            v.push("mut");
            v.push("pub");
            v.push("ref");
            v.push("return");
            v.push("self");
            v.push("Self");
            v.push("static");
            v.push("struct");
            v.push("super");
            v.push("trait");
            v.push("true");
            v.push("type");
            v.push("unsafe");
            v.push("use");
            v.push("where");
            v.push("while");
        },
        Lang::Python => {
            v.push("and");
            v.push("as");
            v.push("async");
            v.push("await");
            v.push("break");
            v.push("class");
            v.push("continue");
            v.push("def");
            v.push("del");
            v.push("elif");
            v.push("else");
            v.push("except");
            v.push("False");
            v.push("finally");
            v.push("for");
            v.push("from");
            v.push("global");
            v.push("if");
            v.push("import");
            v.push("in");
            v.push("is");
            v.push("lambda");
            v.push("None");
            v.push("nonlocal");
            v.push("not");
            v.push("or");
            v.push("pass");
            v.push("raise");
            v.push("return");
            v.push("True");
            v.push("try");
            v.push("while");
            v.push("with");
            v.push("yield");
        },
        Lang::Js => {
            v.push("async");
            v.push("await");
            v.push("break");
            v.push("case");
            v.push("catch");
            v.push("class");
            v.push("const");
            v.push("continue");
            v.push("default");
            v.push("do");
            v.push("else");
            v.push("export");
            v.push("false");
            v.push("finally");
            v.push("for");
            v.push("from");
            v.push("function");
            v.push("if");
            v.push("import");
            v.push("in");
            v.push("instanceof");
            v.push("let");
            v.push("new");
            v.push("null");
            v.push("of");
            v.push("return");
            v.push("switch");
            v.push("this");
            v.push("throw");
            v.push("true");
            v.push("try");
            v.push("typeof");
            v.push("undefined");
            v.push("var");
            v.push("while");
        },
        Lang::Shell => {
            v.push("case");
            v.push("do");
            v.push("done");
            v.push("elif");
            v.push("else");
            v.push("esac");
            v.push("export");
            v.push("fi");
            v.push("for");
            v.push("function");
            v.push("if");
            v.push("in");
            v.push("local");
            v.push("return");
            v.push("then");
            v.push("while");
        },
        Lang::Plain => {},
    }
    assert(v@.map_values(|s: &'static str| s@) =~= keywords(lang));
    v
}


pub open spec fn is_ident_start(c: char) -> bool {
    ('a' <= c && c <= 'z') || ('A' <= c && c <= 'Z') || c == '_'
}

pub open spec fn is_ident_char(c: char) -> bool {
    is_ident_start(c) || ('0' <= c && c <= '9')
}

pub open spec fn is_digit(c: char) -> bool {
    '0' <= c && c <= '9'
}

/// Length of the leading run of characters satisfying `p`.
pub open spec fn run_len(s: Seq<char>, p: spec_fn(char) -> bool) -> nat
    decreases s.len(),
{
    if s.len() > 0 && p(s[0]) {
        1 + run_len(s.drop_first(), p)
    } else {
        0
    }
}

/// Characters of a string literal after its opening quote `q`, up to and
/// including the closing one (a backslash escapes the next character); all
/// of the rest when it is not closed.
pub open spec fn quoted_len(s: Seq<char>, q: char) -> nat
    decreases s.len(),
{
    if s.len() == 0 {
        0
    } else if s[0] == '\\' {
        if s.len() >= 2 {
            2 + quoted_len(s.skip(2), q)
        } else {
            1
        }
    } else if s[0] == q {
        1
    } else {
        1 + quoted_len(s.drop_first(), q)
    }
}

/// Whether a line comment starts here.
pub open spec fn comment_here(s: Seq<char>, lang: Lang) -> bool {
    match lang {
        Lang::Rust | Lang::Js => s.len() >= 2 && s[0] == '/' && s[1] == '/',
        Lang::Python | Lang::Shell => s.len() >= 1 && s[0] == '#',
        Lang::Plain => false,
    }
}

/// Whether `c` opens a string (`'` is a lifetime in Rust).
pub open spec fn opens_string(c: char, lang: Lang) -> bool {
    c == '"' || (c == '\'' && lang != Lang::Rust)
}

pub proof fn lemma_run_len(s: Seq<char>, p: spec_fn(char) -> bool)
    ensures
        run_len(s, p) <= s.len(),
    decreases s.len(),
{
    if s.len() > 0 && p(s[0]) {
        lemma_run_len(s.drop_first(), p);
    }
}

pub proof fn lemma_quoted_len(s: Seq<char>, q: char)
    ensures
        quoted_len(s, q) <= s.len(),
    decreases s.len(),
{
    if s.len() > 0 {
        if s[0] == '\\' {
            if s.len() >= 2 {
                lemma_quoted_len(s.skip(2), q);
            }
        } else if s[0] != q {
            lemma_quoted_len(s.drop_first(), q);
        }
    }
}

/// The highlighted pieces of a line of code: a comment takes the rest of
/// the line (muted), strings are success-coloured, numbers warnings,
/// keywords accented, other words and characters plain.
pub open spec fn tokens(s: Seq<char>, lang: Lang) -> Seq<(Seq<char>, Tone)>
    decreases s.len(),
{
    if s.len() == 0 {
        Seq::empty()
    } else if comment_here(s, lang) {
        seq![(s, Tone::Muted)]
    } else if opens_string(s[0], lang) {
        let n = 1 + quoted_len(s.drop_first(), s[0]);
        proof {
            lemma_quoted_len(s.drop_first(), s[0]);
        }
        seq![(s.take(n as int), Tone::Success)] + tokens(s.skip(n as int), lang)
    } else if is_ident_start(s[0]) {
        let n = run_len(s, |c: char| is_ident_char(c));
        proof {
            lemma_run_len(s, |c: char| is_ident_char(c));
        }
        let w = s.take(n as int);
        let tone = if keywords(lang).contains(w) {
            Tone::Accent
        } else {
            Tone::Text
        };
        if n > 0 {
            seq![(w, tone)] + tokens(s.skip(n as int), lang)
        } else {
            Seq::empty()
        }
    } else if is_digit(s[0]) {
        let n = run_len(s, |c: char| is_ident_char(c));
        proof {
            lemma_run_len(s, |c: char| is_ident_char(c));
        }
        if n > 0 {
            seq![(s.take(n as int), Tone::Warning)] + tokens(s.skip(n as int), lang)
        } else {
            Seq::empty()
        }
    } else {
        seq![(seq![s[0]], Tone::Text)] + tokens(s.drop_first(), lang)
    }
}

/// The highlighted pieces of a code line; plain code is one plain piece.
pub open spec fn highlight_of(s: Seq<char>, lang: Lang) -> Seq<(Seq<char>, Tone)> {
    if lang == Lang::Plain {
        if s.len() == 0 {
            Seq::empty()
        } else {
            seq![(s, Tone::Text)]
        }
    } else {
        tokens(s, lang)
    }
}

pub open spec fn spans_view(v: Seq<(String, Tone)>) -> Seq<(Seq<char>, Tone)> {
    v.map_values(|p: (String, Tone)| (p.0@, p.1))
}

fn is_ident_char_exec(c: char) -> (r: bool)
    ensures
        r == is_ident_char(c),
{
    ('a' <= c && c <= 'z') || ('A' <= c && c <= 'Z') || c == '_' || ('0' <= c && c <= '9')
}

fn run_len_ident(v: &[char], start: usize) -> (r: usize)
    requires
        start <= v@.len(),
    ensures
        r == run_len(v@.skip(start as int), |c: char| is_ident_char(c)),
        start + r <= v@.len(),
{
    let ghost p = |c: char| is_ident_char(c);
    let mut i = start;
    while i < v.len() && is_ident_char_exec(v[i])
        invariant
            start <= i <= v@.len(),
            p == (|c: char| is_ident_char(c)),
            run_len(v@.skip(start as int), p) == (i - start) + run_len(v@.skip(i as int), p),
        decreases v@.len() - i,
    {
        assert(v@.skip(i as int)[0] == v@[i as int]);
        assert(p(v@[i as int]));
        assert(v@.skip(i as int).drop_first() =~= v@.skip(i + 1));
        i = i + 1;
    }
    proof {
        if i < v@.len() {
            assert(v@.skip(i as int)[0] == v@[i as int]);
            assert(!p(v@[i as int]));
        }
    }
    i - start
}

/// `quoted_len` of what follows the opening quote at `start - 1`.
fn quoted_len_exec(v: &[char], start: usize, q: char) -> (r: usize)
    requires
        start <= v@.len(),
    ensures
        r == quoted_len(v@.skip(start as int), q),
        start + r <= v@.len(),
{
    let n = v.len();
    let mut j = start;
    let mut done = false;
    while !done && j < n
        invariant
            start <= j <= n,
            n == v@.len(),
            done ==> quoted_len(v@.skip(start as int), q) == j - start,
            !done ==> quoted_len(v@.skip(start as int), q) == (j - start) + quoted_len(
                v@.skip(j as int),
                q,
            ),
        decreases n - j, (if done { 0int } else { 1int }),
    {
        let ghost t = v@.skip(j as int);
        assert(t[0] == v@[j as int]);
        if v[j] == '\\' {
            if n - j >= 2 {
                assert(t.skip(2) =~= v@.skip(j + 2));
                j = j + 2;
            } else {
                j = j + 1;
                done = true;
            }
        } else if v[j] == q {
            j = j + 1;
            done = true;
        } else {
            assert(t.drop_first() =~= v@.skip(j + 1));
            j = j + 1;
        }
    }
    proof {
        if !done {
            assert(v@.skip(j as int).len() == 0);
        }
    }
    j - start
}

fn contains_word(list: &Vec<&'static str>, w: &[char]) -> (r: bool)
    ensures
        r == list@.map_values(|s: &'static str| s@).contains(w@),
{
    let ghost l = list@.map_values(|s: &'static str| s@);
    let mut i: usize = 0;
    while i < list.len()
        invariant
            i <= list@.len(),
            l == list@.map_values(|s: &'static str| s@),
            forall|j: int| 0 <= j < i ==> l[j] != w@,
        decreases list@.len() - i,
    {
        if chars_eq_str(w, list[i]) {
            assert(l[i as int] == w@);
            return true;
        }
        i = i + 1;
    }
    false
}

/// The highlighted pieces of one line of code.
pub fn highlight_line(line: &str, lang: Lang) -> (r: Vec<(String, Tone)>)
    ensures
        spans_view(r@) == highlight_of(line@, lang),
{
    let v = chars_of(line);
    let n = v.len();
    let mut out: Vec<(String, Tone)> = Vec::new();
    if lang == Lang::Plain {
        if n > 0 {
            out.push((crate::text::owned(line), Tone::Text));
        }
        assert(spans_view(out@) =~= highlight_of(line@, lang));
        return out;
    }
    let kws = keyword_list(lang);
    let mut i: usize = 0;
    assert(v@.skip(0) =~= v@);
    assert(spans_view(out@) + tokens(v@, lang) =~= tokens(v@, lang));
    while i < n
        invariant
            i <= n,
            n == v@.len(),
            v@ == line@,
            lang != Lang::Plain,
            kws@.map_values(|s: &'static str| s@) == keywords(lang),
            spans_view(out@) + tokens(v@.skip(i as int), lang) == tokens(v@, lang),
        decreases n - i,
    {
        let ghost s = v@.skip(i as int);
        let ghost o0 = spans_view(out@);
        assert(s[0] == v@[i as int]);
        let c = v[i];
        let cmt = match lang {
            Lang::Rust | Lang::Js => n - i >= 2 && c == '/' && v[i + 1] == '/',
            _ => c == '#',
        };
        assert(cmt == comment_here(s, lang)) by {
            if n - i >= 2 {
                assert(s[1] == v@[i + 1]);
            }
        }
        if cmt {
            let rest = sub_chars(v.as_slice(), i, n);
            assert(rest@ =~= s);
            out.push((string_of(rest.as_slice()), Tone::Muted));
            assert(spans_view(out@) =~= o0 + seq![(s, Tone::Muted)]);
            assert(v@.skip(n as int) =~= Seq::<char>::empty());
            assert(spans_view(out@) + tokens(v@.skip(n as int), lang) =~= spans_view(out@));
            i = n;
        } else {
            let k: usize;
            let tone: Tone;
            if c == '"' || (c == '\'' && lang != Lang::Rust) {
                let q = quoted_len_exec(v.as_slice(), i + 1, c);
                assert(v@.skip(i + 1) =~= s.drop_first());
                k = 1 + q;
                tone = Tone::Success;
            } else if ('a' <= c && c <= 'z') || ('A' <= c && c <= 'Z') || c == '_' {
                k = run_len_ident(v.as_slice(), i);
                assert(k >= 1) by {
                    assert(s.drop_first() =~= v@.skip(i + 1));
                }
                let w = sub_chars(v.as_slice(), i, i + k);
                assert(w@ =~= s.take(k as int));
                tone = if contains_word(&kws, w.as_slice()) {
                    Tone::Accent
                } else {
                    Tone::Text
                };
            } else if '0' <= c && c <= '9' {
                k = run_len_ident(v.as_slice(), i);
                assert(k >= 1) by {
                    assert(s.drop_first() =~= v@.skip(i + 1));
                }
                tone = Tone::Warning;
            } else {
                k = 1;
                tone = Tone::Text;
            }
            let piece = sub_chars(v.as_slice(), i, i + k);
            assert(piece@ =~= s.take(k as int));
            out.push((string_of(piece.as_slice()), tone));
            assert(s.skip(k as int) =~= v@.skip(i + k));
            assert(seq![s[0]] =~= s.take(1));
            assert(s.drop_first() =~= s.skip(1));
            assert(tokens(s, lang) == seq![(s.take(k as int), tone)] + tokens(s.skip(k as int), lang));
            assert(spans_view(out@) =~= o0.push((s.take(k as int), tone)));
            assert(spans_view(out@) + tokens(v@.skip(i + k), lang) =~= o0 + tokens(s, lang));
            i = i + k;
        }
    }
    assert(v@.skip(n as int) =~= Seq::<char>::empty());
    assert(spans_view(out@) + Seq::<(Seq<char>, Tone)>::empty() =~= spans_view(out@));
    out
}

} // verus!
