//! Terminal host logic: key decoding, approval answers, input-line
//! helpers, popup item application, the trust prompt and layout arithmetic.
use vstd::prelude::*;
use vstd::utf8::{valid_utf8, decode_utf8};
use crate::framing::dec_of;
use crate::mouse::MouseEvent;
use crate::width::{width_of, seq_width, char_width, display_width};
use crate::editor::Editor;
use crate::popup::{Item, ItemAction, Popup};
use crate::theme::ThemeName;
use crate::commands::{Action, HELP_TEXT, KEYS_TEXT, help_text, keys_text};
use crate::appearance::{Background, LogoStyle};
use crate::mouse::Button;
use crate::text::{is_ws, is_whitespace, trim, ascii_lower, chars_of, trim_str, to_ascii_lower,
    chars_eq_str, owned, push_str, push_char, string_of};

verus! {

/// First-screen "about" information, injected by the caller.
#[derive(Debug, Clone)]
pub struct About {
    pub version: String,
    pub model: String,
    /// Full mode description.
    pub mode: String,
    /// Short mode name (footer).
    pub mode_short: String,
    pub workspace: String,
    /// git branch (empty = not in a repository).
    pub branch: String,
    /// Example task shown on an empty input.
    pub example: String,
    /// Model context window in tokens (0 = unknown).
    pub context_limit: u64,
    pub session: String,
}


// ── tones ────────────────────────────────────────────────────────────

/// Semantic colour of a cell; the palette turns it into an escape
/// sequence when the screen is written, so degrading colours happens in
/// one place.
#[derive(Debug, Clone, Copy, PartialEq, Eq, Structural)]
pub enum Tone {
    /// Nothing written (the background texture may show).
    Blank,
    Text,
    Primary,
    Accent,
    Success,
    Error,
    Warning,
    Info,
    Muted,
    Border,
    BorderActive,
    /// Faint (SGR 2), for the weakest structural text.
    Dim,
    StarDim,
    StarBright,
    /// Any RGB (the logo gradient).
    Rgb(u8, u8, u8),
}

// ── keys ─────────────────────────────────────────────────────────────

/// One key press.
#[derive(Debug, Clone, Copy, PartialEq, Eq, Structural)]
pub enum Key {
    Char(char),
    Enter,
    Backspace,
    /// Ctrl+C / Ctrl+D.
    Quit,
    /// Esc: closes a popup.
    Escape,
    /// Ctrl+P: command palette.
    CommandPalette,
    /// Ctrl+T: next theme.
    NextTheme,
    /// Ctrl+B: toggle the sidebar.
    ToggleSidebar,
    /// Ctrl+L: clear the screen.
    ClearScreen,
    /// Ctrl+U: delete to line start.
    ClearLine,
    /// Ctrl+K: delete to line end.
    DeleteToLineEnd,
    /// Ctrl+W: delete the previous word.
    DeleteWordBackward,
    /// Ctrl+Z: undo.
    Undo,
    /// Ctrl+Y: redo.
    Redo,
    /// Delete (forward).
    Delete,
    Home,
    End,
    /// Alt+B / Alt+F: move by word.
    WordBackward,
    WordForward,
    /// PageUp / PageDown: scroll the transcript.
    PageUp,
    PageDown,
    /// Ctrl+E: back to the bottom.
    ScrollToBottom,
    ScrollToTop,
    /// Ctrl+F: search; Ctrl+N / Ctrl+P: next / previous hit.
    Search,
    SearchNext,
    SearchPrev,
    /// A mouse report (SGR encoding).
    Mouse(MouseEvent),
    /// Ctrl+R: search the history.
    SearchHistory,
    /// Ctrl+G: edit the input in `$EDITOR`.
    ExternalEditor,
    /// Tab: complete an `@` reference.
    Tab,
    Up,
    Down,
    Left,
    Right,
    /// Any other escape sequence (kept apart from ordinary characters).
    Unknown,
}

/// The key a single control byte stands for, if it is one of ours.
pub open spec fn control_key(b: u8) -> Option<Key> {
    if b == 0x03 || b == 0x04 {
        Some(Key::Quit)
    } else if b == 0x0c {
        Some(Key::ClearScreen)
    } else if b == 0x15 {
        Some(Key::ClearLine)
    } else if b == 0x12 {
        Some(Key::SearchHistory)
    } else if b == 0x07 {
        Some(Key::ExternalEditor)
    } else if b == 0x09 {
        Some(Key::Tab)
    } else if b == 0x0d || b == 0x0a {
        Some(Key::Enter)
    } else if b == 0x7f || b == 0x08 {
        Some(Key::Backspace)
    } else if b == 0x05 {
        Some(Key::ScrollToBottom)
    } else if b == 0x06 {
        Some(Key::Search)
    } else if b == 0x0e {
        Some(Key::SearchNext)
    } else if b == 0x0b {
        Some(Key::DeleteToLineEnd)
    } else if b == 0x17 {
        Some(Key::DeleteWordBackward)
    } else if b == 0x1a {
        Some(Key::Undo)
    } else if b == 0x19 {
        Some(Key::Redo)
    } else if b == 0x10 {
        Some(Key::CommandPalette)
    } else if b == 0x14 {
        Some(Key::NextTheme)
    } else if b == 0x02 {
        Some(Key::ToggleSidebar)
    } else if b == 0x1b {
        Some(Key::Escape)
    } else {
        None
    }
}

/// The key for an escape sequence (`ESC` followed by at least one byte).
pub open spec fn escape_key(b: Seq<u8>) -> Key {
    if b.len() == 2 {
        if b[1] == 0x62 {
            Key::WordBackward
        } else if b[1] == 0x66 {
            Key::WordForward
        } else {
            Key::Unknown
        }
    } else if b.len() == 3 && b[1] == 0x5b {
        if b[2] == 0x41 {
            Key::Up
        } else if b[2] == 0x42 {
            Key::Down
        } else if b[2] == 0x43 {
            Key::Right
        } else if b[2] == 0x44 {
            Key::Left
        } else if b[2] == 0x48 {
            Key::Home
        } else if b[2] == 0x46 {
            Key::End
        } else {
            Key::Unknown
        }
    } else if b.len() == 4 && b[1] == 0x5b && b[3] == 0x7e {
        if b[2] == 0x35 {
            Key::PageUp
        } else if b[2] == 0x36 {
            Key::PageDown
        } else if b[2] == 0x33 {
            Key::Delete
        } else if b[2] == 0x31 {
            Key::Home
        } else if b[2] == 0x34 {
            Key::End
        } else {
            Key::Unknown
        }
    } else {
        Key::Unknown
    }
}

/// What a read of bytes decodes to: control bytes and the escape
/// sequences we know; a lone `ESC` is `Escape`, any other `ESC` sequence is
/// `Unknown`; otherwise the first character of well-formed UTF-8, else
/// `Unknown`.
pub open spec fn key_of(b: Seq<u8>) -> Key {
    if b.len() == 1 && control_key(b[0]) is Some {
        control_key(b[0])->0
    } else if b.len() >= 2 && b[0] == 0x1b {
        escape_key(b)
    } else if b.len() > 0 && valid_utf8(b) {
        Key::Char(decode_utf8(b)[0])
    } else {
        Key::Unknown
    }
}

/// Typing a printable character (not a control character, not DEL) gives
/// that character as a key: its UTF-8 bytes decode to it.
pub proof fn law_printable_char_decodes(c: char)
    requires
        c as u32 >= 0x20,
        c != '\u{7f}',
    ensures
        key_of(vstd::utf8::encode_utf8(seq![c])) == Key::Char(c),
{
    let s = seq![c];
    let b = vstd::utf8::encode_utf8(s);
    vstd::utf8::encode_utf8_decode_utf8(s);
    vstd::utf8::encode_utf8_valid_utf8(s);
    let u = c as u32;
    assert(s.drop_first() =~= Seq::<char>::empty());
    assert(b =~= vstd::utf8::encode_scalar(u) + vstd::utf8::encode_utf8(Seq::<char>::empty()));
    assert(b =~= vstd::utf8::encode_scalar(u));
    if u <= 0x7f {
        assert((u & 0x7F) as u8 == u as u8) by (bit_vector)
            requires
                u <= 0x7f,
        ;
        assert(b[0] == u as u8);
    } else if u <= 0x7ff {
        assert((0xC0u8 | ((u >> 6) & 0x1F) as u8) != 0x1bu8) by (bit_vector);
    } else if 0x800 <= u <= 0xFFFF && !(0xD800 <= u <= 0xDFFF) {
        assert((0xE0u8 | ((u >> 12) & 0x0F) as u8) != 0x1bu8) by (bit_vector);
    } else {
        assert((0xF0u8 | ((u >> 18) & 0x7) as u8) != 0x1bu8) by (bit_vector);
    }
}

fn control_key_exec(b: u8) -> (r: Option<Key>)
    ensures
        r == control_key(b),
{
    if b == 0x03 || b == 0x04 {
        Some(Key::Quit)
    } else if b == 0x0c {
        Some(Key::ClearScreen)
    } else if b == 0x15 {
        Some(Key::ClearLine)
    } else if b == 0x12 {
        Some(Key::SearchHistory)
    } else if b == 0x07 {
        Some(Key::ExternalEditor)
    } else if b == 0x09 {
        Some(Key::Tab)
    } else if b == 0x0d || b == 0x0a {
        Some(Key::Enter)
    } else if b == 0x7f || b == 0x08 {
        Some(Key::Backspace)
    } else if b == 0x05 {
        Some(Key::ScrollToBottom)
    } else if b == 0x06 {
        Some(Key::Search)
    } else if b == 0x0e {
        Some(Key::SearchNext)
    } else if b == 0x0b {
        Some(Key::DeleteToLineEnd)
    } else if b == 0x17 {
        Some(Key::DeleteWordBackward)
    } else if b == 0x1a {
        Some(Key::Undo)
    } else if b == 0x19 {
        Some(Key::Redo)
    } else if b == 0x10 {
        Some(Key::CommandPalette)
    } else if b == 0x14 {
        Some(Key::NextTheme)
    } else if b == 0x02 {
        Some(Key::ToggleSidebar)
    } else if b == 0x1b {
        Some(Key::Escape)
    } else {
        None
    }
}

fn escape_key_exec(b: &[u8]) -> (r: Key)
    requires
        b@.len() >= 2,
    ensures
        r == escape_key(b@),
{
    let n = b.len();
    if n == 2 {
        if b[1] == 0x62 {
            Key::WordBackward
        } else if b[1] == 0x66 {
            Key::WordForward
        } else {
            Key::Unknown
        }
    } else if n == 3 && b[1] == 0x5b {
        let c = b[2];
        if c == 0x41 {
            Key::Up
        } else if c == 0x42 {
            Key::Down
        } else if c == 0x43 {
            Key::Right
        } else if c == 0x44 {
            Key::Left
        } else if c == 0x48 {
            Key::Home
        } else if c == 0x46 {
            Key::End
        } else {
            Key::Unknown
        }
    } else if n == 4 && b[1] == 0x5b && b[3] == 0x7e {
        let c = b[2];
        if c == 0x35 {
            Key::PageUp
        } else if c == 0x36 {
            Key::PageDown
        } else if c == 0x33 {
            Key::Delete
        } else if c == 0x31 {
            Key::Home
        } else if c == 0x34 {
            Key::End
        } else {
            Key::Unknown
        }
    } else {
        Key::Unknown
    }
}

/// Calls `std::str::from_utf8`: succeeds exactly on well-formed UTF-8, and
/// the string holds the characters the bytes encode.
#[verifier::external_body]
fn utf8_str(bytes: &[u8]) -> (r: Option<&str>)
    ensures
        r is Some <==> valid_utf8(bytes@),
        r matches Some(s) ==> s@ == decode_utf8(bytes@),
{
    std::str::from_utf8(bytes).ok()
}

/// Decode one key from the bytes of one read.
pub fn decode_key(bytes: &[u8]) -> (r: Key)
    ensures
        r == key_of(bytes@),
{
    let n = bytes.len();
    if n == 1 {
        if let Some(k) = control_key_exec(bytes[0]) {
            return k;
        }
    } else if n >= 2 && bytes[0] == 0x1b {
        return escape_key_exec(bytes);
    }
    match utf8_str(bytes) {
        Some(s) => {
            let cs = chars_of(s);
            if cs.len() > 0 {
                Key::Char(cs[0])
            } else {
                Key::Unknown
            }
        },
        None => Key::Unknown,
    }
}

// ── approval answers ─────────────────────────────────────────────────

/// `y`/`yes` approve, `n`/`no` refuse (trimmed, any ASCII case); anything
/// else is no answer, and nothing is submitted.
pub open spec fn approval_of(s: Seq<char>) -> Option<bool> {
    let k = ascii_lower(trim(s));
    if k == "y"@ || k == "yes"@ {
        Some(true)
    } else if k == "n"@ || k == "no"@ {
        Some(false)
    } else {
        None
    }
}

pub fn parse_approval_answer(s: &str) -> (r: Option<bool>)
    ensures
        r == approval_of(s@),
{
    let t = trim_str(s);
    let v = chars_of(t);
    let k = to_ascii_lower(v.as_slice());
    let k = k.as_slice();
    if chars_eq_str(k, "y") || chars_eq_str(k, "yes") {
        Some(true)
    } else if chars_eq_str(k, "n") || chars_eq_str(k, "no") {
        Some(false)
    } else {
        None
    }
}

// ── `@` references in the input line ─────────────────────────────────

/// Position of the last `c` in `s`.
pub open spec fn last_index(s: Seq<char>, c: char) -> Option<int>
    decreases s.len(),
{
    if s.len() == 0 {
        None
    } else if s.last() == c {
        Some(s.len() - 1)
    } else {
        last_index(s.drop_last(), c)
    }
}

proof fn lemma_last_index(s: Seq<char>, c: char, i: int)
    requires
        -1 <= i < s.len(),
        forall|j: int| i < j < s.len() ==> s[j] != c,
    ensures
        i >= 0 && s[i] == c ==> last_index(s, c) == Some(i),
        i == -1 ==> last_index(s, c) is None,
    decreases s.len(),
{
    if s.len() > 0 && i < s.len() - 1 {
        lemma_last_index(s.drop_last(), c, i);
    }
}

/// `last_index` computed.
pub fn rfind_char(v: &[char], c: char) -> (r: Option<usize>)
    ensures
        match r {
            Some(i) => last_index(v@, c) == Some(i as int) && i < v@.len() && v@[i as int] == c,
            None => last_index(v@, c) is None,
        },
{
    let mut i: usize = v.len();
    while i > 0
        invariant
            i <= v@.len(),
            forall|j: int| i <= j < v@.len() ==> v@[j] != c,
        decreases i,
    {
        if v[i - 1] == c {
            proof {
                lemma_last_index(v@, c, i - 1);
            }
            return Some(i - 1);
        }
        i = i - 1;
    }
    proof {
        lemma_last_index(v@, c, -1);
    }
    None
}

fn contains_char(v: &[char], c: char) -> (r: bool)
    ensures
        r == v@.contains(c),
{
    let mut i: usize = 0;
    while i < v.len()
        invariant
            i <= v@.len(),
            forall|j: int| 0 <= j < i ==> v@[j] != c,
        decreases v@.len() - i,
    {
        if v[i] == c {
            return true;
        }
        i = i + 1;
    }
    false
}

/// The query after the last `@`, while it holds no space.
pub open spec fn at_query_of(s: Seq<char>) -> Option<Seq<char>> {
    match last_index(s, '@') {
        None => None,
        Some(i) => {
            let after = s.subrange(i + 1, s.len() as int);
            if after.contains(' ') {
                None
            } else {
                Some(after)
            }
        },
    }
}

/// The query after the last `@` (what the file list is filtered by).
pub fn at_query(input: &str) -> (r: Option<&str>)
    ensures
        match r {
            Some(q) => at_query_of(input@) == Some(q@),
            None => at_query_of(input@) is None,
        },
{
    let v = chars_of(input);
    let at = match rfind_char(v.as_slice(), '@') {
        Some(i) => i,
        None => return None,
    };
    let after = input.substring_char(at + 1, v.len());
    let av = chars_of(after);
    if contains_char(av.as_slice(), ' ') {
        None
    } else {
        Some(after)
    }
}

/// The input with its last `@` fragment replaced by `@replacement`; when
/// there is no `@`, or the fragment is already finished (holds a space),
/// a new reference is appended instead.
pub open spec fn completed_of(input: Seq<char>, rep: Seq<char>) -> Seq<char> {
    match last_index(input, '@') {
        Some(i) => if input.subrange(i + 1, input.len() as int).contains(' ') {
            input + seq!['@'] + rep
        } else {
            input.subrange(0, i) + seq!['@'] + rep
        },
        None => input + seq!['@'] + rep,
    }
}

/// Completing at the last `@`: when its fragment holds no space, the
/// fragment is replaced (`"fix @src/ma"` with `src/main.rs` gives
/// `"fix @src/main.rs"`).
pub proof fn law_complete_replaces_last_fragment(input: Seq<char>, rep: Seq<char>, i: int)
    requires
        0 <= i < input.len(),
        input[i] == '@',
        forall|j: int| i < j < input.len() ==> input[j] != '@',
        !input.subrange(i + 1, input.len() as int).contains(' '),
    ensures
        completed_of(input, rep) == input.subrange(0, i) + seq!['@'] + rep,
{
    lemma_last_index(input, '@', i);
}

/// Without an `@`, or when the fragment after the last one holds a space,
/// a new reference is appended (`"hi"` with `x` gives `"hi@x"`).
pub proof fn law_complete_appends(input: Seq<char>, rep: Seq<char>, i: int)
    requires
        -1 <= i < input.len(),
        forall|j: int| i < j < input.len() ==> input[j] != '@',
        i >= 0 ==> input[i] == '@' && input.subrange(i + 1, input.len() as int).contains(' '),
    ensures
        completed_of(input, rep) == input + seq!['@'] + rep,
{
    lemma_last_index(input, '@', i);
}

pub fn complete_at_token(input: &str, replacement: &str) -> (r: String)
    ensures
        r@ == completed_of(input@, replacement@),
{
    let v = chars_of(input);
    let n = v.len();
    let mut keep = n;
    if let Some(at) = rfind_char(v.as_slice(), '@') {
        assert(at < n);
        let after = input.substring_char(at + 1, n);
        let av = chars_of(after);
        if !contains_char(av.as_slice(), ' ') {
            keep = at;
        }
    }
    let mut r = owned(input.substring_char(0, keep));
    push_char(&mut r, '@');
    push_str(&mut r, replacement);
    proof {
        assert(input@.subrange(0, input@.len() as int) =~= input@);
    }
    r
}

/// Whether the input is in a popup context: the last `@` or `/` starts a
/// word and nothing after it is whitespace. Gives the popup kind and the
/// filter text.
pub open spec fn last_trigger(s: Seq<char>) -> Option<int>
    decreases s.len(),
{
    if s.len() == 0 {
        None
    } else if s.last() == '@' || s.last() == '/' {
        Some(s.len() - 1)
    } else {
        last_trigger(s.drop_last())
    }
}

pub open spec fn popup_context_of(s: Seq<char>) -> Option<(crate::popup::Kind, Seq<char>)> {
    match last_trigger(s) {
        None => None,
        Some(i) => {
            let q = s.subrange(i + 1, s.len() as int);
            if !(i == 0 || is_ws(s[i - 1])) {
                None
            } else if exists|j: int| 0 <= j < q.len() && is_ws(#[trigger] q[j]) {
                None
            } else if s[i] == '@' {
                Some((crate::popup::Kind::File, q))
            } else {
                Some((crate::popup::Kind::Slash, q))
            }
        },
    }
}

proof fn lemma_last_trigger(s: Seq<char>, i: int)
    requires
        -1 <= i < s.len(),
        forall|j: int| i < j < s.len() ==> s[j] != '@' && s[j] != '/',
    ensures
        i >= 0 && (s[i] == '@' || s[i] == '/') ==> last_trigger(s) == Some(i),
        i == -1 ==> last_trigger(s) is None,
    decreases s.len(),
{
    if s.len() > 0 && i < s.len() - 1 {
        lemma_last_trigger(s.drop_last(), i);
    }
}

/// The popup the input asks for, with its filter text.
pub fn self_popup_context(input: &str) -> (r: Option<(crate::popup::Kind, String)>)
    ensures
        match r {
            Some((k, q)) => popup_context_of(input@) == Some((k, q@)),
            None => popup_context_of(input@) is None,
        },
{
    let v = chars_of(input);
    let n = v.len();
    let mut i: usize = n;
    while i > 0
        invariant
            i <= n,
            n == v@.len(),
            v@ == input@,
            forall|j: int| i <= j < n ==> v@[j] != '@' && v@[j] != '/',
        decreases i,
    {
        let c = v[i - 1];
        if c == '@' || c == '/' {
            proof {
                lemma_last_trigger(v@, i - 1);
            }
            let k = i - 1;
            if !(k == 0 || is_whitespace(v[k - 1])) {
                return None;
            }
            let mut j: usize = k + 1;
            while j < n
                invariant
                    k + 1 <= j <= n,
                    n == v@.len(),
                    v@ == input@,
                    last_trigger(input@) == Some(k as int),
                    k == 0 || is_ws(input@[k - 1]),
                    forall|m: int| k + 1 <= m < j ==> !is_ws(#[trigger] v@[m]),
                decreases n - j,
            {
                if is_whitespace(v[j]) {
                    proof {
                        let q = input@.subrange(k + 1, input@.len() as int);
                        assert(q[j - k - 1] == v@[j as int]);
                        assert(is_ws(q[j - k - 1]));
                    }
                    return None;
                }
                j = j + 1;
            }
            let q = crate::text::sub_chars(v.as_slice(), k + 1, n);
            proof {
                assert forall|m: int| 0 <= m < q@.len() implies !is_ws(#[trigger] q@[m]) by {
                    assert(q@[m] == v@[k + 1 + m]);
                }
            }
            let kind = if c == '@' {
                crate::popup::Kind::File
            } else {
                crate::popup::Kind::Slash
            };
            return Some((kind, string_of(q.as_slice())));
        }
        i = i - 1;
    }
    proof {
        lemma_last_trigger(v@, -1);
    }
    None
}


// ── paths in narrow columns ──────────────────────────────────────────

/// The longest tail of `cs` that fits in `budget` columns, taking
/// characters from the end until the next one would not fit.
pub open spec fn tail_fit(cs: Seq<char>, budget: int) -> Seq<char>
    decreases cs.len(),
{
    if cs.len() == 0 || width_of(cs.last()) > budget {
        Seq::empty()
    } else {
        tail_fit(cs.drop_last(), budget - width_of(cs.last())).push(cs.last())
    }
}

/// A path cut from the left so that it fits `max_cols`: unchanged when it
/// fits, empty when not even the ellipsis and one column fit, else `…` and
/// the longest fitting tail (the file name is what identifies a path).
pub open spec fn truncated_left_of(s: Seq<char>, max_cols: int) -> Seq<char> {
    if seq_width(s) <= max_cols {
        s
    } else if max_cols <= 1 {
        Seq::empty()
    } else {
        seq!['…'] + tail_fit(s, max_cols - 1)
    }
}

pub proof fn lemma_tail_fit(cs: Seq<char>, budget: int)
    ensures
        seq_width(tail_fit(cs, budget)) <= if budget < 0 { 0 } else { budget },
        tail_fit(cs, budget).len() <= cs.len(),
        tail_fit(cs, budget) == cs.subrange(cs.len() - tail_fit(cs, budget).len(), cs.len() as int),
    decreases cs.len(),
{
    if cs.len() == 0 || width_of(cs.last()) > budget {
        assert(tail_fit(cs, budget) =~= cs.subrange(cs.len() as int, cs.len() as int));
    } else {
        let t = tail_fit(cs.drop_last(), budget - width_of(cs.last()));
        lemma_tail_fit(cs.drop_last(), budget - width_of(cs.last()));
        assert(t.push(cs.last()).drop_last() =~= t);
        assert(t.push(cs.last()) =~= cs.subrange(cs.len() - t.len() - 1, cs.len() as int));
    }
}

proof fn lemma_width_prepend(c: char, s: Seq<char>)
    ensures
        seq_width(seq![c] + s) == width_of(c) + seq_width(s),
    decreases s.len(),
{
    let t = seq![c] + s;
    if s.len() == 0 {
        assert(t =~= seq![c]);
        assert(t.drop_last() =~= Seq::<char>::empty());
        assert(seq_width(t.drop_last()) == 0);
        assert(t.last() == c);
        assert(seq_width(t) == seq_width(t.drop_last()) + width_of(t.last()));
    } else {
        lemma_width_prepend(c, s.drop_last());
        assert(t.drop_last() =~= seq![c] + s.drop_last());
        assert(t.last() == s.last());
        assert(seq_width(t) == seq_width(t.drop_last()) + width_of(t.last()));
        assert(seq_width(s) == seq_width(s.drop_last()) + width_of(s.last()));
    }
}

/// A path cut from the left never exceeds its budget.
pub proof fn law_truncate_left_fits(s: Seq<char>, max_cols: int)
    requires
        max_cols >= 0,
    ensures
        seq_width(truncated_left_of(s, max_cols)) <= max_cols,
{
    if seq_width(s) > max_cols && max_cols > 1 {
        lemma_tail_fit(s, max_cols - 1);
        lemma_width_prepend('…', tail_fit(s, max_cols - 1));
    }
}

/// Cut `s` from the left to fit `max_cols` columns, keeping its tail.
pub fn truncate_left(s: &str, max_cols: usize) -> (r: String)
    requires
        seq_width(s@) <= usize::MAX,
    ensures
        r@ == truncated_left_of(s@, max_cols as int),
{
    if display_width(s) <= max_cols {
        return owned(s);
    }
    if max_cols <= 1 {
        return String::new();
    }
    let cs = chars_of(s);
    let budget = max_cols - 1;
    let mut k: usize = cs.len();
    let mut used: usize = 0;
    let mut stop = false;
    assert(cs@.take(k as int) =~= cs@);
    assert(cs@.skip(k as int) =~= Seq::<char>::empty());
    assert(tail_fit(cs@, budget as int) + Seq::<char>::empty() =~= tail_fit(cs@, budget as int));
    // tail_fit(cs[..k], budget - used) extended by cs[k..] is the answer
    while k > 0 && !stop
        invariant
            k <= cs@.len(),
            used <= budget,
            stop ==> tail_fit(cs@.take(k as int), budget - used) == Seq::<char>::empty(),
            stop ==> k > 0,
            tail_fit(cs@, budget as int) == tail_fit(cs@.take(k as int), budget - used) + cs@.skip(
                k as int,
            ),
        decreases k + if stop { 0int } else { 1int },
    {
        let c = cs[k - 1];
        let w = char_width(c);
        let ghost pre = cs@.take(k as int);
        assert(pre.last() == c);
        if w > budget - used {
            assert(tail_fit(pre, budget - used) =~= Seq::<char>::empty());
            stop = true;
        } else {
            assert(pre.drop_last() =~= cs@.take(k - 1));
            assert(cs@.skip(k - 1) =~= seq![c] + cs@.skip(k as int));
            assert(tail_fit(pre, budget - used) == tail_fit(cs@.take(k - 1), budget - used - w).push(
                c,
            ));
            assert(tail_fit(cs@.take(k - 1), budget - used - w).push(c) + cs@.skip(k as int)
                =~= tail_fit(cs@.take(k - 1), budget - used - w) + cs@.skip(k - 1));
            used = used + w;
            k = k - 1;
        }
    }
    proof {
        if k == 0 {
            assert(cs@.take(0) =~= Seq::<char>::empty());
        }
        assert(tail_fit(cs@.take(k as int), budget - used) =~= Seq::<char>::empty());
        assert(Seq::<char>::empty() + cs@.skip(k as int) =~= cs@.skip(k as int));
        assert(tail_fit(cs@, budget as int) =~= cs@.skip(k as int));
    }
    let mut r = String::new();
    push_char(&mut r, '…');
    let tail = crate::text::sub_chars(cs.as_slice(), k, cs.len());
    let ts = string_of(tail.as_slice());
    push_str(&mut r, ts.as_str());
    proof {
        assert(cs@.subrange(k as int, cs@.len() as int) =~= cs@.skip(k as int));
        assert(seq!['…'] + cs@.skip(k as int) =~= Seq::<char>::empty().push('…') + cs@.skip(k as int));
    }
    r
}

// ── layout arithmetic ────────────────────────────────────────────────

/// Most input rows shown (the input box never eats the screen).
pub const MAX_INPUT_ROWS: usize = 6;

/// Columns of the sidebar.
pub const SIDEBAR_COLS: usize = 34;

/// Narrowest terminal that shows the sidebar.
pub const SIDEBAR_MIN_COLS: usize = 96;

/// Rows of the bottom chrome for an input of `input_rows` lines: top
/// border, the shown input rows (1 to `MAX_INPUT_ROWS`), status row,
/// bottom border, hint row and footer.
pub open spec fn chrome_rows_of(input_rows: int) -> int {
    let shown = if input_rows < 1 {
        1
    } else if input_rows > MAX_INPUT_ROWS {
        MAX_INPUT_ROWS as int
    } else {
        input_rows
    };
    2 + shown + 3
}

pub fn chrome_rows(input_rows: usize) -> (r: usize)
    ensures
        r == chrome_rows_of(input_rows as int),
{
    let shown = if input_rows < 1 {
        1
    } else if input_rows > MAX_INPUT_ROWS {
        MAX_INPUT_ROWS
    } else {
        input_rows
    };
    2 + shown + 1 + 1 + 1
}

/// The chrome grows with the input and stops growing at the row cap.
pub proof fn law_chrome_rows_monotone_and_capped(a: int, b: int)
    requires
        a <= b,
    ensures
        chrome_rows_of(a) <= chrome_rows_of(b),
        chrome_rows_of(b) <= chrome_rows_of(MAX_INPUT_ROWS as int),
        chrome_rows_of(1) == 6,
{
}

/// Columns left for the transcript (the sidebar only shows on wide
/// terminals).
pub open spec fn body_cols_of(cols: int, sidebar: bool) -> int {
    if sidebar && cols >= SIDEBAR_MIN_COLS {
        cols - SIDEBAR_COLS
    } else {
        cols
    }
}

pub fn self_body_cols(cols: usize, sidebar: bool) -> (r: usize)
    ensures
        r == body_cols_of(cols as int, sidebar),
{
    if sidebar && cols >= SIDEBAR_MIN_COLS {
        cols - SIDEBAR_COLS
    } else {
        cols
    }
}

/// Rows a popup may take above the input (0 when not even its borders
/// fit).
pub fn available_rows(avail: usize) -> (r: usize)
    ensures
        r == if avail < 3 { 0 } else { avail },
{
    if avail < 3 {
        0
    } else {
        avail
    }
}

// ── colour degradation ───────────────────────────────────────────────

/// The xterm 256-colour cube step for one channel.
pub open spec fn cube_step(c: u8) -> int {
    if c < 48 {
        0
    } else if c < 115 {
        1
    } else {
        let s = (c - 35) / 40;
        if s < 5 { s } else { 5 }
    }
}

/// RGB to an xterm 256-colour index: the grey ramp for greys, else the
/// 6×6×6 cube.
pub open spec fn rgb256_of(r: u8, g: u8, b: u8) -> int {
    if r == g && g == b {
        if r < 8 {
            16
        } else if r > 248 {
            231
        } else {
            (r - 8) * 24 / 247 + 232
        }
    } else {
        16 + 36 * cube_step(r) + 6 * cube_step(g) + cube_step(b)
    }
}

fn cube_step_exec(c: u8) -> (r: u16)
    ensures
        r == cube_step(c),
        r <= 5,
{
    if c < 48 {
        0
    } else if c < 115 {
        1
    } else {
        let s = (c as u16 - 35) / 40;
        if s < 5 {
            s
        } else {
            5
        }
    }
}

pub fn rgb_to_256(r: u8, g: u8, b: u8) -> (c: u8)
    ensures
        c == rgb256_of(r, g, b),
{
    if r == g && g == b {
        if r < 8 {
            return 16;
        }
        if r > 248 {
            return 231;
        }
        let x = r as u16 - 8;
        assert(x * 24 <= 240 * 24) by (nonlinear_arith)
            requires
                x <= 240,
        ;
        assert((x * 24) / 247 <= 23) by (nonlinear_arith)
            requires
                x * 24 <= 240 * 24,
        ;
        return ((x * 24 / 247) + 232) as u8;
    }
    (16 + 36 * cube_step_exec(r) + 6 * cube_step_exec(g) + cube_step_exec(b)) as u8
}

/// RGB to one of the 16 ANSI foreground codes, by rough hue: dark colours
/// are bright black (90); otherwise the dominant channel picks
/// yellow/red, magenta/blue or green.
pub open spec fn rgb16_of(r: u8, g: u8, b: u8) -> int {
    let lum = (r * 30 + g * 59 + b * 11) / 100;
    if lum < 40 {
        90
    } else if r >= b && r >= g {
        if g > 128 { 33 } else { 31 }
    } else if b >= g {
        if r > 128 { 35 } else { 34 }
    } else if g > 128 {
        32
    } else {
        90
    }
}

pub fn rgb_to_16(r: u8, g: u8, b: u8) -> (c: u8)
    ensures
        c == rgb16_of(r, g, b),
{
    let lum = (r as u32 * 30 + g as u32 * 59 + b as u32 * 11) / 100;
    if lum < 40 {
        return 90;
    }
    if r >= b && r >= g {
        if g > 128 {
            33
        } else {
            31
        }
    } else if b >= g {
        if r > 128 {
            35
        } else {
            34
        }
    } else if g > 128 {
        32
    } else {
        90
    }
}

/// Degraded colours are always valid codes: the 256-colour index is past
/// the 16 system colours, the 16-colour code is a foreground code.
pub proof fn law_degraded_colours_in_range(r: u8, g: u8, b: u8)
    ensures
        16 <= rgb256_of(r, g, b) <= 255,
        (30 <= rgb16_of(r, g, b) <= 37) || rgb16_of(r, g, b) == 90,
{
    if r == g && g == b && 8 <= r <= 248 {
        let x = r - 8;
        assert(0 <= x * 24 / 247 <= 23) by (nonlinear_arith)
            requires
                0 <= x <= 240,
        ;
    }
}

// ── first screen ─────────────────────────────────────────────────────

/// The word mark, one row per line.
pub open spec fn wordmark_rows() -> Seq<Seq<char>> {
    seq![
        "███╗   ██╗ ███████╗ ██████╗ "@,
        "████╗  ██║ ██╔════╝██╔═══██╗"@,
        "██╔██╗ ██║ █████╗  ██║   ██║"@,
        "██║╚██╗██║ ██╔══╝  ██║   ██║"@,
        "██║ ╚████║ ███████╗╚██████╔╝"@,
        "╚═╝  ╚═══╝ ╚══════╝ ╚═════╝ "@,
    ]
}

pub fn wordmark() -> (r: [&'static str; 6])
    ensures
        r@.map_values(|x: &'static str| x@) == wordmark_rows(),
{
    let r = [
        "███╗   ██╗ ███████╗ ██████╗ ",
        "████╗  ██║ ██╔════╝██╔═══██╗",
        "██╔██╗ ██║ █████╗  ██║   ██║",
        "██║╚██╗██║ ██╔══╝  ██║   ██║",
        "██║ ╚████║ ███████╗╚██████╔╝",
        "╚═╝  ╚═══╝ ╚══════╝ ╚═════╝ ",
    ];
    assert(r@.map_values(|x: &'static str| x@) =~= wordmark_rows());
    r
}

/// Every row of the word mark has the same number of characters, so the
/// mark never looks sheared.
pub proof fn law_wordmark_rows_equal_length()
    ensures
        forall|i: int| 0 <= i < 6 ==> (#[trigger] wordmark_rows()[i]).len() == 28,
{
    reveal_strlit("███╗   ██╗ ███████╗ ██████╗ ");
    reveal_strlit("████╗  ██║ ██╔════╝██╔═══██╗");
    reveal_strlit("██╔██╗ ██║ █████╗  ██║   ██║");
    reveal_strlit("██║╚██╗██║ ██╔══╝  ██║   ██║");
    reveal_strlit("██║ ╚████║ ███████╗╚██████╔╝");
    reveal_strlit("╚═╝  ╚═══╝ ╚══════╝ ╚═════╝ ");
}

/// Example tasks shown on an empty input.
pub open spec fn examples() -> Seq<Seq<char>> {
    seq![
        "修一下代码里的 TODO"@,
        "这个项目的技术栈是什么？"@,
        "跑一下测试并修掉失败的用例"@,
        "解释 src/main.rs 的主流程"@,
    ]
}

/// The example for a seed (the caller seeds it from the clock: it only
/// has to differ between runs).
pub fn pick_example_from(seed: usize) -> (r: &'static str)
    ensures
        r@ == examples()[seed as int % 4],
{
    let i = seed % 4;
    if i == 0 {
        "修一下代码里的 TODO"
    } else if i == 1 {
        "这个项目的技术栈是什么？"
    } else if i == 2 {
        "跑一下测试并修掉失败的用例"
    } else {
        "解释 src/main.rs 的主流程"
    }
}

/// The status line: the approval prompt while one is pending, else ready.
pub fn idle_or_approval(outstanding: &Option<String>) -> (r: String)
    ensures
        r@ == if outstanding is Some {
            "待审批 · y 批准 / n 拒绝"@
        } else {
            "就绪"@
        },
{
    match outstanding {
        Some(_) => owned("待审批 · y 批准 / n 拒绝"),
        None => owned("就绪"),
    }
}

// ── workspace trust prompt ───────────────────────────────────────────

/// Trust prompt state.
#[derive(Debug, Clone, Copy)]
pub struct TrustPrompt {
    /// 0 = trust and continue, 1 = quit.
    pub selected: usize,
}

impl Default for TrustPrompt {
    fn default() -> (r: Self)
        ensures
            r.selected == 0,
    {
        TrustPrompt { selected: 0 }
    }
}

/// What a key does on the trust prompt.
#[derive(Debug, Clone, Copy, PartialEq, Eq, Structural)]
pub enum TrustOutcome {
    /// Keep asking (the selection may have changed).
    Continue,
    /// The user trusts the workspace; the caller records it.
    Accepted,
    /// The user refuses, or quits.
    Quit,
}

/// The outcome of a key on the trust prompt, and the selection after it.
pub open spec fn trust_step(k: Key, selected: usize) -> (TrustOutcome, usize) {
    match k {
        Key::Quit => (TrustOutcome::Quit, selected),
        Key::Up => (TrustOutcome::Continue, 0),
        Key::Down => (TrustOutcome::Continue, 1),
        Key::Char(c) => if c == 'k' {
            (TrustOutcome::Continue, 0)
        } else if c == 'j' {
            (TrustOutcome::Continue, 1)
        } else if c == 'y' {
            (TrustOutcome::Accepted, selected)
        } else if c == 'n' {
            (TrustOutcome::Quit, selected)
        } else {
            (TrustOutcome::Continue, selected)
        },
        Key::Enter => if selected == 0 {
            (TrustOutcome::Accepted, selected)
        } else {
            (TrustOutcome::Quit, selected)
        },
        _ => (TrustOutcome::Continue, selected),
    }
}

/// Handle one key on the trust prompt. On `Accepted` the caller records
/// the trust.
pub fn handle_trust_key(k: Key, tp: &mut TrustPrompt) -> (r: TrustOutcome)
    ensures
        (r, final(tp).selected) == trust_step(k, old(tp).selected),
{
    match k {
        Key::Quit => TrustOutcome::Quit,
        Key::Up => {
            tp.selected = 0;
            TrustOutcome::Continue
        },
        Key::Down => {
            tp.selected = 1;
            TrustOutcome::Continue
        },
        Key::Char(c) => {
            if c == 'k' {
                tp.selected = 0;
                TrustOutcome::Continue
            } else if c == 'j' {
                tp.selected = 1;
                TrustOutcome::Continue
            } else if c == 'y' {
                TrustOutcome::Accepted
            } else if c == 'n' {
                TrustOutcome::Quit
            } else {
                TrustOutcome::Continue
            }
        },
        Key::Enter => {
            if tp.selected == 0 {
                TrustOutcome::Accepted
            } else {
                TrustOutcome::Quit
            }
        },
        _ => TrustOutcome::Continue,
    }
}

/// Only an explicit yes, or Enter on the trust option, ever accepts:
/// every other key keeps asking or quits.
pub proof fn law_trust_needs_explicit_consent(k: Key, selected: usize)
    ensures
        trust_step(k, selected).0 == TrustOutcome::Accepted ==> (k == Key::Char('y') || (k
            == Key::Enter && selected == 0)),
{
}


// ── choosing a popup item ────────────────────────────────────────────

/// What the main loop still has to do after an item was chosen.
#[derive(Debug, Clone, Copy, PartialEq, Eq, Structural)]
pub enum Effect {
    /// Nothing left to do.
    Nothing,
    Quit,
    /// Clear the transcript (`/new`).
    ClearTranscript,
    /// Open the theme picker (`/theme`).
    OpenThemePicker,
    /// Show the status screen (its text is assembled at run time).
    ShowStatus,
    /// An action whose work lives in the main loop (viewers, pickers,
    /// toggles, sessions, appearance).
    Dispatch(Action),
}

pub open spec fn opt_view(o: Option<String>) -> Option<Seq<char>> {
    match o {
        Some(s) => Some(s@),
        None => None,
    }
}

/// What running a command does to the theme, the status text, the info
/// screen, and what is left to the main loop.
pub struct RunModel {
    pub theme: ThemeName,
    pub status: Seq<char>,
    pub info: Option<Seq<char>>,
    pub effect: Effect,
}

pub open spec fn run_model(a: Action, theme: ThemeName, status: Seq<char>, info: Option<Seq<char>>) -> RunModel {
    let same = RunModel { theme, status, info, effect: Effect::Nothing };
    match a {
        Action::Quit => RunModel { effect: Effect::Quit, ..same },
        Action::NewSession => RunModel { effect: Effect::ClearTranscript, ..same },
        Action::Compact => RunModel { status: "压缩上下文需要 L4 编排，尚未实现"@, ..same },
        Action::ThemePicker => RunModel { effect: Effect::OpenThemePicker, ..same },
        Action::NextTheme => RunModel {
            theme: theme.following(),
            status: "主题："@ + theme.following().name(),
            ..same
        },
        Action::SetTheme(t) => RunModel { theme: t, status: "主题："@ + t.name(), ..same },
        Action::Help => RunModel { info: Some(HELP_TEXT@), ..same },
        Action::Status => RunModel { effect: Effect::ShowStatus, ..same },
        Action::Keys => RunModel { info: Some(KEYS_TEXT@), ..same },
        _ => RunModel { effect: Effect::Dispatch(a), ..same },
    }
}

/// Apply the chosen item. A file reference replaces the `@` fragment being
/// typed and stays in the input (it is part of the message); everything
/// else clears the input (the command has been used). The theme choice is
/// returned in `theme_name`; the caller persists it.
pub fn apply_popup_item(
    item: &Item,
    input: &mut Editor,
    status: &mut String,
    theme_name: &mut ThemeName,
    info_screen: &mut Option<String>,
) -> (r: Effect)
    requires
        old(input).wf(),
    ensures
        final(input).wf(),
        match item.action {
            ItemAction::Insert(t) => {
                &&& final(input)@ == old(input)@.set(completed_of(old(input)@.text(), t@))
                &&& final(status)@ == "已引用 "@ + t@
                &&& *final(theme_name) == *old(theme_name)
                &&& opt_view(*final(info_screen)) == opt_view(*old(info_screen))
                &&& r == Effect::Nothing
            },
            ItemAction::SetTheme(t) => {
                &&& final(input)@ == old(input)@.clear()
                &&& final(status)@ == "主题："@ + t.name()
                &&& *final(theme_name) == t
                &&& opt_view(*final(info_screen)) == opt_view(*old(info_screen))
                &&& r == Effect::Nothing
            },
            ItemAction::SetBackground(b) => {
                &&& final(input)@ == old(input)@.clear()
                &&& final(status)@ == old(status)@
                &&& *final(theme_name) == *old(theme_name)
                &&& opt_view(*final(info_screen)) == opt_view(*old(info_screen))
                &&& r == Effect::Dispatch(Action::SetBackground(b))
            },
            ItemAction::SetLogo(l) => {
                &&& final(input)@ == old(input)@.clear()
                &&& final(status)@ == old(status)@
                &&& *final(theme_name) == *old(theme_name)
                &&& opt_view(*final(info_screen)) == opt_view(*old(info_screen))
                &&& r == Effect::Dispatch(Action::SetLogo(l))
            },
            ItemAction::Run(a) => {
                let m = run_model(a, *old(theme_name), old(status)@, opt_view(*old(info_screen)));
                &&& final(input)@ == old(input)@.clear()
                &&& final(status)@ == m.status
                &&& *final(theme_name) == m.theme
                &&& opt_view(*final(info_screen)) == m.info
                &&& r == m.effect
            },
        },
{
    match &item.action {
        ItemAction::Insert(text) => {
            let cur = input.text();
            let done = complete_at_token(cur.as_str(), text.as_str());
            input.set(done.as_str());
            let mut st = owned("已引用 ");
            push_str(&mut st, text.as_str());
            *status = st;
            Effect::Nothing
        },
        ItemAction::SetTheme(t) => {
            input.clear();
            *theme_name = *t;
            let mut st = owned("主题：");
            push_str(&mut st, t.as_str());
            *status = st;
            Effect::Nothing
        },
        ItemAction::SetBackground(b) => {
            input.clear();
            Effect::Dispatch(Action::SetBackground(*b))
        },
        ItemAction::SetLogo(l) => {
            input.clear();
            Effect::Dispatch(Action::SetLogo(*l))
        },
        ItemAction::Run(action) => {
            input.clear();
            match action {
                Action::Quit => Effect::Quit,
                Action::NewSession => Effect::ClearTranscript,
                Action::Compact => {
                    *status = owned("压缩上下文需要 L4 编排，尚未实现");
                    Effect::Nothing
                },
                Action::ThemePicker => Effect::OpenThemePicker,
                Action::NextTheme => {
                    *theme_name = theme_name.next();
                    let mut st = owned("主题：");
                    push_str(&mut st, theme_name.as_str());
                    *status = st;
                    Effect::Nothing
                },
                Action::SetTheme(t) => {
                    *theme_name = *t;
                    let mut st = owned("主题：");
                    push_str(&mut st, t.as_str());
                    *status = st;
                    Effect::Nothing
                },
                Action::Help => {
                    *info_screen = Some(owned(help_text()));
                    Effect::Nothing
                },
                Action::Status => Effect::ShowStatus,
                Action::Keys => {
                    *info_screen = Some(owned(keys_text()));
                    Effect::Nothing
                },
                _ => Effect::Dispatch(*action),
            }
        },
    }
}

// ── mouse hit testing ────────────────────────────────────────────────

/// Where things were drawn (recorded by the renderer, so hit testing can
/// never disagree with the layout). Coordinates are 0-based cells; mouse
/// reports are 1-based.
#[derive(Debug, Clone)]
pub struct Regions {
    /// Transcript rows: (top, bottom exclusive).
    pub transcript: Option<(usize, usize)>,
    /// Sidebar: (x0, x1 exclusive, y0, y1 exclusive).
    pub sidebar: Option<(usize, usize, usize, usize)>,
    /// Input box: (left, right exclusive, top, bottom exclusive).
    pub input_box: Option<(usize, usize, usize, usize)>,
    /// Popup rows: ((y, x0, x1), item index).
    pub popup_items: Vec<((usize, usize, usize), usize)>,
    /// Rows of the "more below" hint (a click jumps to the bottom).
    pub scroll_hint_rows: Vec<usize>,
    /// The collapsed sidebar's grip cell (column, row; 1-based).
    pub sidebar_grip: Option<(usize, usize)>,
}

impl Default for Regions {
    fn default() -> (r: Self)
        ensures
            r.transcript is None,
            r.sidebar is None,
            r.input_box is None,
            r.popup_items@.len() == 0,
            r.scroll_hint_rows@.len() == 0,
            r.sidebar_grip is None,
    {
        Regions {
            transcript: None,
            sidebar: None,
            input_box: None,
            popup_items: Vec::new(),
            scroll_hint_rows: Vec::new(),
            sidebar_grip: None,
        }
    }
}

/// What a click or wheel notch does.
#[derive(Debug, Clone, Copy, PartialEq, Eq, Structural)]
pub enum MouseAction {
    /// Scroll the transcript (true: towards earlier content).
    ScrollTranscript(bool),
    /// Select popup item N.
    SelectPopup(usize),
    /// The input box was clicked.
    FocusInput,
    /// The sidebar (or its grip) was clicked.
    ToggleSidebar,
}

/// The first popup row under a 1-based position.
pub open spec fn popup_hit(items: Seq<((usize, usize, usize), usize)>, x: int, y: int) -> Option<usize>
    decreases items.len(),
{
    if items.len() == 0 {
        None
    } else {
        let ((iy, x0, x1), index) = items[0];
        if y == iy + 1 && x > x0 && x <= x1 {
            Some(index)
        } else {
            popup_hit(items.drop_first(), x, y)
        }
    }
}

/// Hit priority: the wheel always scrolls; releases do nothing; then the
/// sidebar grip, the popup (which covers everything below it), the input
/// box, the sidebar, the transcript.
pub open spec fn hit_of(r: Regions, ev: MouseEvent, popup_open: bool) -> Option<MouseAction> {
    if ev.button == Button::WheelUp {
        Some(MouseAction::ScrollTranscript(true))
    } else if ev.button == Button::WheelDown {
        Some(MouseAction::ScrollTranscript(false))
    } else if !ev.pressed {
        None
    } else if r.sidebar_grip matches Some((gx, gy)) && ev.x == gx && ev.y == gy {
        Some(MouseAction::ToggleSidebar)
    } else if popup_open {
        match popup_hit(r.popup_items@, ev.x as int, ev.y as int) {
            Some(i) => Some(MouseAction::SelectPopup(i)),
            None => None,
        }
    } else if r.input_box matches Some((l, rr, top, bottom)) && ev.x > l && ev.x <= rr && ev.y
        > top && ev.y <= bottom {
        Some(MouseAction::FocusInput)
    } else if r.sidebar matches Some((x0, x1, y0, y1)) && ev.x > x0 && ev.x <= x1 && ev.y > y0
        && ev.y <= y1 {
        Some(MouseAction::ToggleSidebar)
    } else if r.transcript matches Some((top, bottom)) && ev.y > top && ev.y <= bottom {
        Some(MouseAction::ScrollTranscript(false))
    } else {
        None
    }
}

/// Map a mouse event to what it does.
pub fn hit_test(r: &Regions, ev: &MouseEvent, popup: Option<&Popup>, sidebar_open: bool) -> (out:
    Option<MouseAction>)
    ensures
        out == hit_of(*r, *ev, popup is Some),
{
    match ev.button {
        Button::WheelUp => return Some(MouseAction::ScrollTranscript(true)),
        Button::WheelDown => return Some(MouseAction::ScrollTranscript(false)),
        _ => {},
    }
    if !ev.pressed {
        return None;
    }
    if let Some((gx, gy)) = r.sidebar_grip {
        if ev.x == gx && ev.y == gy {
            return Some(MouseAction::ToggleSidebar);
        }
    }
    if popup.is_some() {
        let items = &r.popup_items;
        let mut i: usize = 0;
        assert(items@.skip(0) =~= items@);
        while i < items.len()
            invariant
                i <= items@.len(),
                items@ == r.popup_items@,
                popup is Some,
                ev.pressed,
                ev.button != Button::WheelUp,
                ev.button != Button::WheelDown,
                !(r.sidebar_grip matches Some((gx, gy)) && ev.x == gx && ev.y == gy),
                popup_hit(items@, ev.x as int, ev.y as int) == popup_hit(
                    items@.skip(i as int),
                    ev.x as int,
                    ev.y as int,
                ),
            decreases items@.len() - i,
        {
            let ((y, x0, x1), index) = items[i];
            assert(items@.skip(i as int)[0] == items@[i as int]);
            assert(items@.skip(i as int).drop_first() =~= items@.skip(i + 1));
            if ev.y > 0 && ev.y - 1 == y && ev.x > x0 && ev.x <= x1 {
                return Some(MouseAction::SelectPopup(index));
            }
            i = i + 1;
        }
        assert(items@.skip(i as int).len() == 0);
        return None;
    }
    if let Some((l, rr, top, bottom)) = r.input_box {
        if ev.x > l && ev.x <= rr && ev.y > top && ev.y <= bottom {
            return Some(MouseAction::FocusInput);
        }
    }
    if let Some((x0, x1, y0, y1)) = r.sidebar {
        if ev.x > x0 && ev.x <= x1 && ev.y > y0 && ev.y <= y1 {
            return Some(MouseAction::ToggleSidebar);
        }
    }
    if let Some((top, bottom)) = r.transcript {
        if ev.y > top && ev.y <= bottom {
            return Some(MouseAction::ScrollTranscript(false));
        }
    }
    None
}

/// A release never triggers anything, so one click never acts twice.
pub proof fn law_release_does_nothing(r: Regions, ev: MouseEvent, popup_open: bool)
    requires
        !ev.pressed,
        ev.button != Button::WheelUp,
        ev.button != Button::WheelDown,
    ensures
        hit_of(r, ev, popup_open) is None,
{
}

/// An open popup takes every click it does not match: nothing under it
/// (the input box, the sidebar, the transcript) reacts.
pub proof fn law_popup_shields_what_is_below(r: Regions, ev: MouseEvent)
    requires
        ev.pressed,
        ev.button != Button::WheelUp,
        ev.button != Button::WheelDown,
        !(r.sidebar_grip matches Some((gx, gy)) && ev.x == gx && ev.y == gy),
    ensures
        hit_of(r, ev, true) is None || hit_of(r, ev, true) matches Some(MouseAction::SelectPopup(_)),
{
}

// ── terminal size ────────────────────────────────────────────────────

/// `stty size` output: rows then columns, both positive; gives
/// (columns, rows), 80×24 when it cannot be read.
pub open spec fn size_of(s: Seq<char>) -> (usize, usize) {
    match crate::text::next_word(s) {
        Some((a, rest)) => match crate::text::next_word(rest) {
            Some((b, _)) => match (
                crate::mouse::parse_num(a, usize::MAX as int),
                crate::mouse::parse_num(b, usize::MAX as int),
            ) {
                (Some(rows), Some(cols)) => if rows > 0 && cols > 0 {
                    (cols as usize, rows as usize)
                } else {
                    (80, 24)
                },
                _ => (80, 24),
            },
            None => (80, 24),
        },
        None => (80, 24),
    }
}

proof fn lemma_dec_digits(n: nat)
    ensures
        dec_of(n).len() > 0,
        crate::mouse::all_digits(dec_of(n)),
        crate::mouse::digits_val(dec_of(n)) == n,
    decreases n,
{
    if n < 10 {
        let d = dec_of(n);
        assert(((48 + n) as char) as int == 48 + n);
        assert(d.drop_last() =~= Seq::<char>::empty());
        assert(crate::mouse::digits_val(d) == crate::mouse::digits_val(d.drop_last()) * 10 + (d.last() as int - '0' as int));
    } else {
        lemma_dec_digits(n / 10);
        let d = dec_of(n);
        assert(((48 + n % 10) as char) as int == 48 + n % 10);
        assert(d.drop_last() =~= dec_of(n / 10));
        assert(d.last() == (48 + n % 10) as char);
        assert forall|j: int| 0 <= j < d.len() implies crate::mouse::is_digit(#[trigger] d[j]) by {
            if j < d.len() - 1 {
                assert(d[j] == dec_of(n / 10)[j]);
            }
        }
        assert((n / 10) * 10 + n % 10 == n) by (nonlinear_arith);
    }
}

proof fn lemma_first_word(w: Seq<char>, rest: Seq<char>)
    requires
        w.len() > 0,
        forall|j: int| 0 <= j < w.len() ==> !is_ws(#[trigger] w[j]),
        rest.len() > 0,
        is_ws(rest[0]),
    ensures
        crate::text::next_word(w + rest) == Some((w, rest)),
{
    let s = w + rest;
    assert(crate::text::lead_ws(s) == 0) by {
        assert(s[0] == w[0]);
    }
    assert(crate::text::trim_start(s) =~= s);
    assert forall|j: int| 0 <= j < w.len() implies !is_ws(#[trigger] s[j]) by {
        assert(s[j] == w[j]);
    }
    assert(s[w.len() as int] == rest[0]);
    crate::text::lemma_word_len(s, w.len() as int);
    assert(s.take(w.len() as int) =~= w);
    assert(s.skip(w.len() as int) =~= rest);
}

/// `stty size` prints the rows, a space, the columns and a line break;
/// any such output with positive numbers reads back as (columns, rows).
pub proof fn law_terminal_size_reads_stty(rows: nat, cols: nat)
    requires
        0 < rows <= usize::MAX,
        0 < cols <= usize::MAX,
    ensures
        size_of(dec_of(rows) + " "@ + dec_of(cols) + "\n"@) == (cols as usize, rows as usize),
{
    reveal_strlit(" ");
    reveal_strlit("\n");
    lemma_dec_digits(rows);
    lemma_dec_digits(cols);
    let a = dec_of(rows);
    let b = dec_of(cols);
    let rest = " "@ + b + "\n"@;
    assert(dec_of(rows) + " "@ + dec_of(cols) + "\n"@ =~= a + rest);
    assert forall|j: int| 0 <= j < a.len() implies !is_ws(#[trigger] a[j]) by {
        assert(crate::mouse::is_digit(a[j]));
    }
    assert(rest[0] == ' ');
    lemma_first_word(a, rest);
    let t = b + "\n"@;
    assert(crate::text::lead_ws(rest) == 1) by {
        assert(rest.drop_first() =~= t);
        assert(t[0] == b[0]);
        assert(crate::mouse::is_digit(b[0]));
        assert(crate::text::lead_ws(t) == 0);
    }
    assert(crate::text::trim_start(rest) =~= t);
    assert forall|j: int| 0 <= j < b.len() implies !is_ws(#[trigger] b[j]) by {
        assert(crate::mouse::is_digit(b[j]));
    }
    assert(t.len() > 0);
    lemma_first_word(b, "\n"@);
    assert(crate::text::next_word(t) == Some((b, "\n"@)));
    assert(crate::text::next_word(rest) == crate::text::next_word(t)) by {
        assert(crate::text::trim_start(rest) =~= crate::text::trim_start(t));
    }
    assert(a[0] != '+');
    assert(b[0] != '+');
}

/// Terminal size from `stty size` output (80×24 when it cannot be read;
/// the size only guides rendering).
pub fn parse_terminal_size(s: &str) -> (r: (usize, usize))
    ensures
        r == size_of(s@),
{
    let v = chars_of(s);
    let (a, rest) = match crate::text::next_word_exec(v.as_slice()) {
        Some(p) => p,
        None => return (80, 24),
    };
    let (b, _) = match crate::text::next_word_exec(rest.as_slice()) {
        Some(p) => p,
        None => return (80, 24),
    };
    match (
        crate::mouse::parse_uint(a.as_slice(), usize::MAX),
        crate::mouse::parse_uint(b.as_slice(), usize::MAX),
    ) {
        (Some(rows), Some(cols)) => if rows > 0 && cols > 0 {
            (cols, rows)
        } else {
            (80, 24)
        },
        _ => (80, 24),
    }
}


// ── reading one key from the terminal ────────────────────────────────

/// Where reading a key stands, after the bytes read so far.
#[derive(Debug, Clone, PartialEq, Eq)]
pub enum KeyRead {
    /// An escape sequence (`ESC` and up to three more bytes).
    Escape(Vec<u8>),
    /// A mouse report `ESC [ <`…, up to its final `M` or `m`.
    Mouse(Vec<u8>),
    /// A multi-byte UTF-8 character that needs `need` bytes after its first.
    Utf8 { bytes: Vec<u8>, need: usize },
}

/// What to do next: read another byte, or the key is complete.
#[derive(Debug, Clone, PartialEq, Eq)]
pub enum KeyStep {
    More(KeyRead),
    Done(Key),
}

pub enum KeyReadModel {
    Escape(Seq<u8>),
    Mouse(Seq<u8>),
    Utf8(Seq<u8>, int),
}

pub enum KeyStepModel {
    More(KeyReadModel),
    Done(Key),
}

pub open spec fn read_view(r: KeyRead) -> KeyReadModel {
    match r {
        KeyRead::Escape(b) => KeyReadModel::Escape(b@),
        KeyRead::Mouse(b) => KeyReadModel::Mouse(b@),
        KeyRead::Utf8 { bytes, need } => KeyReadModel::Utf8(bytes@, need as int),
    }
}

pub open spec fn step_view(s: KeyStep) -> KeyStepModel {
    match s {
        KeyStep::More(r) => KeyStepModel::More(read_view(r)),
        KeyStep::Done(k) => KeyStepModel::Done(k),
    }
}

/// Longest mouse report read (room for five-digit coordinates).
pub const MAX_MOUSE_BYTES: usize = 46;

pub open spec fn all_ascii(b: Seq<u8>) -> bool {
    forall|i: int| 0 <= i < b.len() ==> #[trigger] b[i] < 0x80
}

/// The key for a mouse report `ESC [ <` body: the decoded event, else
/// `Unknown`. A body with a byte past ASCII can never be a report (every
/// character of one is ASCII), whatever lossy decoding makes of it.
pub open spec fn mouse_key(seq: Seq<u8>) -> Key {
    let body = seq.skip(3);
    if all_ascii(body) {
        match crate::mouse::sgr_of(body.map_values(|b: u8| b as char)) {
            Some(e) => Key::Mouse(e),
            None => Key::Unknown,
        }
    } else {
        Key::Unknown
    }
}

/// An escape sequence is complete: a mouse report keeps reading, anything
/// else decodes.
pub open spec fn finish_escape(seq: Seq<u8>) -> KeyStepModel {
    if seq.len() >= 3 && seq[1] == 0x5b && seq[2] == 0x3c {
        if seq.len() < MAX_MOUSE_BYTES {
            KeyStepModel::More(KeyReadModel::Mouse(seq))
        } else {
            KeyStepModel::Done(mouse_key(seq))
        }
    } else {
        KeyStepModel::Done(key_of(seq))
    }
}

pub open spec fn is_alpha(b: u8) -> bool {
    (0x41 <= b && b <= 0x5a) || (0x61 <= b && b <= 0x7a)
}

/// UTF-8 continuation bytes a leading byte asks for (0: not a leading byte).
pub open spec fn utf8_need(b: u8) -> int {
    if 0xc0 <= b && b <= 0xdf {
        1
    } else if 0xe0 <= b && b <= 0xef {
        2
    } else if 0xf0 <= b && b <= 0xf7 {
        3
    } else {
        0
    }
}

/// After the first byte: `ESC` starts a sequence, ASCII is a key at once,
/// a UTF-8 leading byte waits for its continuation bytes.
pub open spec fn start_of(b: u8) -> KeyStepModel {
    if b == 0x1b {
        KeyStepModel::More(KeyReadModel::Escape(seq![b]))
    } else if b < 0x80 || utf8_need(b) == 0 {
        KeyStepModel::Done(key_of(seq![b]))
    } else {
        KeyStepModel::More(KeyReadModel::Utf8(seq![b], utf8_need(b)))
    }
}

/// After one more read (`None`: nothing came): an escape sequence ends at
/// `~`, a letter, or its fourth byte; a mouse report at `M`/`m` or its
/// length cap; a UTF-8 character when all its bytes are in. A read that
/// brings nothing ends the key with what there is.
pub open spec fn next_of(st: KeyReadModel, byte: Option<u8>) -> KeyStepModel {
    match st {
        KeyReadModel::Escape(seq) => match byte {
            None => finish_escape(seq),
            Some(c) => {
                let s2 = seq.push(c);
                if c == 0x7e || is_alpha(c) || s2.len() >= 4 {
                    finish_escape(s2)
                } else {
                    KeyStepModel::More(KeyReadModel::Escape(s2))
                }
            },
        },
        KeyReadModel::Mouse(seq) => match byte {
            None => KeyStepModel::Done(mouse_key(seq)),
            Some(c) => {
                let s2 = seq.push(c);
                if c == 0x4d || c == 0x6d || s2.len() >= MAX_MOUSE_BYTES {
                    KeyStepModel::Done(mouse_key(s2))
                } else {
                    KeyStepModel::More(KeyReadModel::Mouse(s2))
                }
            },
        },
        KeyReadModel::Utf8(bytes, need) => match byte {
            None => KeyStepModel::Done(key_of(bytes)),
            Some(c) => {
                let b2 = bytes.push(c);
                if b2.len() >= need + 1 {
                    KeyStepModel::Done(key_of(b2))
                } else {
                    KeyStepModel::More(KeyReadModel::Utf8(b2, need))
                }
            },
        },
    }
}

fn mouse_key_exec(seq: &[u8]) -> (k: Key)
    requires
        seq@.len() >= 3,
    ensures
        k == mouse_key(seq@),
{
    let n = seq.len();
    let mut body = String::new();
    let mut i: usize = 3;
    let ghost b = seq@.skip(3);
    while i < n
        invariant
            3 <= i <= n,
            n == seq@.len(),
            b == seq@.skip(3),
            all_ascii(b.take(i - 3)),
            body@ == b.take(i - 3).map_values(|x: u8| x as char),
        decreases n - i,
    {
        let x = seq[i];
        assert(b[i - 3] == x);
        if x >= 0x80 {
            assert(!all_ascii(b));
            return Key::Unknown;
        }
        push_char(&mut body, x as char);
        assert(b.take(i - 2) =~= b.take(i - 3).push(x));
        assert(body@ =~= b.take(i - 2).map_values(|x: u8| x as char));
        i = i + 1;
    }
    assert(b.take(n - 3) =~= b);
    match crate::mouse::parse_sgr(body.as_str()) {
        Some(e) => Key::Mouse(e),
        None => Key::Unknown,
    }
}

fn finish_escape_exec(seq: Vec<u8>) -> (r: KeyStep)
    requires
        seq@.len() >= 1,
    ensures
        step_view(r) == finish_escape(seq@),
{
    if seq.len() >= 3 && seq[1] == 0x5b && seq[2] == 0x3c {
        if seq.len() < MAX_MOUSE_BYTES {
            KeyStep::More(KeyRead::Mouse(seq))
        } else {
            KeyStep::Done(mouse_key_exec(seq.as_slice()))
        }
    } else {
        KeyStep::Done(decode_key(seq.as_slice()))
    }
}

/// The first byte of a key.
pub fn key_start(b: u8) -> (r: KeyStep)
    ensures
        step_view(r) == start_of(b),
{
    let mut v: Vec<u8> = Vec::new();
    v.push(b);
    assert(v@ =~= seq![b]);
    if b == 0x1b {
        return KeyStep::More(KeyRead::Escape(v));
    }
    let need: usize = if 0xc0 <= b && b <= 0xdf {
        1
    } else if 0xe0 <= b && b <= 0xef {
        2
    } else if 0xf0 <= b && b <= 0xf7 {
        3
    } else {
        0
    };
    if b < 0x80 || need == 0 {
        KeyStep::Done(decode_key(v.as_slice()))
    } else {
        KeyStep::More(KeyRead::Utf8 { bytes: v, need })
    }
}

/// One more read for a key in progress (`None`: the read brought nothing).
pub fn key_next(st: KeyRead, byte: Option<u8>) -> (r: KeyStep)
    requires
        match st {
            KeyRead::Escape(s) => 1 <= s@.len() < 4,
            KeyRead::Mouse(s) => 3 <= s@.len() < MAX_MOUSE_BYTES,
            KeyRead::Utf8 { bytes, need } => 1 <= bytes@.len() <= need <= 3,
        },
    ensures
        step_view(r) == next_of(read_view(st), byte),
        r matches KeyStep::More(n) ==> match n {
            KeyRead::Escape(s) => 1 <= s@.len() < 4,
            KeyRead::Mouse(s) => 3 <= s@.len() < MAX_MOUSE_BYTES,
            KeyRead::Utf8 { bytes, need } => 1 <= bytes@.len() <= need <= 3,
        },
{
    match st {
        KeyRead::Escape(seq) => match byte {
            None => finish_escape_exec(seq),
            Some(c) => {
                let mut s2 = seq;
                s2.push(c);
                let alpha = (0x41 <= c && c <= 0x5a) || (0x61 <= c && c <= 0x7a);
                if c == 0x7e || alpha || s2.len() >= 4 {
                    finish_escape_exec(s2)
                } else {
                    KeyStep::More(KeyRead::Escape(s2))
                }
            },
        },
        KeyRead::Mouse(seq) => match byte {
            None => KeyStep::Done(mouse_key_exec(seq.as_slice())),
            Some(c) => {
                let mut s2 = seq;
                s2.push(c);
                if c == 0x4d || c == 0x6d || s2.len() >= MAX_MOUSE_BYTES {
                    KeyStep::Done(mouse_key_exec(s2.as_slice()))
                } else {
                    KeyStep::More(KeyRead::Mouse(s2))
                }
            },
        },
        KeyRead::Utf8 { bytes, need } => match byte {
            None => KeyStep::Done(decode_key(bytes.as_slice())),
            Some(c) => {
                let mut b2 = bytes;
                b2.push(c);
                if b2.len() >= need + 1 {
                    KeyStep::Done(decode_key(b2.as_slice()))
                } else {
                    KeyStep::More(KeyRead::Utf8 { bytes: b2, need })
                }
            },
        },
    }
}


pub open spec fn reading_ok(r: KeyRead) -> bool {
    match r {
        KeyRead::Escape(s) => 1 <= s@.len() < 4,
        KeyRead::Mouse(s) => 3 <= s@.len() < MAX_MOUSE_BYTES,
        KeyRead::Utf8 { bytes, need } => 1 <= bytes@.len() <= need <= 3,
    }
}

/// The key read from `input` after its first byte gave `st`, at most
/// `fuel` more reads (each takes the next byte, or nothing once the input
/// is used up).
pub open spec fn drive(st: KeyStepModel, input: Seq<u8>, i: int, fuel: nat) -> Key
    decreases fuel,
{
    match st {
        KeyStepModel::Done(k) => k,
        KeyStepModel::More(r) => if fuel == 0 {
            Key::Unknown
        } else {
            let b = if 0 <= i < input.len() {
                Some(input[i])
            } else {
                None
            };
            drive(next_of(r, b), input, if b is Some { i + 1 } else { i }, (fuel - 1) as nat)
        },
    }
}

/// Read one key from what a timed read returned: nothing at all is no
/// key (the loop wakes up to check the window size); otherwise the key
/// its bytes decode to, a read past them bringing nothing.
pub fn read_key_timeout(input: &[u8]) -> (r: Option<Key>)
    requires
        input@.len() + 2 <= usize::MAX,
    ensures
        input@.len() == 0 ==> r is None,
        input@.len() > 0 ==> r == Some(drive(start_of(input@[0]), input@, 1, (input@.len() + 2) as nat)),
{
    if input.len() == 0 {
        return None;
    }
    let mut step = key_start(input[0]);
    let mut i: usize = 1;
    let mut fuel: usize = input.len() + 2;
    let ghost target = drive(start_of(input@[0]), input@, 1, (input@.len() + 2) as nat);
    assert(step matches KeyStep::More(r) ==> reading_ok(r));
    loop
        invariant
            1 <= i <= input@.len(),
            target == drive(start_of(input@[0]), input@, 1, (input@.len() + 2) as nat),
            drive(step_view(step), input@, i as int, fuel as nat) == target,
            step matches KeyStep::More(r) ==> reading_ok(r),
        decreases fuel,
    {
        match step {
            KeyStep::Done(k) => return Some(k),
            KeyStep::More(r) => {
                if fuel == 0 {
                    return Some(Key::Unknown);
                }
                let b = if i < input.len() { Some(input[i]) } else { None };
                if b.is_some() {
                    i = i + 1;
                }
                step = key_next(r, b);
                fuel = fuel - 1;
            },
        }
    }
}
} // verus!
