//! Appearance: background texture and logo style (pure decoration,
//! switchable and persisted as a small `key=value` text).
use vstd::prelude::*;
use crate::text::{trim, ascii_lower, trim_str, chars_of, to_ascii_lower, chars_eq_str, starts_with,
    starts_with_exec, sub_chars, string_of, push_str, is_ws};
use crate::lines::{text_lines, text_lines_exec, lines_view};
use crate::stars::mix_exec;
use crate::stars::mix;

verus! {

/// The key a name is matched by: trimmed and ASCII lower-cased.
pub open spec fn name_key(s: Seq<char>) -> Seq<char> {
    ascii_lower(trim(s))
}

/// A sequence with no blank at either end is its own `trim`.
pub proof fn lemma_trim_plain(s: Seq<char>)
    requires
        s.len() > 0 ==> !is_ws(s[0]) && !is_ws(s.last()),
    ensures
        trim(s) == s,
{
    assert(crate::text::lead_ws(s) == 0);
    assert(s.skip(0) =~= s);
    assert(crate::text::trail_ws(s) == 0);
    assert(s.take(s.len() as int) =~= s);
}

/// Lower-casing leaves blanks blank and others not.
pub proof fn lemma_lower_keeps_ws(c: char)
    ensures
        is_ws(crate::text::ascii_lower_char(c)) == is_ws(c),
        crate::text::ascii_lower_char(crate::text::ascii_lower_char(c)) == crate::text::ascii_lower_char(c),
{
}

/// A name key is already trimmed and lower-cased: taking the key again
/// changes nothing.
pub proof fn law_name_key_idempotent(s: Seq<char>)
    ensures
        name_key(name_key(s)) == name_key(s),
{
    let ts = crate::text::trim_start(s);
    let t = trim(s);
    crate::text::lemma_lead_ws_bound(s);
    crate::text::lemma_trail_ws_bound(ts);
    let u = name_key(s);
    if t.len() > 0 {
        assert(t[0] == s[crate::text::lead_ws(s) as int]);
        assert(t.last() == ts[ts.len() - crate::text::trail_ws(ts) - 1]);
        lemma_lower_keeps_ws(t[0]);
        lemma_lower_keeps_ws(t.last());
        assert(u[0] == crate::text::ascii_lower_char(t[0]));
        assert(u.last() == crate::text::ascii_lower_char(t.last()));
    }
    lemma_trim_plain(u);
    assert forall|j: int| 0 <= j < u.len() implies #[trigger] crate::text::ascii_lower_char(u[j]) == u[j] by {
        lemma_lower_keeps_ws(t[j]);
    }
    assert(ascii_lower(u) =~= u);
}

/// A lower-case name without blanks is its own key.
pub proof fn lemma_plain_key(s: Seq<char>)
    requires
        forall|j: int| 0 <= j < s.len() ==> !is_ws(#[trigger] s[j]) && !(65 <= s[j] as u32 <= 90),
    ensures
        name_key(s) == s,
{
    if s.len() > 0 {
        assert(!is_ws(s[s.len() - 1]));
    }
    lemma_trim_plain(s);
    assert(ascii_lower(s) =~= s);
}

/// `trim` then `to_ascii_lowercase`, computed.
pub fn name_key_exec(s: &str) -> (r: Vec<char>)
    ensures
        r@ == name_key(s@),
{
    let t = trim_str(s);
    let v = chars_of(t);
    to_ascii_lower(v.as_slice())
}

/// Background texture.
#[derive(Debug, Clone, Copy, PartialEq, Eq, Structural)]
pub enum Background {
    /// Starfield (default): sparse dots.
    Stars,
    /// Regular dot grid.
    Dots,
    /// Staggered diagonal strokes.
    Diagonal,
    /// Plain (no texture).
    Plain,
}

/// Brightness level of a texture cell.
#[derive(Debug, Clone, Copy, PartialEq, Eq, Structural)]
pub enum Brightness {
    Dim,
    Bright,
}

impl Background {
    pub open spec fn name(self) -> Seq<char> {
        match self {
            Background::Stars => "stars"@,
            Background::Dots => "dots"@,
            Background::Diagonal => "diagonal"@,
            Background::Plain => "none"@,
        }
    }

    /// The background a (trimmed, lower-cased) name stands for.
    pub open spec fn named(k: Seq<char>) -> Option<Background> {
        if k == "stars"@ || k == "star"@ || k == "default"@ {
            Some(Background::Stars)
        } else if k == "dots"@ || k == "grid"@ {
            Some(Background::Dots)
        } else if k == "diagonal"@ || k == "lines"@ {
            Some(Background::Diagonal)
        } else if k == "none"@ || k == "off"@ || k == "plain"@ || k == "solid"@ {
            Some(Background::Plain)
        } else {
            None
        }
    }

    pub open spec fn following(self) -> Background {
        match self {
            Background::Stars => Background::Dots,
            Background::Dots => Background::Diagonal,
            Background::Diagonal => Background::Plain,
            Background::Plain => Background::Stars,
        }
    }

    /// What the texture shows at a cell (deterministic in its arguments).
    pub open spec fn cell_at(self, row: usize, col: usize, cols: usize) -> Option<(char, Brightness)> {
        match self {
            Background::Plain => None,
            Background::Stars => {
                let v = mix(row as u64, col as u64, cols as u64) % 1000;
                if v <= 1 {
                    Some(('+', Brightness::Bright))
                } else if v <= 9 {
                    Some(('·', Brightness::Dim))
                } else {
                    None
                }
            },
            Background::Dots => if row % 3 == 1 && col % 6 == 2 {
                Some(('·', Brightness::Dim))
            } else {
                None
            },
            Background::Diagonal => if row % 2 == 0 && (row + col * 2) % 17 == 0 {
                Some(('\\', Brightness::Dim))
            } else {
                None
            },
        }
    }

    pub fn as_str(self) -> (r: &'static str)
        ensures
            r@ == self.name(),
    {
        match self {
            Background::Stars => "stars",
            Background::Dots => "dots",
            Background::Diagonal => "diagonal",
            Background::Plain => "none",
        }
    }

    /// Parse a name (trimmed, case-insensitive; a few aliases).
    pub fn parse(s: &str) -> (r: Option<Self>)
        ensures
            r == Self::named(name_key(s@)),
    {
        let k = name_key_exec(s);
        let k = k.as_slice();
        if chars_eq_str(k, "stars") || chars_eq_str(k, "star") || chars_eq_str(k, "default") {
            Some(Background::Stars)
        } else if chars_eq_str(k, "dots") || chars_eq_str(k, "grid") {
            Some(Background::Dots)
        } else if chars_eq_str(k, "diagonal") || chars_eq_str(k, "lines") {
            Some(Background::Diagonal)
        } else if chars_eq_str(k, "none") || chars_eq_str(k, "off") || chars_eq_str(k, "plain")
            || chars_eq_str(k, "solid") {
            Some(Background::Plain)
        } else {
            None
        }
    }

    pub fn all() -> (r: [Background; 4])
        ensures
            r@ == seq![Background::Stars, Background::Dots, Background::Diagonal, Background::Plain],
    {
        let r = [Background::Stars, Background::Dots, Background::Diagonal, Background::Plain];
        assert(r@ =~= seq![Background::Stars, Background::Dots, Background::Diagonal, Background::Plain]);
        r
    }

    /// The next texture, in the order of `all`, wrapping around.
    pub fn next(self) -> (r: Self)
        ensures
            r == self.following(),
    {
        match self {
            Background::Stars => Background::Dots,
            Background::Dots => Background::Diagonal,
            Background::Diagonal => Background::Plain,
            Background::Plain => Background::Stars,
        }
    }

    /// What the texture shows at a cell.
    pub fn cell(self, row: usize, col: usize, cols: usize) -> (r: Option<(char, Brightness)>)
        requires
            self == Background::Diagonal ==> row + col * 2 <= usize::MAX,
        ensures
            r == self.cell_at(row, col, cols),
    {
        match self {
            Background::Plain => None,
            Background::Stars => stars_like(row, col, cols, 1000, 9, '·', '+'),
            Background::Dots => {
                if row % 3 == 1 && col % 6 == 2 {
                    Some(('·', Brightness::Dim))
                } else {
                    None
                }
            },
            Background::Diagonal => {
                if row % 2 == 0 && (row + col * 2) % 17 == 0 {
                    Some(('\\', Brightness::Dim))
                } else {
                    None
                }
            },
        }
    }
}

/// A hashed texture of the starfield family.
fn stars_like(
    row: usize,
    col: usize,
    cols: usize,
    modulo: u64,
    hot: u64,
    dim_ch: char,
    bright_ch: char,
) -> (r: Option<(char, Brightness)>)
    requires
        modulo > 0,
    ensures
        ({
            let v = mix(row as u64, col as u64, cols as u64) % modulo;
            r == if v <= 1 {
                Some((bright_ch, Brightness::Bright))
            } else if v <= hot {
                Some((dim_ch, Brightness::Dim))
            } else {
                None
            }
        }),
{
    let h = mix_exec(row, col, cols);
    let v = h % modulo;
    if v <= 1 {
        Some((bright_ch, Brightness::Bright))
    } else if v <= hot {
        Some((dim_ch, Brightness::Dim))
    } else {
        None
    }
}

/// Logo style.
#[derive(Debug, Clone, Copy, PartialEq, Eq, Structural)]
pub enum LogoStyle {
    /// Large word mark (6 rows) with a gradient (default).
    Large,
    /// Small word mark (3 rows).
    Small,
    /// One line: `NEO`.
    Minimal,
    /// No logo.
    Hidden,
}

impl LogoStyle {
    pub open spec fn name(self) -> Seq<char> {
        match self {
            LogoStyle::Large => "large"@,
            LogoStyle::Small => "small"@,
            LogoStyle::Minimal => "minimal"@,
            LogoStyle::Hidden => "hidden"@,
        }
    }

    pub open spec fn named(k: Seq<char>) -> Option<LogoStyle> {
        if k == "large"@ || k == "big"@ || k == "default"@ {
            Some(LogoStyle::Large)
        } else if k == "small"@ || k == "compact"@ {
            Some(LogoStyle::Small)
        } else if k == "minimal"@ || k == "tiny"@ || k == "one-line"@ {
            Some(LogoStyle::Minimal)
        } else if k == "hidden"@ || k == "none"@ || k == "off"@ {
            Some(LogoStyle::Hidden)
        } else {
            None
        }
    }

    pub open spec fn following(self) -> LogoStyle {
        match self {
            LogoStyle::Large => LogoStyle::Small,
            LogoStyle::Small => LogoStyle::Minimal,
            LogoStyle::Minimal => LogoStyle::Hidden,
            LogoStyle::Hidden => LogoStyle::Large,
        }
    }

    pub open spec fn row_count(self) -> usize {
        match self {
            LogoStyle::Large => 6,
            LogoStyle::Small => 3,
            LogoStyle::Minimal => 1,
            LogoStyle::Hidden => 0,
        }
    }

    pub fn as_str(self) -> (r: &'static str)
        ensures
            r@ == self.name(),
    {
        match self {
            LogoStyle::Large => "large",
            LogoStyle::Small => "small",
            LogoStyle::Minimal => "minimal",
            LogoStyle::Hidden => "hidden",
        }
    }

    pub fn parse(s: &str) -> (r: Option<Self>)
        ensures
            r == Self::named(name_key(s@)),
    {
        let k = name_key_exec(s);
        let k = k.as_slice();
        if chars_eq_str(k, "large") || chars_eq_str(k, "big") || chars_eq_str(k, "default") {
            Some(LogoStyle::Large)
        } else if chars_eq_str(k, "small") || chars_eq_str(k, "compact") {
            Some(LogoStyle::Small)
        } else if chars_eq_str(k, "minimal") || chars_eq_str(k, "tiny") || chars_eq_str(
            k,
            "one-line",
        ) {
            Some(LogoStyle::Minimal)
        } else if chars_eq_str(k, "hidden") || chars_eq_str(k, "none") || chars_eq_str(k, "off") {
            Some(LogoStyle::Hidden)
        } else {
            None
        }
    }

    pub fn all() -> (r: [LogoStyle; 4])
        ensures
            r@ == seq![LogoStyle::Large, LogoStyle::Small, LogoStyle::Minimal, LogoStyle::Hidden],
    {
        let r = [LogoStyle::Large, LogoStyle::Small, LogoStyle::Minimal, LogoStyle::Hidden];
        assert(r@ =~= seq![LogoStyle::Large, LogoStyle::Small, LogoStyle::Minimal, LogoStyle::Hidden]);
        r
    }

    pub fn next(self) -> (r: Self)
        ensures
            r == self.following(),
    {
        match self {
            LogoStyle::Large => LogoStyle::Small,
            LogoStyle::Small => LogoStyle::Minimal,
            LogoStyle::Minimal => LogoStyle::Hidden,
            LogoStyle::Hidden => LogoStyle::Large,
        }
    }

    /// Rows the style takes (for the first-screen height budget).
    pub fn rows(self) -> (r: usize)
        ensures
            r == self.row_count(),
    {
        match self {
            LogoStyle::Large => 6,
            LogoStyle::Small => 3,
            LogoStyle::Minimal => 1,
            LogoStyle::Hidden => 0,
        }
    }
}

/// Small word mark (3 rows, equal width).
pub const LOGO_SMALL: [&'static str; 3] = ["█▀▀█ █▀▀▀ █▀▀█", "█  █ █▀▀▀ █  █", "▀▀▀▀ ▀▀▀▀ ▀▀▀▀"];

/// Appearance preference (persisted).
#[derive(Debug, Clone, Copy, PartialEq, Eq, Structural)]
pub struct Appearance {
    pub background: Background,
    pub logo: LogoStyle,
}

impl Default for Background {
    fn default() -> (r: Self)
        ensures
            r == Background::Stars,
    {
        Background::Stars
    }
}

impl Default for LogoStyle {
    fn default() -> (r: Self)
        ensures
            r == LogoStyle::Large,
    {
        LogoStyle::Large
    }
}

impl Default for Appearance {
    fn default() -> (r: Self)
        ensures
            r == (Appearance { background: Background::Stars, logo: LogoStyle::Large }),
    {
        Appearance { background: Background::Stars, logo: LogoStyle::Large }
    }
}

/// `line` starts with the key prefix `p`; the rest of it.
pub open spec fn after_prefix(line: Seq<char>, p: Seq<char>) -> Option<Seq<char>> {
    if starts_with(line, p) {
        Some(line.skip(p.len() as int))
    } else {
        None
    }
}

/// Apply one line of the appearance file.
pub open spec fn apply_appearance_line(a: Appearance, line: Seq<char>) -> Appearance {
    match after_prefix(line, "background="@) {
        Some(v) => match Background::named(name_key(v)) {
            Some(b) => Appearance { background: b, ..a },
            None => a,
        },
        None => match after_prefix(line, "logo="@) {
            Some(v) => match LogoStyle::named(name_key(v)) {
                Some(l) => Appearance { logo: l, ..a },
                None => a,
            },
            None => a,
        },
    }
}

/// The appearance after the first `n` lines (later lines win).
pub open spec fn appearance_upto(ls: Seq<Seq<char>>, n: int) -> Appearance
    decreases n,
{
    if n <= 0 {
        Appearance { background: Background::Stars, logo: LogoStyle::Large }
    } else {
        apply_appearance_line(appearance_upto(ls, n - 1), ls[n - 1])
    }
}

/// `line` with prefix `p` removed, if it has it.
pub fn strip_prefix_chars(line: &[char], p: &str) -> (r: Option<Vec<char>>)
    ensures
        match r {
            Some(v) => after_prefix(line@, p@) == Some(v@),
            None => after_prefix(line@, p@) is None,
        },
{
    let pv = chars_of(p);
    if starts_with_exec(line, pv.as_slice()) {
        let v = sub_chars(line, pv.len(), line.len());
        assert(v@ =~= line@.skip(pv@.len() as int));
        Some(v)
    } else {
        None
    }
}

/// Parse the appearance file (two `key=value` lines); anything unreadable
/// keeps the default.
pub fn parse_preference(raw: &str) -> (r: Appearance)
    ensures
        r == appearance_upto(text_lines(raw@), text_lines(raw@).len() as int),
{
    let ls = text_lines_exec(raw);
    let ghost lv = lines_view(ls@);
    let mut a = Appearance { background: Background::Stars, logo: LogoStyle::Large };
    let mut i: usize = 0;
    while i < ls.len()
        invariant
            lv == lines_view(ls@),
            i <= ls@.len(),
            a == appearance_upto(lv, i as int),
        decreases ls@.len() - i,
    {
        let line = ls[i].as_slice();
        assert(line@ == lv[i as int]);
        match strip_prefix_chars(line, "background=") {
            Some(v) => {
                let vs = string_of(v.as_slice());
                match Background::parse(vs.as_str()) {
                    Some(b) => {
                        a = Appearance { background: b, ..a };
                    },
                    None => {},
                }
            },
            None => match strip_prefix_chars(line, "logo=") {
                Some(v) => {
                    let vs = string_of(v.as_slice());
                    match LogoStyle::parse(vs.as_str()) {
                        Some(l) => {
                            a = Appearance { logo: l, ..a };
                        },
                        None => {},
                    }
                },
                None => {},
            },
        }
        i = i + 1;
    }
    a
}

/// The appearance file's content.
pub fn format_preference(ap: Appearance) -> (r: String)
    ensures
        r@ == "background="@ + ap.background.name() + "\n"@ + "logo="@ + ap.logo.name() + "\n"@,
{
    let mut s = String::new();
    push_str(&mut s, "background=");
    push_str(&mut s, ap.background.as_str());
    push_str(&mut s, "\n");
    push_str(&mut s, "logo=");
    push_str(&mut s, ap.logo.as_str());
    push_str(&mut s, "\n");
    s
}

/// Display preference (tool output expanded / reasoning shown).
#[derive(Debug, Clone, Copy, PartialEq, Eq, Structural)]
pub struct DisplayPref {
    pub details: bool,
    pub thinking: bool,
}

impl Default for DisplayPref {
    fn default() -> (r: Self)
        ensures
            r == (DisplayPref { details: false, thinking: false }),
    {
        DisplayPref { details: false, thinking: false }
    }
}

/// Index of the first `'='`, if any.
pub open spec fn first_eq(line: Seq<char>, i: int) -> Option<int>
    decreases line.len() - i,
{
    if i < 0 || i >= line.len() {
        None
    } else if line[i] == '=' {
        Some(i)
    } else {
        first_eq(line, i + 1)
    }
}

/// Apply one `key=value` line of the display file.
pub open spec fn apply_display_line(d: DisplayPref, line: Seq<char>) -> DisplayPref {
    match first_eq(line, 0) {
        Some(k) => {
            let key = line.take(k);
            let on = trim(line.skip(k + 1)) == "on"@;
            if key == "details"@ {
                DisplayPref { details: on, ..d }
            } else if key == "thinking"@ {
                DisplayPref { thinking: on, ..d }
            } else {
                d
            }
        },
        None => d,
    }
}

pub open spec fn display_upto(ls: Seq<Seq<char>>, n: int) -> DisplayPref
    decreases n,
{
    if n <= 0 {
        DisplayPref { details: false, thinking: false }
    } else {
        apply_display_line(display_upto(ls, n - 1), ls[n - 1])
    }
}

fn first_eq_exec(line: &[char]) -> (r: Option<usize>)
    ensures
        match r {
            Some(k) => first_eq(line@, 0) == Some(k as int),
            None => first_eq(line@, 0) is None,
        },
        r matches Some(k) ==> k < line@.len(),
{
    let n = line.len();
    let mut i: usize = 0;
    while i < n
        invariant
            n == line@.len(),
            i <= n,
            first_eq(line@, 0) == first_eq(line@, i as int),
        decreases n - i,
    {
        if line[i] == '=' {
            return Some(i);
        }
        i = i + 1;
    }
    None
}

/// Parse the display file; anything unreadable keeps the default.
pub fn parse_display_pref(raw: &str) -> (r: DisplayPref)
    ensures
        r == display_upto(text_lines(raw@), text_lines(raw@).len() as int),
{
    let ls = text_lines_exec(raw);
    let ghost lv = lines_view(ls@);
    let mut d = DisplayPref { details: false, thinking: false };
    let mut i: usize = 0;
    while i < ls.len()
        invariant
            lv == lines_view(ls@),
            i <= ls@.len(),
            d == display_upto(lv, i as int),
        decreases ls@.len() - i,
    {
        let line = ls[i].as_slice();
        assert(line@ == lv[i as int]);
        match first_eq_exec(line) {
            Some(k) => {
                let ln = line.len();
                let key = sub_chars(line, 0, k);
                let val = sub_chars(line, k + 1, ln);
                assert(key@ =~= line@.take(k as int));
                assert(val@ =~= line@.skip(k + 1));
                let vs = string_of(val.as_slice());
                let vt = trim_str(vs.as_str());
                let on = crate::text::str_eq(vt, "on");
                if chars_eq_str(key.as_slice(), "details") {
                    d = DisplayPref { details: on, ..d };
                } else if chars_eq_str(key.as_slice(), "thinking") {
                    d = DisplayPref { thinking: on, ..d };
                }
            },
            None => {},
        }
        i = i + 1;
    }
    d
}

/// The display file's content.
pub fn format_display_pref(d: DisplayPref) -> (r: String)
    ensures
        r@ == "details="@ + (if d.details {
            "on"@
        } else {
            "off"@
        }) + "\n"@ + "thinking="@ + (if d.thinking {
            "on"@
        } else {
            "off"@
        }) + "\n"@,
{
    let mut s = String::new();
    push_str(&mut s, "details=");
    push_str(&mut s, if d.details { "on" } else { "off" });
    push_str(&mut s, "\n");
    push_str(&mut s, "thinking=");
    push_str(&mut s, if d.thinking { "on" } else { "off" });
    push_str(&mut s, "\n");
    s
}

/// Cycling `next` four times returns to the start, visiting every texture.
pub proof fn law_background_cycle(b: Background)
    ensures
        b.following().following().following().following() == b,
        b.following() != b,
        b.following().following() != b,
        b.following().following().following() != b,
{
}

/// Cycling `next` four times returns to the start, visiting every style.
pub proof fn law_logo_cycle(l: LogoStyle)
    ensures
        l.following().following().following().following() == l,
        l.following() != l,
        l.following().following() != l,
        l.following().following().following() != l,
{
}

/// The plain background never draws anything.
pub proof fn law_plain_background_is_empty(row: usize, col: usize, cols: usize)
    ensures
        Background::Plain.cell_at(row, col, cols) is None,
{
}

/// The dot grid is periodic: the same pattern every 3 rows and 6 columns.
pub proof fn law_dots_periodic(row: usize, col: usize, cols: usize)
    requires
        row + 3 <= usize::MAX,
        col + 6 <= usize::MAX,
    ensures
        Background::Dots.cell_at(row, col, cols) == Background::Dots.cell_at((row + 3) as usize, col, cols),
        Background::Dots.cell_at(row, col, cols) == Background::Dots.cell_at(row, (col + 6) as usize, cols),
{
}


/// Every listed background is found again by its name.
pub proof fn law_background_names_parse(b: Background)
    ensures
        Background::named(name_key(b.name())) == Some(b),
{
    reveal_strlit("stars");
    reveal_strlit("star");
    reveal_strlit("default");
    reveal_strlit("dots");
    reveal_strlit("grid");
    reveal_strlit("diagonal");
    reveal_strlit("lines");
    reveal_strlit("none");
    lemma_plain_key(b.name());
}

/// Parsing a background ignores surrounding blanks and ASCII case:
/// `parse(s)` is `parse(s.trim().to_ascii_lowercase())`.
pub proof fn law_background_parse_normalizes(s: Seq<char>)
    ensures
        Background::named(name_key(s)) == Background::named(name_key(name_key(s))),
{
    law_name_key_idempotent(s);
}

} // verus!
