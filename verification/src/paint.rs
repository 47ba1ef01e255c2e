//! Colour output: the terminal's colour capability, theme colours as
//! escape sequences, and the palette that turns a tone into one.
use vstd::prelude::*;
use crate::theme::{Theme, ThemeName, theme_of, get};
use crate::tui::{Tone, rgb256_of, rgb16_of, rgb_to_256, rgb_to_16};
use crate::framing::{dec_of, push_dec};
use crate::text::{contains, str_contains, str_eq, push_str};

verus! {

/// What the terminal can show, probed once.
#[derive(Debug, Clone, Copy, PartialEq, Eq, Structural)]
pub enum ColorMode {
    TrueColor,
    Ansi256,
    Ansi16,
    /// No colour at all (`NO_COLOR`, a dumb terminal).
    NoColor,
}

/// The mode for the environment: `NO_COLOR` set turns colour off;
/// `COLORTERM` of `truecolor`/`24bit` gives truecolor; otherwise `TERM`
/// decides (empty or `dumb`: none; a `256color` name: 256 colours; a few
/// modern terminals: truecolor; anything else: 16 colours).
pub open spec fn color_mode_spec(no_color: bool, colorterm: Option<Seq<char>>, term: Seq<char>) -> ColorMode {
    if no_color {
        ColorMode::NoColor
    } else if colorterm matches Some(ct) && (ct == "truecolor"@ || ct == "24bit"@) {
        ColorMode::TrueColor
    } else if term == "dumb"@ || term.len() == 0 {
        ColorMode::NoColor
    } else if contains(term, "256color"@) {
        ColorMode::Ansi256
    } else if term == "xterm-kitty"@ || term == "alacritty"@ || term == "wezterm"@ || term
        == "foot"@ || term == "tmux-256color"@ {
        ColorMode::TrueColor
    } else {
        ColorMode::Ansi16
    }
}

/// Decides the colour mode from the three environment values (`no_color`:
/// `NO_COLOR` is set; `colorterm`: `COLORTERM` if set; `term`: `TERM`, empty
/// if unset).
pub fn color_mode_of(no_color: bool, colorterm: Option<&str>, term: &str) -> (m: ColorMode)
    ensures
        m == color_mode_spec(no_color, match colorterm {
            Some(c) => Some(c@),
            None => None,
        }, term@),
{
    if no_color {
        return ColorMode::NoColor;
    }
    if let Some(ct) = colorterm {
        if str_eq(ct, "truecolor") || str_eq(ct, "24bit") {
            return ColorMode::TrueColor;
        }
    }
    if str_eq(term, "dumb") || term.unicode_len() == 0 {
        ColorMode::NoColor
    } else if str_contains(term, "256color") {
        ColorMode::Ansi256
    } else if str_eq(term, "xterm-kitty") || str_eq(term, "alacritty") || str_eq(term, "wezterm")
        || str_eq(term, "foot") || str_eq(term, "tmux-256color") {
        ColorMode::TrueColor
    } else {
        ColorMode::Ansi16
    }
}

/// A foreground colour: one of the theme's semantic colours, or any RGB.
#[derive(Debug, Clone, Copy, PartialEq, Eq, Structural)]
pub enum Color {
    Primary,
    Accent,
    Success,
    Error,
    Warning,
    Info,
    Text,
    Muted,
    Border,
    BorderActive,
    Rgb(u8, u8, u8),
}

/// The RGB of a colour under a theme.
pub open spec fn rgb_spec(c: Color, t: Theme) -> (u8, u8, u8) {
    match c {
        Color::Primary => t.primary,
        Color::Accent => t.accent,
        Color::Success => t.success,
        Color::Error => t.error,
        Color::Warning => t.warning,
        Color::Info => t.info,
        Color::Text => t.text,
        Color::Muted => t.muted,
        Color::Border => t.border,
        Color::BorderActive => t.border_active,
        Color::Rgb(r, g, b) => (r, g, b),
    }
}

/// The escape sequence that selects a colour as foreground: 24-bit
/// (`ESC[38;2;r;g;bm`), the nearest of 256 (`ESC[38;5;nm`), the nearest of
/// 16 (`ESC[nm`), or nothing when colour is off.
pub open spec fn fg_spec(c: Color, mode: ColorMode, t: Theme) -> Seq<char> {
    let (r, g, b) = rgb_spec(c, t);
    match mode {
        ColorMode::NoColor => Seq::empty(),
        ColorMode::TrueColor => "\u{1b}[38;2;"@ + dec_of(r as nat) + ";"@ + dec_of(g as nat) + ";"@
            + dec_of(b as nat) + "m"@,
        ColorMode::Ansi256 => "\u{1b}[38;5;"@ + dec_of(rgb256_of(r, g, b) as nat) + "m"@,
        ColorMode::Ansi16 => "\u{1b}["@ + dec_of(rgb16_of(r, g, b) as nat) + "m"@,
    }
}

impl Color {
    /// The colour's RGB under theme `t`.
    pub fn rgb(self, t: &Theme) -> (r: (u8, u8, u8))
        ensures
            r == rgb_spec(self, *t),
    {
        match self {
            Color::Primary => t.primary,
            Color::Accent => t.accent,
            Color::Success => t.success,
            Color::Error => t.error,
            Color::Warning => t.warning,
            Color::Info => t.info,
            Color::Text => t.text,
            Color::Muted => t.muted,
            Color::Border => t.border,
            Color::BorderActive => t.border_active,
            Color::Rgb(r, g, b) => (r, g, b),
        }
    }

    /// The foreground escape sequence for this colour, degraded to what
    /// `mode` can show.
    pub fn fg(self, mode: ColorMode, t: &Theme) -> (s: String)
        ensures
            s@ == fg_spec(self, mode, *t),
    {
        let (r, g, b) = self.rgb(t);
        let mut s = String::new();
        match mode {
            ColorMode::NoColor => {},
            ColorMode::TrueColor => {
                push_str(&mut s, "\u{1b}[38;2;");
                push_dec(&mut s, r as u64);
                push_str(&mut s, ";");
                push_dec(&mut s, g as u64);
                push_str(&mut s, ";");
                push_dec(&mut s, b as u64);
                push_str(&mut s, "m");
            },
            ColorMode::Ansi256 => {
                push_str(&mut s, "\u{1b}[38;5;");
                push_dec(&mut s, rgb_to_256(r, g, b) as u64);
                push_str(&mut s, "m");
            },
            ColorMode::Ansi16 => {
                push_str(&mut s, "\u{1b}[");
                push_dec(&mut s, rgb_to_16(r, g, b) as u64);
                push_str(&mut s, "m");
            },
        }
        s
    }
}

/// The faint attribute (SGR 2), or nothing when colour is off.
pub open spec fn faint_spec(mode: ColorMode) -> Seq<char> {
    if mode == ColorMode::NoColor {
        Seq::empty()
    } else {
        "\u{1b}[2m"@
    }
}

/// The faint attribute for `mode`.
pub fn faint(mode: ColorMode) -> (s: String)
    ensures
        s@ == faint_spec(mode),
{
    let mut s = String::new();
    if mode != ColorMode::NoColor {
        push_str(&mut s, "\u{1b}[2m");
    }
    s
}

/// The reset sequence, or nothing when colour is off (a stray reset would
/// still leave escapes in redirected output).
pub open spec fn reset_spec(mode: ColorMode) -> Seq<char> {
    if mode == ColorMode::NoColor {
        Seq::empty()
    } else {
        "\u{1b}[0m"@
    }
}

/// What a tone prints as: the theme colour it stands for, the faint
/// attribute, a star colour, any RGB, or the reset for `Blank`.
pub open spec fn tone_spec(mode: ColorMode, t: Theme, tone: Tone) -> Seq<char> {
    match tone {
        Tone::Text => fg_spec(Color::Text, mode, t),
        Tone::Primary => fg_spec(Color::Primary, mode, t),
        Tone::Accent => fg_spec(Color::Accent, mode, t),
        Tone::Success => fg_spec(Color::Success, mode, t),
        Tone::Error => fg_spec(Color::Error, mode, t),
        Tone::Warning => fg_spec(Color::Warning, mode, t),
        Tone::Info => fg_spec(Color::Info, mode, t),
        Tone::Muted => fg_spec(Color::Muted, mode, t),
        Tone::Border => fg_spec(Color::Border, mode, t),
        Tone::BorderActive => fg_spec(Color::BorderActive, mode, t),
        Tone::Dim => faint_spec(mode),
        Tone::StarDim => fg_spec(Color::Rgb(t.star_dim.0, t.star_dim.1, t.star_dim.2), mode, t),
        Tone::StarBright => fg_spec(
            Color::Rgb(t.star_bright.0, t.star_bright.1, t.star_bright.2),
            mode,
            t,
        ),
        Tone::Rgb(r, g, b) => fg_spec(Color::Rgb(r, g, b), mode, t),
        Tone::Blank => reset_spec(mode),
    }
}

/// The palette: each semantic colour already turned into its escape
/// sequence for the terminal's mode and the current theme.
pub struct Pal {
    pub primary: String,
    pub accent: String,
    pub success: String,
    pub error: String,
    pub warning: String,
    pub info: String,
    pub text: String,
    pub muted: String,
    pub border: String,
    pub border_active: String,
    pub dim: String,
    pub reset: String,
    pub mode: ColorMode,
    pub theme: Theme,
}

impl Pal {
    /// Each field holds the sequence for its colour under `mode` and `theme`.
    pub open spec fn wf(&self) -> bool {
        &&& self.primary@ == fg_spec(Color::Primary, self.mode, self.theme)
        &&& self.accent@ == fg_spec(Color::Accent, self.mode, self.theme)
        &&& self.success@ == fg_spec(Color::Success, self.mode, self.theme)
        &&& self.error@ == fg_spec(Color::Error, self.mode, self.theme)
        &&& self.warning@ == fg_spec(Color::Warning, self.mode, self.theme)
        &&& self.info@ == fg_spec(Color::Info, self.mode, self.theme)
        &&& self.text@ == fg_spec(Color::Text, self.mode, self.theme)
        &&& self.muted@ == fg_spec(Color::Muted, self.mode, self.theme)
        &&& self.border@ == fg_spec(Color::Border, self.mode, self.theme)
        &&& self.border_active@ == fg_spec(Color::BorderActive, self.mode, self.theme)
        &&& self.dim@ == faint_spec(self.mode)
        &&& self.reset@ == reset_spec(self.mode)
    }

    /// The palette for `mode` and the theme called `name`.
    pub fn new(mode: ColorMode, name: ThemeName) -> (p: Pal)
        ensures
            p.wf(),
            p.mode == mode,
            p.theme == theme_of(name),
    {
        let t = get(name);
        let mut reset = String::new();
        if mode != ColorMode::NoColor {
            push_str(&mut reset, "\u{1b}[0m");
        }
        Pal {
            primary: Color::Primary.fg(mode, &t),
            accent: Color::Accent.fg(mode, &t),
            success: Color::Success.fg(mode, &t),
            error: Color::Error.fg(mode, &t),
            warning: Color::Warning.fg(mode, &t),
            info: Color::Info.fg(mode, &t),
            text: Color::Text.fg(mode, &t),
            muted: Color::Muted.fg(mode, &t),
            border: Color::Border.fg(mode, &t),
            border_active: Color::BorderActive.fg(mode, &t),
            dim: faint(mode),
            reset,
            mode,
            theme: t,
        }
    }

    /// The escape sequence for a tone.
    pub fn tone(&self, t: Tone) -> (s: String)
        requires
            self.wf(),
        ensures
            s@ == tone_spec(self.mode, self.theme, t),
    {
        match t {
            Tone::Text => self.text.clone(),
            Tone::Primary => self.primary.clone(),
            Tone::Accent => self.accent.clone(),
            Tone::Success => self.success.clone(),
            Tone::Error => self.error.clone(),
            Tone::Warning => self.warning.clone(),
            Tone::Info => self.info.clone(),
            Tone::Muted => self.muted.clone(),
            Tone::Border => self.border.clone(),
            Tone::BorderActive => self.border_active.clone(),
            Tone::Dim => self.dim.clone(),
            Tone::StarDim => Color::Rgb(
                self.theme.star_dim.0,
                self.theme.star_dim.1,
                self.theme.star_dim.2,
            ).fg(self.mode, &self.theme),
            Tone::StarBright => Color::Rgb(
                self.theme.star_bright.0,
                self.theme.star_bright.1,
                self.theme.star_bright.2,
            ).fg(self.mode, &self.theme),
            Tone::Rgb(r, g, b) => Color::Rgb(r, g, b).fg(self.mode, &self.theme),
            Tone::Blank => self.reset.clone(),
        }
    }
}

/// With colour off, every tone prints as nothing: output then carries no
/// escape sequence at all.
pub proof fn law_no_color_prints_no_escapes(t: Theme, tone: Tone)
    ensures
        tone_spec(ColorMode::NoColor, t, tone) == Seq::<char>::empty(),
{
}

// ── the screen grid ──────────────────────────────────────────────────

/// Index of cell (`r`, `c`) in a grid `cols` wide.
pub open spec fn at(cols: int, r: int, c: int) -> int {
    r * cols + c
}

/// The screen as cells, row by row: a character, its tone, and whether it
/// is the second column of a wide character (drawn by the first, so not
/// printed). Painting text first and laying the background texture only
/// on cells never written lets the texture show on both sides of
/// centred content.
pub struct Grid {
    pub cols: usize,
    pub rows: usize,
    pub ch: Vec<char>,
    pub tone: Vec<Tone>,
    pub skip: Vec<bool>,
    /// Column where writing stops (a sidebar's left edge); `usize::MAX`: none.
    pub put_limit: usize,
}

/// The cells as three parallel sequences.
pub struct Cells {
    pub ch: Seq<char>,
    pub tone: Seq<Tone>,
    pub skip: Seq<bool>,
}

/// Cell `i` becomes character `c` in `tone`; a wide character also takes
/// the next cell, as a blank continuation.
pub open spec fn place(g: Cells, i: int, c: char, w: int, tone: Tone) -> Cells {
    let g1 = Cells {
        ch: g.ch.update(i, c),
        tone: g.tone.update(i, tone),
        skip: g.skip.update(i, false),
    };
    if w == 2 {
        Cells {
            ch: g1.ch.update(i + 1, ' '),
            tone: g1.tone.update(i + 1, tone),
            skip: g1.skip.update(i + 1, true),
        }
    } else {
        g1
    }
}

/// Writing `text` on row `row` from column `c`, stopping before a
/// character that would cross column `cap`: zero-width characters are
/// skipped, the others take their display width. Gives the cells and the
/// column after the last character written.
pub open spec fn put_run(g: Cells, cols: int, cap: int, row: int, c: int, text: Seq<char>, tone: Tone) -> (Cells, int)
    decreases text.len(),
{
    if text.len() == 0 {
        (g, c)
    } else {
        let w = crate::width::width_of(text[0]) as int;
        if w == 0 {
            put_run(g, cols, cap, row, c, text.drop_first(), tone)
        } else if c + w > cap {
            (g, c)
        } else {
            put_run(place(g, at(cols, row, c), text[0], w, tone), cols, cap, row, c + w, text.drop_first(), tone)
        }
    }
}

/// `h` and `g` agree on every cell outside `lo..hi`.
pub open spec fn same_outside(h: Cells, g: Cells, lo: int, hi: int) -> bool {
    forall|j: int|
        0 <= j < g.ch.len() && !(lo <= j < hi) ==> #[trigger] h.ch[j] == g.ch[j] && h.tone[j]
            == g.tone[j] && h.skip[j] == g.skip[j]
}

/// No cell holds a line break (so a printed row is one terminal line).
pub open spec fn no_newline_cells(g: Cells) -> bool {
    forall|i: int| 0 <= i < g.ch.len() ==> #[trigger] g.ch[i] != '\n'
}

/// A text with no line break in it.
pub open spec fn no_nl(s: Seq<char>) -> bool {
    forall|i: int| 0 <= i < s.len() ==> #[trigger] s[i] != '\n'
}

pub proof fn lemma_no_nl_concat(a: Seq<char>, b: Seq<char>)
    requires
        no_nl(a),
        no_nl(b),
    ensures
        no_nl(a + b),
{
    assert forall|i: int| 0 <= i < (a + b).len() implies #[trigger] (a + b)[i] != '\n' by {
        if i < a.len() {
            assert((a + b)[i] == a[i]);
        } else {
            assert((a + b)[i] == b[i - a.len()]);
        }
    }
}

/// Writing text never puts a line break in a cell: a line break takes no
/// column, so it is skipped.
pub proof fn lemma_put_run_clean(g: Cells, cols: int, cap: int, row: int, c: int, text: Seq<char>, tone: Tone)
    requires
        no_newline_cells(g),
        0 <= c,
        0 <= row * cols,
        cap <= cols,
        at(cols, row, cols) <= g.ch.len(),
        g.tone.len() == g.ch.len(),
        g.skip.len() == g.ch.len(),
    ensures
        no_newline_cells(put_run(g, cols, cap, row, c, text, tone).0),
    decreases text.len(),
{
    if text.len() > 0 {
        let w = crate::width::width_of(text[0]) as int;
        if w == 0 {
            lemma_put_run_clean(g, cols, cap, row, c, text.drop_first(), tone);
        } else if c + w <= cap {
            assert(text[0] != '\n');
            let g2 = place(g, at(cols, row, c), text[0], w, tone);
            assert forall|i: int| 0 <= i < g2.ch.len() implies #[trigger] g2.ch[i] != '\n' by {
                if i != at(cols, row, c) && i != at(cols, row, c) + 1 {
                    assert(g2.ch[i] == g.ch[i]);
                }
            }
            lemma_put_run_clean(g2, cols, cap, row, c + w, text.drop_first(), tone);
        }
    }
}

/// Every cell's tone after writing in `tone` is its old tone or `tone`.
pub open spec fn tones_from(h: Cells, g: Cells, tone: Tone) -> bool {
    forall|j: int| 0 <= j < g.tone.len() ==> #[trigger] h.tone[j] == g.tone[j] || h.tone[j] == tone
}

pub proof fn lemma_put_run_tones(g: Cells, cols: int, cap: int, row: int, c: int, text: Seq<char>, tone: Tone)
    requires
        0 <= c,
        0 <= row * cols,
        cap <= cols,
        at(cols, row, cols) <= g.ch.len(),
        g.tone.len() == g.ch.len(),
        g.skip.len() == g.ch.len(),
    ensures
        tones_from(put_run(g, cols, cap, row, c, text, tone).0, g, tone),
    decreases text.len(),
{
    if text.len() > 0 {
        let w = crate::width::width_of(text[0]) as int;
        if w == 0 {
            lemma_put_run_tones(g, cols, cap, row, c, text.drop_first(), tone);
        } else if c + w <= cap {
            let g2 = place(g, at(cols, row, c), text[0], w, tone);
            lemma_put_run_tones(g2, cols, cap, row, c + w, text.drop_first(), tone);
            let h = put_run(g2, cols, cap, row, c + w, text.drop_first(), tone).0;
            assert forall|j: int| 0 <= j < g.tone.len() implies #[trigger] h.tone[j] == g.tone[j] || h.tone[j] == tone by {
                assert(h.tone[j] == g2.tone[j] || h.tone[j] == tone);
            }
        } else {
            assert(tones_from(g, g, tone));
        }
    } else {
        assert(tones_from(g, g, tone));
    }
}

/// `put_run` never moves left, stays within `cap` once within it, and
/// changes only the cells of `row` from `c` to where it ends.
pub proof fn lemma_put_run(g: Cells, cols: int, cap: int, row: int, c: int, text: Seq<char>, tone: Tone)
    requires
        0 <= c,
        0 <= row * cols,
        cap <= cols,
        at(cols, row, cols) <= g.ch.len(),
        g.tone.len() == g.ch.len(),
        g.skip.len() == g.ch.len(),
    ensures
        c <= put_run(g, cols, cap, row, c, text, tone).1,
        c <= cap ==> put_run(g, cols, cap, row, c, text, tone).1 <= cap,
        put_run(g, cols, cap, row, c, text, tone).0.ch.len() == g.ch.len(),
        put_run(g, cols, cap, row, c, text, tone).0.tone.len() == g.tone.len(),
        put_run(g, cols, cap, row, c, text, tone).0.skip.len() == g.skip.len(),
        same_outside(
            put_run(g, cols, cap, row, c, text, tone).0,
            g,
            at(cols, row, c),
            at(cols, row, put_run(g, cols, cap, row, c, text, tone).1),
        ),
    decreases text.len(),
{
    if text.len() > 0 {
        let w = crate::width::width_of(text[0]) as int;
        if w == 0 {
            lemma_put_run(g, cols, cap, row, c, text.drop_first(), tone);
        } else if c + w <= cap {
            let g2 = place(g, at(cols, row, c), text[0], w, tone);
            lemma_put_run(g2, cols, cap, row, c + w, text.drop_first(), tone);
        }
    }
}

/// Cells `r * cols + c` of a grid with `r < rows`, `c < cols` lie inside it.
pub proof fn lemma_cell_in_grid(cols: int, rows: int, r: int, c: int)
    requires
        0 <= r < rows,
        0 <= c <= cols,
    ensures
        0 <= r * cols,
        0 <= at(cols, r, c) <= cols * rows,
        at(cols, r, c) + (cols - c) <= cols * rows,
{
    assert(r * cols + cols <= cols * rows) by (nonlinear_arith)
        requires
            0 <= r < rows,
            0 <= cols,
    ;
    assert(0 <= r * cols) by (nonlinear_arith)
        requires
            0 <= r,
            0 <= cols,
    ;
}

impl Grid {
    /// The three cell vectors cover the grid exactly.
    pub open spec fn wf(&self) -> bool {
        &&& self.ch@.len() == self.cols * self.rows
        &&& self.tone@.len() == self.cols * self.rows
        &&& self.skip@.len() == self.cols * self.rows
    }

    pub open spec fn cells(&self) -> Cells {
        Cells { ch: self.ch@, tone: self.tone@, skip: self.skip@ }
    }

    /// Where writing stops on a row: the grid's width or the limit.
    pub open spec fn cap(&self) -> int {
        if self.put_limit < self.cols {
            self.put_limit as int
        } else {
            self.cols as int
        }
    }

    /// A blank grid: spaces, never written, nothing limited.
    pub fn new(cols: usize, rows: usize) -> (g: Grid)
        requires
            cols * rows <= usize::MAX,
        ensures
            g.wf(),
            g.cols == cols,
            g.rows == rows,
            g.put_limit == usize::MAX,
            forall|i: int| 0 <= i < cols * rows ==> g.ch@[i] == ' ' && g.tone@[i] == Tone::Blank
                && !g.skip@[i],
            no_newline_cells(g.cells()),
    {
        let n = cols * rows;
        let mut ch: Vec<char> = Vec::new();
        let mut tone: Vec<Tone> = Vec::new();
        let mut skip: Vec<bool> = Vec::new();
        for i in 0..n
            invariant
                ch@.len() == i,
                tone@.len() == i,
                skip@.len() == i,
                forall|j: int| 0 <= j < i ==> ch@[j] == ' ' && tone@[j] == Tone::Blank && !skip@[j],
        {
            ch.push(' ');
            tone.push(Tone::Blank);
            skip.push(false);
        }
        Grid { cols, rows, ch, tone, skip, put_limit: usize::MAX }
    }

    /// Stop writing at column `until` (`usize::MAX`: no limit), so body text
    /// does not run under a sidebar.
    pub fn clamp_put(&mut self, until: usize)
        ensures
            *final(self) == (Grid { put_limit: until, ..*old(self) }),
    {
        self.put_limit = until;
    }

    /// Writes `text` on `row` from column `col` (see `put_run`); a row
    /// outside the grid writes nothing. Returns the column after the text.
    pub fn put(&mut self, row: usize, col: usize, text: &str, tone: Tone) -> (end: usize)
        requires
            old(self).wf(),
        ensures
            final(self).wf(),
            final(self).cols == old(self).cols,
            final(self).rows == old(self).rows,
            final(self).put_limit == old(self).put_limit,
            no_newline_cells(old(self).cells()) ==> no_newline_cells(final(self).cells()),
            tones_from(final(self).cells(), old(self).cells(), tone),
            row >= old(self).rows ==> end == col && final(self).cells() == old(self).cells(),
            row < old(self).rows ==> (final(self).cells(), end as int) == put_run(
                old(self).cells(),
                old(self).cols as int,
                old(self).cap(),
                row as int,
                col as int,
                text@,
                tone,
            ),
            row < old(self).rows ==> {
                &&& col <= end
                &&& col <= old(self).cap() ==> end <= old(self).cap()
                &&& same_outside(
                    final(self).cells(),
                    old(self).cells(),
                    at(old(self).cols as int, row as int, col as int),
                    at(old(self).cols as int, row as int, end as int),
                )
            },
    {
        if row >= self.rows {
            return col;
        }
        let v = crate::text::chars_of(text);
        let cols = self.cols;
        let cap = if self.put_limit < cols { self.put_limit } else { cols };
        let ghost g0 = self.cells();
        let total = self.ch.len();
        let mut c = col;
        let mut i: usize = 0;
        proof {
            lemma_cell_in_grid(cols as int, self.rows as int, row as int, cols as int);
            lemma_put_run(g0, cols as int, cap as int, row as int, col as int, text@, tone);
            if no_newline_cells(g0) {
                lemma_put_run_clean(g0, cols as int, cap as int, row as int, col as int, text@, tone);
            }
            lemma_put_run_tones(g0, cols as int, cap as int, row as int, col as int, text@, tone);
            assert(v@.skip(0) =~= v@);
        }
        while i < v.len()
            invariant
                self.wf(),
                self.cols == cols,
                self.rows == old(self).rows,
                self.put_limit == old(self).put_limit,
                cap == old(self).cap(),
                row < self.rows,
                cap <= cols,
                cols * self.rows == total,
                i <= v@.len(),
                v@ == text@,
                put_run(self.cells(), cols as int, cap as int, row as int, c as int, v@.skip(i as int), tone)
                    == put_run(g0, cols as int, cap as int, row as int, col as int, text@, tone),
            decreases v@.len() - i,
        {
            let ch = v[i];
            let w = crate::width::char_width(ch);
            let ghost rest = v@.skip(i as int);
            assert(rest[0] == ch);
            assert(rest.drop_first() =~= v@.skip(i + 1));
            if w != 0 && (c > cap || w > cap - c) {
                assert(put_run(self.cells(), cols as int, cap as int, row as int, c as int, rest, tone)
                    == (self.cells(), c as int));
                i = v.len();
                assert(v@.skip(i as int) =~= Seq::<char>::empty());
            } else {
                if w != 0 {
                    proof {
                        lemma_cell_in_grid(cols as int, self.rows as int, row as int, c as int);
                    }
                    let ghost prev = self.cells();
                    let idx = row * cols + c;
                    self.ch.set(idx, ch);
                    self.tone.set(idx, tone);
                    self.skip.set(idx, false);
                    if w == 2 {
                        self.ch.set(idx + 1, ' ');
                        self.tone.set(idx + 1, tone);
                        self.skip.set(idx + 1, true);
                    }
                    proof {
                        let p = place(prev, at(cols as int, row as int, c as int), ch, w as int, tone);
                        assert(self.ch@ =~= p.ch);
                        assert(self.tone@ =~= p.tone);
                        assert(self.skip@ =~= p.skip);
                    }
                    c = c + w;
                }
                i = i + 1;
            }
        }
        assert(v@.skip(i as int) =~= Seq::<char>::empty());
        c
    }

    /// Writes styled pieces one after another on `row`, centred as a whole
    /// (left column: half of what the pieces leave free).
    pub fn put_centered_styled(&mut self, row: usize, segs: &[(String, Tone)])
        requires
            old(self).wf(),
        ensures
            final(self).wf(),
            final(self).cols == old(self).cols,
            final(self).rows == old(self).rows,
            final(self).put_limit == old(self).put_limit,
            no_newline_cells(old(self).cells()) ==> no_newline_cells(final(self).cells()),
            row >= old(self).rows ==> final(self).cells() == old(self).cells(),
            row < old(self).rows ==> final(self).cells() == put_segs(
                old(self).cells(),
                old(self).cols as int,
                old(self).cap(),
                row as int,
                centre_col(old(self).cols as int, styled_width(seg_views(segs@))),
                seg_views(segs@),
            ).0,
    {
        let ghost sv = seg_views(segs@);
        let mut total: usize = 0;
        let mut k: usize = 0;
        while k < segs.len()
            invariant
                k <= segs@.len(),
                sv == seg_views(segs@),
                total as int == if styled_width(sv.take(k as int)) <= usize::MAX {
                    styled_width(sv.take(k as int)) as int
                } else {
                    usize::MAX as int
                },
            decreases segs@.len() - k,
        {
            assert(sv.take(k + 1).drop_last() =~= sv.take(k as int));
            total = total.saturating_add(crate::width::display_width(segs[k].0.as_str()));
            k = k + 1;
        }
        assert(sv.take(segs@.len() as int) =~= sv);
        let mut c = self.cols.saturating_sub(total) / 2;
        let ghost g0 = self.cells();
        let ghost cap = self.cap();
        let mut k: usize = 0;
        assert(sv.skip(0) =~= sv);
        while k < segs.len()
            invariant
                self.wf(),
                self.cols == old(self).cols,
                self.rows == old(self).rows,
                self.put_limit == old(self).put_limit,
                cap == old(self).cap(),
                k <= segs@.len(),
                sv == seg_views(segs@),
                row >= self.rows ==> self.cells() == g0,
                no_newline_cells(g0) ==> no_newline_cells(self.cells()),
                g0 == old(self).cells(),
                row < self.rows ==> put_segs(self.cells(), self.cols as int, cap, row as int, c as int, sv.skip(k as int))
                    == put_segs(g0, self.cols as int, cap, row as int, centre_col(self.cols as int, styled_width(sv)), sv),
            decreases segs@.len() - k,
        {
            assert(sv.skip(k as int).drop_first() =~= sv.skip(k + 1));
            c = self.put(row, c, segs[k].0.as_str(), segs[k].1);
            k = k + 1;
        }
        assert(sv.skip(k as int) =~= Seq::<(Seq<char>, Tone)>::empty());
    }

    /// Fills columns `col_start..col_end` of `row` (within the grid) with
    /// spaces in `tone`, marking them written so no texture shows through.
    pub fn blank(&mut self, row: usize, col_start: usize, col_end: usize, tone: Tone)
        requires
            old(self).wf(),
        ensures
            final(self).wf(),
            final(self).cols == old(self).cols,
            final(self).rows == old(self).rows,
            final(self).put_limit == old(self).put_limit,
            no_newline_cells(old(self).cells()) ==> no_newline_cells(final(self).cells()),
            row >= old(self).rows ==> final(self).cells() == old(self).cells(),
            row < old(self).rows ==> blank_span(
                final(self).cells(),
                old(self).cells(),
                at(old(self).cols as int, row as int, col_start as int),
                at(old(self).cols as int, row as int, if col_end < old(self).cols {
                    col_end as int
                } else {
                    old(self).cols as int
                }),
                tone,
            ),
    {
        if row >= self.rows {
            return;
        }
        let cols = self.cols;
        let end = if col_end < cols { col_end } else { cols };
        let total = self.ch.len();
        let ghost g0 = self.cells();
        proof {
            lemma_cell_in_grid(cols as int, self.rows as int, row as int, cols as int);
        }
        let mut c = col_start;
        while c < end
            invariant
                self.wf(),
                self.cols == cols,
                self.rows == old(self).rows,
                self.put_limit == old(self).put_limit,
                g0 == old(self).cells(),
                row < self.rows,
                end <= cols,
                cols * self.rows == total,
                col_start <= c,
                col_start <= end ==> c <= end,
                col_start <= end || c == col_start,
                at(cols as int, row as int, cols as int) <= total,
                0 <= row * cols,
                blank_span(self.cells(), g0, at(cols as int, row as int, col_start as int), at(cols as int, row as int, c as int), tone),
            decreases end - c,
        {
            let ghost prev = self.cells();
            let idx = row * cols + c;
            self.ch.set(idx, ' ');
            self.tone.set(idx, tone);
            self.skip.set(idx, false);
            c = c + 1;
            proof {
                let lo = at(cols as int, row as int, col_start as int);
                let hi = at(cols as int, row as int, c as int);
                assert forall|j: int| 0 <= j < g0.ch.len() implies #[trigger] self.ch@[j] == (if lo <= j < hi { ' ' } else { g0.ch[j] })
                    && self.tone@[j] == (if lo <= j < hi { tone } else { g0.tone[j] })
                    && self.skip@[j] == (if lo <= j < hi { false } else { g0.skip[j] }) by {
                    if j != idx {
                        assert(prev.ch[j] == self.ch@[j]);
                    }
                }
            }
        }
        proof {
            let lo = at(cols as int, row as int, col_start as int);
            let hi = at(cols as int, row as int, c as int);
            let hi2 = at(cols as int, row as int, end as int);
            assert forall|j: int| 0 <= j < g0.ch.len() implies #[trigger] self.ch@[j] == (if lo <= j < hi2 { ' ' } else { g0.ch[j] })
                && self.tone@[j] == (if lo <= j < hi2 { tone } else { g0.tone[j] })
                && self.skip@[j] == (if lo <= j < hi2 { false } else { g0.skip[j] }) by {
                assert((lo <= j < hi) == (lo <= j < hi2));
            }
            assert(self.ch@.len() == g0.ch.len());
            assert(blank_span(self.cells(), g0, lo, hi2, tone));
            if no_newline_cells(g0) {
                assert forall|i: int| 0 <= i < self.ch@.len() implies #[trigger] self.ch@[i] != '\n' by {
                    if !(lo <= i < hi2) {
                        assert(g0.ch[i] != '\n');
                    }
                }
            }
        }
    }

    /// Lays the background texture on every cell never written: a cell
    /// keeps what it has unless its tone is `Blank` and the starfield puts a
    /// star there (deterministic, so frames do not flicker).
    pub fn fill_stars(&mut self)
        requires
            old(self).wf(),
        ensures
            final(self).wf(),
            final(self).cols == old(self).cols,
            final(self).rows == old(self).rows,
            final(self).put_limit == old(self).put_limit,
            final(self).skip@ == old(self).skip@,
            stars_upto(final(self).cells(), old(self).cells(), old(self).cols as int, old(self).ch@.len() as int),
            no_newline_cells(old(self).cells()) ==> no_newline_cells(final(self).cells()),
    {
        let cols = self.cols;
        let rows = self.rows;
        let total = self.ch.len();
        let ghost g0 = self.cells();
        let mut r: usize = 0;
        while r < rows
            invariant
                self.wf(),
                self.cols == cols,
                self.rows == rows,
                self.put_limit == old(self).put_limit,
                g0 == old(self).cells(),
                cols * rows == total,
                r <= rows,
                g0.ch.len() == total,
                g0.tone.len() == total,
                self.skip@ == g0.skip,
                stars_upto(self.cells(), g0, cols as int, at(cols as int, r as int, 0)),
            decreases rows - r,
        {
            let mut c: usize = 0;
            while c < cols
                invariant
                    self.wf(),
                    self.cols == cols,
                    self.rows == rows,
                    self.put_limit == old(self).put_limit,
                    cols * rows == total,
                    r < rows,
                    c <= cols,
                    g0.ch.len() == total,
                    g0.tone.len() == total,
                    self.skip@ == g0.skip,
                    stars_upto(self.cells(), g0, cols as int, at(cols as int, r as int, c as int)),
                decreases cols - c,
            {
                proof {
                    lemma_cell_in_grid(cols as int, rows as int, r as int, c as int);
                }
                let i = r * cols + c;
                let ghost prev = self.cells();
                proof {
                    vstd::arithmetic::div_mod::lemma_fundamental_div_mod_converse(i as int, cols as int, r as int, c as int);
                    assert(prev.ch[i as int] == g0.ch[i as int]);
                }
                if self.tone[i] == Tone::Blank {
                    match crate::stars::cell(r, c, cols) {
                        Some((ch, bright)) => {
                            self.ch.set(i, ch);
                            self.tone.set(i, if bright { Tone::StarBright } else { Tone::StarDim });
                        },
                        None => {},
                    }
                }
                proof {
                    let s = starred(g0, cols as int, i as int);
                    assert(self.ch@ =~= prev.ch.update(i as int, s.0));
                    assert(self.tone@ =~= prev.tone.update(i as int, s.1));
                    lemma_star_step(prev, self.cells(), g0, cols as int, i as int);
                }
                c = c + 1;
            }
            assert(at(cols as int, r as int, cols as int) == at(cols as int, r + 1, 0)) by (nonlinear_arith);
            r = r + 1;
        }
        proof {
            assert(at(cols as int, rows as int, 0) == total) by (nonlinear_arith)
                requires
                    cols * rows == total,
            ;
            if no_newline_cells(g0) {
                assert forall|i: int| 0 <= i < self.ch@.len() implies #[trigger] self.ch@[i] != '\n' by {
                    assert(g0.ch[i] != '\n');
                }
            }
        }
    }

    /// The screen as text, one string per row: each run of cells in one
    /// tone is preceded by the tone's sequence (a reset first when a run
    /// follows another), continuation cells of wide characters are left
    /// out, and a row that printed anything ends with a reset.
    pub fn lines(&self, p: &Pal) -> (out: Vec<String>)
        requires
            self.wf(),
            p.wf(),
        ensures
            out@.len() == self.rows,
            forall|r: int| 0 <= r < self.rows ==> #[trigger] out@[r]@ == row_line(
                self.cells(),
                p.mode,
                p.theme,
                self.cols as int,
                r,
            ),
            no_newline_cells(self.cells()) ==> forall|r: int| 0 <= r < self.rows ==> no_nl(
                #[trigger] out@[r]@,
            ),
    {
        let cols = self.cols;
        let rows = self.rows;
        let total = self.ch.len();
        let mut res: Vec<String> = Vec::new();
        let mut r: usize = 0;
        while r < rows
            invariant
                self.wf(),
                p.wf(),
                self.cols == cols,
                self.rows == rows,
                cols * rows == total,
                r <= rows,
                res@.len() == r,
                forall|k: int| 0 <= k < r ==> #[trigger] res@[k]@ == row_line(self.cells(), p.mode, p.theme, cols as int, k),
            decreases rows - r,
        {
            let mut line = String::new();
            let mut cur = Tone::Blank;
            let mut started = false;
            let mut c: usize = 0;
            while c < cols
                invariant
                    self.wf(),
                    p.wf(),
                    self.cols == cols,
                    self.rows == rows,
                    cols * rows == total,
                    r < rows,
                    c <= cols,
                    (RowOut { out: line@, cur, started }) == row_scan(self.cells(), p.mode, p.theme, cols as int, r as int, c as int),
                decreases cols - c,
            {
                proof {
                    lemma_cell_in_grid(cols as int, rows as int, r as int, c as int);
                }
                let i = r * cols + c;
                if !self.skip[i] {
                    let t = self.tone[i];
                    if !started || t != cur {
                        if started {
                            push_str(&mut line, p.reset.as_str());
                        }
                        let seq = p.tone(t);
                        push_str(&mut line, seq.as_str());
                        cur = t;
                        started = true;
                    }
                    crate::text::push_char(&mut line, self.ch[i]);
                }
                c = c + 1;
            }
            if started {
                push_str(&mut line, p.reset.as_str());
            }
            res.push(line);
            r = r + 1;
        }
        proof {
            if no_newline_cells(self.cells()) {
                assert forall|k: int| 0 <= k < rows implies no_nl(#[trigger] res@[k]@) by {
                    lemma_cell_in_grid(cols as int, rows as int, k, cols as int);
                    lemma_row_line_no_nl(self.cells(), p.mode, p.theme, cols as int, k);
                }
            }
        }
        res
    }
}

/// Cell `i` after the starfield: a star where the cell was never written
/// and the starfield has one at its row and column, else unchanged.
pub open spec fn starred(g: Cells, cols: int, i: int) -> (char, Tone) {
    let r = i / cols;
    let c = i % cols;
    if g.tone[i] == Tone::Blank {
        match crate::stars::star_at(r as usize, c as usize, cols as usize) {
            Some((s, bright)) => (s, if bright { Tone::StarBright } else { Tone::StarDim }),
            None => (g.ch[i], g.tone[i]),
        }
    } else {
        (g.ch[i], g.tone[i])
    }
}

/// `h` is `g` with the starfield laid on its first `n` cells.
pub open spec fn stars_upto(h: Cells, g: Cells, cols: int, n: int) -> bool {
    &&& h.ch.len() == g.ch.len()
    &&& h.tone.len() == g.tone.len()
    &&& forall|j: int|
        0 <= j < g.ch.len() ==> #[trigger] h.ch[j] == (if j < n {
            starred(g, cols, j).0
        } else {
            g.ch[j]
        }) && h.tone[j] == (if j < n {
            starred(g, cols, j).1
        } else {
            g.tone[j]
        })
}

proof fn lemma_star_step(prev: Cells, next: Cells, g: Cells, cols: int, i: int)
    requires
        stars_upto(prev, g, cols, i),
        0 <= i < g.ch.len(),
        g.tone.len() == g.ch.len(),
        next.ch == prev.ch.update(i, starred(g, cols, i).0),
        next.tone == prev.tone.update(i, starred(g, cols, i).1),
    ensures
        stars_upto(next, g, cols, i + 1),
{
    assert forall|j: int| 0 <= j < g.ch.len() implies #[trigger] next.ch[j] == (if j < i + 1 {
        starred(g, cols, j).0
    } else {
        g.ch[j]
    }) && next.tone[j] == (if j < i + 1 {
        starred(g, cols, j).1
    } else {
        g.tone[j]
    }) by {
        if j != i {
            assert(next.ch[j] == prev.ch[j]);
            assert(next.tone[j] == prev.tone[j]);
        }
    }
}

/// Printing a row, after its first `c` columns: the text so far, the tone
/// in effect, and whether anything was printed.
pub struct RowOut {
    pub out: Seq<char>,
    pub cur: Tone,
    pub started: bool,
}

pub open spec fn row_scan(g: Cells, mode: ColorMode, t: Theme, cols: int, r: int, c: int) -> RowOut
    decreases c,
{
    if c <= 0 {
        RowOut { out: Seq::empty(), cur: Tone::Blank, started: false }
    } else {
        let st = row_scan(g, mode, t, cols, r, c - 1);
        let i = at(cols, r, c - 1);
        if g.skip[i] {
            st
        } else {
            let tone = g.tone[i];
            let st2 = if !st.started || tone != st.cur {
                RowOut {
                    out: st.out + (if st.started { reset_spec(mode) } else { Seq::empty() })
                        + tone_spec(mode, t, tone),
                    cur: tone,
                    started: true,
                }
            } else {
                st
            };
            RowOut { out: st2.out.push(g.ch[i]), cur: st2.cur, started: st2.started }
        }
    }
}

/// Row `r` as printed.
pub open spec fn row_line(g: Cells, mode: ColorMode, t: Theme, cols: int, r: int) -> Seq<char> {
    let st = row_scan(g, mode, t, cols, r, cols);
    if st.started {
        st.out + reset_spec(mode)
    } else {
        st.out
    }
}

pub proof fn lemma_dec_no_nl(n: nat)
    ensures
        no_nl(dec_of(n)),
    decreases n,
{
    if n >= 10 {
        lemma_dec_no_nl(n / 10);
        let d = dec_of(n / 10);
        assert forall|i: int| 0 <= i < dec_of(n).len() implies #[trigger] dec_of(n)[i] != '\n' by {
            if i < d.len() {
                assert(dec_of(n)[i] == d[i]);
            }
        }
    }
}

/// No escape sequence of the palette holds a line break.
pub proof fn lemma_tone_no_nl(mode: ColorMode, t: Theme, tone: Tone)
    ensures
        no_nl(tone_spec(mode, t, tone)),
{
    reveal_strlit("\u{1b}[38;2;");
    reveal_strlit("\u{1b}[38;5;");
    reveal_strlit("\u{1b}[");
    reveal_strlit(";");
    reveal_strlit("m");
    reveal_strlit("\u{1b}[2m");
    reveal_strlit("\u{1b}[0m");
    let c = match tone {
        Tone::Text => Color::Text,
        Tone::Primary => Color::Primary,
        Tone::Accent => Color::Accent,
        Tone::Success => Color::Success,
        Tone::Error => Color::Error,
        Tone::Warning => Color::Warning,
        Tone::Info => Color::Info,
        Tone::Muted => Color::Muted,
        Tone::Border => Color::Border,
        Tone::BorderActive => Color::BorderActive,
        Tone::StarDim => Color::Rgb(t.star_dim.0, t.star_dim.1, t.star_dim.2),
        Tone::StarBright => Color::Rgb(t.star_bright.0, t.star_bright.1, t.star_bright.2),
        Tone::Rgb(r, g, b) => Color::Rgb(r, g, b),
        _ => Color::Text,
    };
    let (r, g, b) = rgb_spec(c, t);
    lemma_dec_no_nl(r as nat);
    lemma_dec_no_nl(g as nat);
    lemma_dec_no_nl(b as nat);
    lemma_dec_no_nl(rgb256_of(r, g, b) as nat);
    lemma_dec_no_nl(rgb16_of(r, g, b) as nat);
    let a1 = "\u{1b}[38;2;"@ + dec_of(r as nat);
    lemma_no_nl_concat("\u{1b}[38;2;"@, dec_of(r as nat));
    lemma_no_nl_concat(a1, ";"@);
    lemma_no_nl_concat(a1 + ";"@, dec_of(g as nat));
    lemma_no_nl_concat(a1 + ";"@ + dec_of(g as nat), ";"@);
    lemma_no_nl_concat(a1 + ";"@ + dec_of(g as nat) + ";"@, dec_of(b as nat));
    lemma_no_nl_concat(a1 + ";"@ + dec_of(g as nat) + ";"@ + dec_of(b as nat), "m"@);
    lemma_no_nl_concat("\u{1b}[38;5;"@, dec_of(rgb256_of(r, g, b) as nat));
    lemma_no_nl_concat("\u{1b}[38;5;"@ + dec_of(rgb256_of(r, g, b) as nat), "m"@);
    lemma_no_nl_concat("\u{1b}["@, dec_of(rgb16_of(r, g, b) as nat));
    lemma_no_nl_concat("\u{1b}["@ + dec_of(rgb16_of(r, g, b) as nat), "m"@);
    assert(no_nl(Seq::<char>::empty()));
}

proof fn lemma_row_scan_no_nl(g: Cells, mode: ColorMode, t: Theme, cols: int, r: int, c: int)
    requires
        no_newline_cells(g),
        0 <= r * cols,
        c <= cols,
        at(cols, r, cols) <= g.ch.len(),
        g.skip.len() == g.ch.len(),
        g.tone.len() == g.ch.len(),
    ensures
        no_nl(row_scan(g, mode, t, cols, r, c).out),
    decreases c,
{
    if c > 0 {
        lemma_row_scan_no_nl(g, mode, t, cols, r, c - 1);
        let st = row_scan(g, mode, t, cols, r, c - 1);
        let i = at(cols, r, c - 1);
        if !g.skip[i] {
            let tone = g.tone[i];
            lemma_tone_no_nl(mode, t, tone);
            lemma_tone_no_nl(mode, t, Tone::Blank);
            assert(reset_spec(mode) == tone_spec(mode, t, Tone::Blank));
            let pre = if st.started { reset_spec(mode) } else { Seq::empty() };
            assert(no_nl(pre));
            lemma_no_nl_concat(st.out, pre);
            lemma_no_nl_concat(st.out + pre, tone_spec(mode, t, tone));
            let st2 = if !st.started || tone != st.cur {
                st.out + pre + tone_spec(mode, t, tone)
            } else {
                st.out
            };
            assert(g.ch[i] != '\n');
            lemma_no_nl_concat(st2, seq![g.ch[i]]);
            assert(st2.push(g.ch[i]) =~= st2 + seq![g.ch[i]]);
        }
    }
}

/// A printed row holds no line break when no cell does.
pub proof fn lemma_row_line_no_nl(g: Cells, mode: ColorMode, t: Theme, cols: int, r: int)
    requires
        no_newline_cells(g),
        0 <= r * cols,
        0 <= cols,
        at(cols, r, cols) <= g.ch.len(),
        g.skip.len() == g.ch.len(),
        g.tone.len() == g.ch.len(),
    ensures
        no_nl(row_line(g, mode, t, cols, r)),
{
    lemma_row_scan_no_nl(g, mode, t, cols, r, cols);
    lemma_tone_no_nl(mode, t, Tone::Blank);
    assert(reset_spec(mode) == tone_spec(mode, t, Tone::Blank));
    lemma_no_nl_concat(row_scan(g, mode, t, cols, r, cols).out, reset_spec(mode));
}

/// The characters of row `r` a terminal shows, in its first `c` columns
/// (continuation cells of wide characters left out).
pub open spec fn plain_row(g: Cells, cols: int, r: int, c: int) -> Seq<char>
    decreases c,
{
    if c <= 0 {
        Seq::empty()
    } else {
        let i = at(cols, r, c - 1);
        if g.skip[i] {
            plain_row(g, cols, r, c - 1)
        } else {
            plain_row(g, cols, r, c - 1).push(g.ch[i])
        }
    }
}

proof fn lemma_no_color_scan(g: Cells, t: Theme, cols: int, r: int, c: int)
    ensures
        row_scan(g, ColorMode::NoColor, t, cols, r, c).out == plain_row(g, cols, r, c),
    decreases c,
{
    if c > 0 {
        lemma_no_color_scan(g, t, cols, r, c - 1);
        let st = row_scan(g, ColorMode::NoColor, t, cols, r, c - 1);
        let i = at(cols, r, c - 1);
        if !g.skip[i] {
            law_no_color_prints_no_escapes(t, g.tone[i]);
            assert(st.out + Seq::<char>::empty() + Seq::<char>::empty() =~= st.out);
        }
    }
}

/// With colour off, a printed row is exactly the characters on it: no
/// escape sequences, nothing added or lost.
pub proof fn law_no_color_rows_are_plain_text(g: Cells, t: Theme, cols: int, r: int)
    ensures
        row_line(g, ColorMode::NoColor, t, cols, r) == plain_row(g, cols, r, cols),
{
    lemma_no_color_scan(g, t, cols, r, cols);
    assert(plain_row(g, cols, r, cols) + Seq::<char>::empty() =~= plain_row(g, cols, r, cols));
}

/// `h` is `g` with the cells `lo..hi` blanked in `tone`.
pub open spec fn blank_span(h: Cells, g: Cells, lo: int, hi: int, tone: Tone) -> bool {
    &&& h.ch.len() == g.ch.len()
    &&& h.tone.len() == g.tone.len()
    &&& h.skip.len() == g.skip.len()
    &&& forall|j: int|
        0 <= j < g.ch.len() ==> #[trigger] h.ch[j] == (if lo <= j < hi { ' ' } else { g.ch[j] })
            && h.tone[j] == (if lo <= j < hi { tone } else { g.tone[j] }) && h.skip[j] == (if lo <= j
            < hi { false } else { g.skip[j] })
}

/// The pieces' texts by their views.
pub open spec fn seg_views(segs: Seq<(String, Tone)>) -> Seq<(Seq<char>, Tone)> {
    segs.map_values(|p: (String, Tone)| (p.0@, p.1))
}

/// Total display width of styled pieces.
pub open spec fn styled_width(segs: Seq<(Seq<char>, Tone)>) -> nat
    decreases segs.len(),
{
    if segs.len() == 0 {
        0
    } else {
        styled_width(segs.drop_last()) + crate::width::seq_width(segs.last().0)
    }
}

/// The column that centres `total` columns in `cols` (0 when it does not fit).
pub open spec fn centre_col(cols: int, total: nat) -> int {
    if cols > total {
        (cols - total) / 2
    } else {
        0
    }
}

/// Writing styled pieces one after another from column `c`.
pub open spec fn put_segs(g: Cells, cols: int, cap: int, row: int, c: int, segs: Seq<(Seq<char>, Tone)>) -> (Cells, int)
    decreases segs.len(),
{
    if segs.len() == 0 {
        (g, c)
    } else {
        let (g2, c2) = put_run(g, cols, cap, row, c, segs[0].0, segs[0].1);
        put_segs(g2, cols, cap, row, c2, segs.drop_first())
    }
}

// ── gradients ────────────────────────────────────────────────────────

/// The channel value `i/n` of the way from `a` to `b`, rounded to the
/// nearest integer (halves up): `⌊a + (b − a)·i/n + ½⌋`.
pub open spec fn gradient_spec(a: u8, b: u8, i: int, n: int) -> int {
    (2 * (a * n) + 2 * ((b - a) * i) + n) / (2 * n)
}

/// One step of a colour gradient: `i` of `n` steps from `a` to `b`.
pub fn gradient_step(a: u8, b: u8, i: u32, n: u32) -> (c: u8)
    requires
        0 < n <= 1000,
        i <= n,
    ensures
        c == gradient_spec(a, b, i as int, n as int),
{
    let a64 = a as i64;
    let n64 = n as i64;
    let i64v = i as i64;
    let d: i64 = (b as i64) - a64;
    assert(0 <= a64 * n64 <= 255 * 1000) by (nonlinear_arith)
        requires
            0 <= a64 <= 255,
            0 < n64 <= 1000,
    ;
    assert(-255 * 1000 <= d * i64v <= 255 * 1000) by (nonlinear_arith)
        requires
            -255 <= d <= 255,
            0 <= i64v <= 1000,
    ;
    let num: i64 = 2 * (a64 * n64) + 2 * (d * i64v) + n64;
    let den: i64 = 2 * n64;
    proof {
        let ai = a as int;
        let bi = b as int;
        let ii = i as int;
        let ni = n as int;
        assert(0 <= 2 * (ai * ni) + 2 * ((bi - ai) * ii) + ni <= 512 * ni) by (nonlinear_arith)
            requires
                0 <= ai <= 255,
                0 <= bi <= 255,
                0 <= ii <= ni,
                0 < ni,
        ;
        assert((2 * (ai * ni) + 2 * ((bi - ai) * ii) + ni) / (2 * ni) <= 255) by (nonlinear_arith)
            requires
                0 <= 2 * (ai * ni) + 2 * ((bi - ai) * ii) + ni,
                0 <= ai <= 255,
                0 <= bi <= 255,
                0 <= ii <= ni,
                0 < ni,
        ;
    }
    (num / den) as u8
}

} // verus!
