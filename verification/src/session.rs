//! The terminal session's decisions: what each key does to the input,
//! the popup, the transcript view, the history and the status line, and
//! what is left for the main loop to do (hand a request to the kernel,
//! clear the transcript, open an editor, persist the theme, quit).
//!
//! The loop itself (reading keys, drawing frames, talking to the kernel,
//! listing files) lives with the caller; it hands each key to
//! [`Session::step`] together with a [`Frame`] describing the screen, and
//! performs the returned [`Outcome`].
use vstd::prelude::*;
use crate::editor::{Editor, EditorModel};
use crate::input::{History, HistoryModel, ranked, fuzzy_rank};
use crate::view::{TranscriptView, ViewModel, SearchModel, sat_sub};
use crate::popup::{
    Kind, Item, ItemAction, ItemActionModel, ItemModel, Popup, items_view, slash_of, palette_of,
    theme_items_of, background_items_of, logo_items_of, file_choice, file_item, strings_view,
    slash_items, palette_items, theme_items, background_items, logo_items, file_items,
};
use crate::tui::{
    Key, Effect, About, Regions, MouseAction, apply_popup_item, run_model, completed_of,
    popup_context_of, at_query_of, approval_of, chrome_rows_of, hit_of, hit_test, opt_view,
    self_popup_context, at_query, complete_at_token, parse_approval_answer, chrome_rows,
    idle_or_approval,
};
use crate::theme::ThemeName;
use crate::commands::{Action, status_text_of, status_text, resolve, table, first_answering,
    command_key, CommandModel};
use crate::framing::{dec_of, push_dec};
use crate::text::{sub_chars, trim, owned, push_str, push_char, chars_of, string_of, trim_str, str_eq,
    trim_end, trim_end_chars, next_word, next_word_exec};

verus! {

/// Transcript lengths and scroll offsets stay below this (a machine
/// limit: scrolling adds page sizes to the offset).
pub const MAX_LINES: usize = 0x3FFF_FFFF;

// ── what the loop is asked to do ─────────────────────────────────────

/// A request for the kernel.
#[derive(Debug, Clone, PartialEq, Eq)]
pub enum Request {
    /// Answer the outstanding approval.
    Approve { id: String, allow: bool },
    /// Run a shell command (`!cmd`).
    Shell(String),
    /// A new task for the agent.
    Turn(String),
}

pub enum RequestModel {
    Approve { id: Seq<char>, allow: bool },
    Shell(Seq<char>),
    Turn(Seq<char>),
}

impl View for Request {
    type V = RequestModel;

    open spec fn view(&self) -> RequestModel {
        match self {
            Request::Approve { id, allow } => RequestModel::Approve { id: id@, allow: *allow },
            Request::Shell(c) => RequestModel::Shell(c@),
            Request::Turn(t) => RequestModel::Turn(t@),
        }
    }
}

/// What the main loop does after a key.
#[derive(Debug, Clone, PartialEq, Eq)]
pub enum Outcome {
    /// Draw the next frame.
    Redraw,
    Quit,
    /// Forget the transcript (the session itself is already updated).
    ClearTranscript,
    /// Clear the terminal.
    ClearScreen,
    /// Persist the theme choice.
    SaveTheme(ThemeName),
    /// Open the external editor on this text, then call
    /// [`Session::external_edit_done`].
    EditExternally(String),
    /// Draw a frame with `working` as the status (when there is one), hand
    /// `request` to the kernel, then call [`Session::finish_request`].
    Submit { request: Request, working: Option<String> },
    /// An action whose work belongs to the loop (viewers, toggles,
    /// appearance).
    Dispatch(Action),
}

pub enum OutcomeModel {
    Redraw,
    Quit,
    ClearTranscript,
    ClearScreen,
    SaveTheme(ThemeName),
    EditExternally(Seq<char>),
    Submit { request: RequestModel, working: Option<Seq<char>> },
    Dispatch(Action),
}

impl View for Outcome {
    type V = OutcomeModel;

    open spec fn view(&self) -> OutcomeModel {
        match self {
            Outcome::Redraw => OutcomeModel::Redraw,
            Outcome::Quit => OutcomeModel::Quit,
            Outcome::ClearTranscript => OutcomeModel::ClearTranscript,
            Outcome::ClearScreen => OutcomeModel::ClearScreen,
            Outcome::SaveTheme(t) => OutcomeModel::SaveTheme(*t),
            Outcome::EditExternally(s) => OutcomeModel::EditExternally(s@),
            Outcome::Submit { request, working } => OutcomeModel::Submit {
                request: request@,
                working: opt_view(*working),
            },
            Outcome::Dispatch(a) => OutcomeModel::Dispatch(*a),
        }
    }
}

// ── the screen the key arrived on ────────────────────────────────────

/// What the loop knows about the current screen.
pub struct Frame {
    pub cols: usize,
    pub rows: usize,
    /// Transcript lines at the full width.
    pub total: usize,
    /// Transcript lines at the body width (beside the sidebar).
    pub body_total: usize,
    /// The transcript as plain lines at the full width (for search).
    pub lines: Vec<String>,
    /// Where the last frame drew things.
    pub regions: Regions,
}

pub struct FrameModel {
    pub cols: int,
    pub rows: int,
    pub total: int,
    pub body_total: int,
    pub lines: Seq<Seq<char>>,
    pub regions: Regions,
}

impl View for Frame {
    type V = FrameModel;

    open spec fn view(&self) -> FrameModel {
        FrameModel {
            cols: self.cols as int,
            rows: self.rows as int,
            total: self.total as int,
            body_total: self.body_total as int,
            lines: strings_view(self.lines@),
            regions: self.regions,
        }
    }
}

// ── the session ──────────────────────────────────────────────────────

/// Everything the terminal host remembers between keys.
pub struct Session {
    pub input: Editor,
    pub status: String,
    pub history: History,
    /// Up/Down are walking the history (typing leaves this mode).
    pub browsing: bool,
    /// File candidates, listed the first time they are needed.
    pub files: Option<Vec<String>>,
    /// Set when the files were listed for this very key: whether the
    /// listing hit its limit.
    pub fresh_listing: Option<bool>,
    /// The approval the kernel is waiting for.
    pub outstanding: Option<String>,
    pub popup: Option<Popup>,
    /// A read-only screen (`/help`, `/keys`, status), until any key.
    pub info: Option<String>,
    pub sidebar_open: bool,
    pub view: TranscriptView,
    /// Typing a search query.
    pub searching: bool,
    pub theme: ThemeName,
}

pub struct PopupModel {
    pub kind: Kind,
    pub query: Seq<char>,
    pub items: Seq<ItemModel>,
    pub selected: int,
    pub truncated: bool,
}

pub open spec fn popup_view(p: Popup) -> PopupModel {
    PopupModel {
        kind: p.kind,
        query: p.query@,
        items: items_view(p.items@),
        selected: p.selected as int,
        truncated: p.truncated,
    }
}

pub struct SessionModel {
    pub input: EditorModel,
    pub status: Seq<char>,
    pub history: HistoryModel,
    pub browsing: bool,
    pub files: Option<Seq<Seq<char>>>,
    pub fresh_listing: Option<bool>,
    pub outstanding: Option<Seq<char>>,
    pub popup: Option<PopupModel>,
    pub info: Option<Seq<char>>,
    pub sidebar_open: bool,
    pub view: ViewModel,
    pub searching: bool,
    pub theme: ThemeName,
}

impl View for Session {
    type V = SessionModel;

    open spec fn view(&self) -> SessionModel {
        SessionModel {
            input: self.input@,
            status: self.status@,
            history: self.history@,
            browsing: self.browsing,
            files: match self.files {
                Some(f) => Some(strings_view(f@)),
                None => None,
            },
            fresh_listing: self.fresh_listing,
            outstanding: opt_view(self.outstanding),
            popup: match self.popup {
                Some(p) => Some(popup_view(p)),
                None => None,
            },
            info: opt_view(self.info),
            sidebar_open: self.sidebar_open,
            view: self.view@,
            searching: self.searching,
            theme: self.theme,
        }
    }
}

impl SessionModel {
    pub open spec fn wf(self) -> bool {
        &&& self.input.wf()
        &&& self.history.wf()
        &&& self.view.wf()
        &&& self.view.offset <= MAX_LINES
    }
}

impl Session {
    pub open spec fn wf(&self) -> bool {
        &&& self@.wf()
        &&& self.input.wf()
        &&& self.history.wf()
        &&& self.view.wf()
    }
}

// ── files ────────────────────────────────────────────────────────────

/// The popup (if any) that the text after an edit calls for.
pub open spec fn context_needs_files(text: Seq<char>) -> bool {
    popup_context_of(text) matches Some((k, _)) && k == Kind::File
}

/// Whether the key will read the file candidates.
pub open spec fn needs_files_spec(s: SessionModel, k: Key) -> bool {
    if s.info is Some {
        false
    } else if s.popup is Some {
        match k {
            Key::Backspace => context_needs_files(s.input.backspace().text()),
            Key::Char(c) => context_needs_files(s.input.insert_char(c).text()),
            _ => false,
        }
    } else {
        match k {
            Key::Char(c) => !s.searching && (c == '@' || c == '/') && context_needs_files(
                s.input.insert_char(c).text(),
            ),
            Key::Tab => at_query_of(s.input.text()) is Some,
            _ => false,
        }
    }
}

// ── popups ───────────────────────────────────────────────────────────

pub open spec fn files_or_none(f: Option<Seq<Seq<char>>>) -> Seq<Seq<char>> {
    match f {
        Some(v) => v,
        None => Seq::empty(),
    }
}

/// The candidates of a kind for a query (`limit` bounds the file list).
pub open spec fn items_for(kind: Kind, q: Seq<char>, files: Seq<Seq<char>>, limit: int) -> (
    Seq<ItemModel>,
    bool,
) {
    match kind {
        Kind::File => (
            file_choice(q, files, limit).map_values(|f: Seq<char>| file_item(f)),
            files.len() > limit,
        ),
        Kind::Slash => (slash_of(q), false),
        Kind::Palette => (palette_of(q), false),
        Kind::Theme => (theme_items_of(q), false),
        Kind::Background => (background_items_of(q), false),
        Kind::Logo => (logo_items_of(q), false),
    }
}

/// The popup with a new query and the candidates of `kind` for it.
pub open spec fn refreshed(p: PopupModel, kind: Kind, q: Seq<char>, files: Seq<Seq<char>>) -> PopupModel {
    let (items, truncated) = items_for(kind, q, files, p.kind.rows_of() as int);
    PopupModel { kind: p.kind, query: q, items, selected: 0, truncated }
}

pub open spec fn fresh_popup(kind: Kind, q: Seq<char>, files: Seq<Seq<char>>) -> PopupModel {
    refreshed(
        PopupModel { kind, query: q, items: Seq::empty(), selected: 0, truncated: false },
        kind,
        q,
        files,
    )
}

fn refresh_popup(p: &mut Popup, kind: Kind, files: &Option<Vec<String>>)
    requires
        kind == Kind::File ==> files is Some,
    ensures
        popup_view(*final(p)) == refreshed(
            popup_view(*old(p)),
            kind,
            old(p).query@,
            files_or_none(match files { Some(f) => Some(strings_view(f@)), None => None }),
        ),
{
    let ghost fv = files_or_none(match files { Some(f) => Some(strings_view(f@)), None => None });
    let q = owned(p.query.as_str());
    match kind {
        Kind::File => {
            let limit = p.kind.max_rows();
            match files {
                Some(all) => {
                    let (items, truncated) = file_items(q.as_str(), all.as_slice(), limit);
                    p.set_items(items, truncated);
                },
                None => {},
            }
        },
        Kind::Slash => {
            let items = slash_items(q.as_str());
            p.set_items(items, false);
        },
        Kind::Palette => {
            let items = palette_items(q.as_str());
            p.set_items(items, false);
        },
        Kind::Theme => {
            let items = theme_items(q.as_str());
            p.set_items(items, false);
        },
        Kind::Background => {
            let items = background_items(q.as_str());
            p.set_items(items, false);
        },
        Kind::Logo => {
            let items = logo_items(q.as_str());
            p.set_items(items, false);
        },
    }
}

/// The theme picker as `/theme` opens it.
pub open spec fn theme_picker() -> PopupModel {
    PopupModel { kind: Kind::Theme, query: ""@, items: theme_items_of(""@), selected: 0, truncated: false }
}

fn open_theme_picker() -> (p: Popup)
    ensures
        popup_view(p) == theme_picker(),
        p.selected == 0,
{
    let mut p = Popup::new(Kind::Theme, "");
    let items = theme_items("");
    p.set_items(items, false);
    p
}

// ── choosing an item ─────────────────────────────────────────────────

pub struct Applied {
    pub input: EditorModel,
    pub status: Seq<char>,
    pub theme: ThemeName,
    pub info: Option<Seq<char>>,
    pub effect: Effect,
}

/// What choosing an item does to the input, status, theme and info
/// screen, and what is left to do.
pub open spec fn applied(a: ItemActionModel, s: SessionModel) -> Applied {
    match a {
        ItemActionModel::Insert(t) => Applied {
            input: s.input.set(completed_of(s.input.text(), t)),
            status: "已引用 "@ + t,
            theme: s.theme,
            info: s.info,
            effect: Effect::Nothing,
        },
        ItemActionModel::SetTheme(t) => Applied {
            input: s.input.clear(),
            status: "主题："@ + t.name(),
            theme: t,
            info: s.info,
            effect: Effect::Nothing,
        },
        ItemActionModel::SetBackground(b) => Applied {
            input: s.input.clear(),
            status: s.status,
            theme: s.theme,
            info: s.info,
            effect: Effect::Dispatch(Action::SetBackground(b)),
        },
        ItemActionModel::SetLogo(l) => Applied {
            input: s.input.clear(),
            status: s.status,
            theme: s.theme,
            info: s.info,
            effect: Effect::Dispatch(Action::SetLogo(l)),
        },
        ItemActionModel::Run(a) => {
            let m = run_model(a, s.theme, s.status, s.info);
            Applied { input: s.input.clear(), status: m.status, theme: m.theme, info: m.info, effect: m.effect }
        },
    }
}

/// Whether choosing the item sets the theme (which is then persisted).
pub open spec fn sets_theme(a: ItemActionModel) -> bool {
    match a {
        ItemActionModel::SetTheme(_) => true,
        ItemActionModel::Run(Action::NextTheme) => true,
        ItemActionModel::Run(Action::SetTheme(_)) => true,
        _ => false,
    }
}

/// The session after an item with this action was chosen (the popup
/// already closed).
pub open spec fn chosen(s: SessionModel, a: ItemActionModel, about: About) -> (SessionModel, OutcomeModel) {
    let ap = applied(a, s);
    let t = SessionModel { input: ap.input, status: ap.status, theme: ap.theme, info: ap.info, ..s };
    match ap.effect {
        Effect::Quit => (t, OutcomeModel::Quit),
        Effect::ClearTranscript => (
            SessionModel { status: "新对话（已清空转录；文件改动不受影响）"@, ..t },
            OutcomeModel::ClearTranscript,
        ),
        Effect::OpenThemePicker => (
            SessionModel { popup: Some(theme_picker()), status: "主题 · ↑↓ 选择，回车应用"@, ..t },
            OutcomeModel::Redraw,
        ),
        Effect::ShowStatus => (
            SessionModel { info: Some(status_text_of(about, t.theme.name())), ..t },
            OutcomeModel::Redraw,
        ),
        Effect::Dispatch(a) => (t, OutcomeModel::Dispatch(a)),
        Effect::Nothing => (
            t,
            if sets_theme(a) {
                OutcomeModel::SaveTheme(t.theme)
            } else {
                OutcomeModel::Redraw
            },
        ),
    }
}

// ── keys while a popup is open ───────────────────────────────────────

/// After an edit with a popup open: the popup follows the `@` / `/`
/// context of the new text, or closes when there is none.
pub open spec fn popup_follows(s: SessionModel, ed: EditorModel) -> SessionModel {
    match popup_context_of(ed.text()) {
        Some((kind, q)) => SessionModel {
            input: ed,
            popup: Some(refreshed(s.popup->0, kind, q, files_or_none(s.files))),
            ..s
        },
        None => SessionModel { input: ed, popup: None, ..s },
    }
}

pub open spec fn popup_key(s: SessionModel, k: Key, about: About) -> (SessionModel, OutcomeModel) {
    let p = s.popup->0;
    match k {
        Key::Quit => (s, OutcomeModel::Quit),
        Key::Escape => (SessionModel { popup: None, status: "已取消"@, ..s }, OutcomeModel::Redraw),
        Key::Up => (
            SessionModel {
                popup: Some(PopupModel { selected: moved(p, -1), ..p }),
                ..s
            },
            OutcomeModel::Redraw,
        ),
        Key::Down => (
            SessionModel {
                popup: Some(PopupModel { selected: moved(p, 1), ..p }),
                ..s
            },
            OutcomeModel::Redraw,
        ),
        Key::Backspace => (popup_follows(s, s.input.backspace()), OutcomeModel::Redraw),
        Key::Char(c) => (popup_follows(s, s.input.insert_char(c)), OutcomeModel::Redraw),
        Key::Enter => {
            let closed = SessionModel { popup: None, ..s };
            if 0 <= p.selected < p.items.len() {
                chosen(closed, p.items[p.selected].action, about)
            } else {
                (closed, OutcomeModel::Redraw)
            }
        },
        _ => (s, OutcomeModel::Redraw),
    }
}

/// The selection moved by `delta`, clamped to the list.
pub open spec fn moved(p: PopupModel, delta: int) -> int {
    if p.items.len() == 0 {
        p.selected
    } else {
        crate::popup::clamp(p.selected + delta, 0, p.items.len() - 1)
    }
}


// ── the session's operations ─────────────────────────────────────────

pub open spec fn started(theme: ThemeName) -> SessionModel {
    SessionModel {
        input: EditorModel::fresh(),
        status: "就绪"@,
        history: HistoryModel { entries: Seq::empty(), cursor: None, max: 200 },
        browsing: false,
        files: None,
        fresh_listing: None,
        outstanding: None,
        popup: None,
        info: None,
        sidebar_open: true,
        view: ViewModel::fresh(),
        searching: false,
        theme,
    }
}

fn item_sets_theme(a: &ItemAction) -> (r: bool)
    ensures
        r == sets_theme(a@),
{
    match a {
        ItemAction::SetTheme(_) => true,
        ItemAction::Run(Action::NextTheme) => true,
        ItemAction::Run(Action::SetTheme(_)) => true,
        _ => false,
    }
}

impl Session {
    /// A new session: empty input, ready, sidebar open, following the
    /// bottom of the transcript.
    pub fn new(theme: ThemeName) -> (s: Session)
        ensures
            s.wf(),
            s@ == started(theme),
    {
        let s = Session {
            input: Editor::new(),
            status: idle_or_approval(&None),
            history: History::default(),
            browsing: false,
            files: None,
            fresh_listing: None,
            outstanding: None,
            popup: None,
            info: None,
            sidebar_open: true,
            view: TranscriptView::new(),
            searching: false,
            theme,
        };
        s
    }

    /// Whether `step` will read the file candidates for this key; the
    /// loop lists them first (once) with [`Session::set_files`].
    pub fn needs_files(&self, k: Key) -> (r: bool)
        requires
            self.wf(),
        ensures
            r == needs_files_spec(self@, k),
    {
        if self.info.is_some() {
            return false;
        }
        if self.popup.is_some() {
            match k {
                Key::Backspace => {
                    let mut e = self.input.duplicate();
                    e.backspace();
                    Self::wants_files(&e)
                },
                Key::Char(c) => {
                    let mut e = self.input.duplicate();
                    e.insert_char(c);
                    Self::wants_files(&e)
                },
                _ => false,
            }
        } else {
            match k {
                Key::Char(c) => {
                    if self.searching || !(c == '@' || c == '/') {
                        return false;
                    }
                    let mut e = self.input.duplicate();
                    e.insert_char(c);
                    Self::wants_files(&e)
                },
                Key::Tab => {
                    let t = self.input.text();
                    at_query(t.as_str()).is_some()
                },
                _ => false,
            }
        }
    }

    fn wants_files(e: &Editor) -> (r: bool)
        ensures
            r == context_needs_files(e@.text()),
    {
        let t = e.text();
        match self_popup_context(t.as_str()) {
            Some((k, _)) => k == Kind::File,
            None => false,
        }
    }

    /// Record the listed file candidates (and whether the listing hit its
    /// limit) for the key about to be handled.
    pub fn set_files(&mut self, files: Vec<String>, truncated: bool)
        requires
            old(self).wf(),
        ensures
            final(self).wf(),
            final(self)@ == (SessionModel {
                files: Some(strings_view(files@)),
                fresh_listing: Some(truncated),
                ..old(self)@
            }),
    {
        self.files = Some(files);
        self.fresh_listing = Some(truncated);
    }

    /// Apply a chosen item (the popup is already closed).
    fn take_item(&mut self, item: &Item, about: &About) -> (o: Outcome)
        requires
            old(self).wf(),
        ensures
            final(self).wf(),
            (final(self)@, o@) == chosen(old(self)@, item@.action, *about),
    {
        let eff = apply_popup_item(item, &mut self.input, &mut self.status, &mut self.theme, &mut self.info);
        match eff {
            Effect::Quit => Outcome::Quit,
            Effect::ClearTranscript => {
                self.status = owned("新对话（已清空转录；文件改动不受影响）");
                Outcome::ClearTranscript
            },
            Effect::OpenThemePicker => {
                self.popup = Some(open_theme_picker());
                self.status = owned("主题 · ↑↓ 选择，回车应用");
                Outcome::Redraw
            },
            Effect::ShowStatus => {
                self.info = Some(status_text(about, self.theme.as_str()));
                Outcome::Redraw
            },
            Effect::Dispatch(a) => Outcome::Dispatch(a),
            Effect::Nothing => {
                if item_sets_theme(&item.action) {
                    Outcome::SaveTheme(self.theme)
                } else {
                    Outcome::Redraw
                }
            },
        }
    }

    /// The popup follows the text after an edit.
    fn follow_context(&mut self)
        requires
            old(self).wf(),
            old(self).popup is Some,
            context_needs_files(old(self)@.input.text()) ==> old(self).files is Some,
        ensures
            final(self).wf(),
            final(self)@ == popup_follows(
                SessionModel { input: old(self)@.input, ..old(self)@ },
                old(self)@.input,
            ),
    {
        let t = self.input.text();
        match self_popup_context(t.as_str()) {
            Some((kind, q)) => {
                let mut p = self.popup.take().unwrap();
                p.query = q;
                refresh_popup(&mut p, kind, &self.files);
                self.popup = Some(p);
            },
            None => {
                self.popup = None;
            },
        }
    }

    fn popup_step(&mut self, k: Key, about: &About) -> (o: Outcome)
        requires
            old(self).wf(),
            old(self).info is None,
            old(self).popup is Some,
            needs_files_spec(old(self)@, k) ==> old(self).files is Some,
        ensures
            final(self).wf(),
            (final(self)@, o@) == popup_key(old(self)@, k, *about),
    {
        match k {
            Key::Quit => Outcome::Quit,
            Key::Escape => {
                self.popup = None;
                self.status = owned("已取消");
                Outcome::Redraw
            },
            Key::Up => {
                // one step up, clamped (in unsigned arithmetic)
                let mut p = self.popup.take().unwrap();
                let i = if p.selected > 0 { p.selected - 1 } else { 0 };
                p.select(i);
                self.popup = Some(p);
                Outcome::Redraw
            },
            Key::Down => {
                let mut p = self.popup.take().unwrap();
                let n = p.items.len();
                let i = if p.selected < usize::MAX { p.selected + 1 } else { p.selected };
                assert(n <= usize::MAX);
                p.select(i);
                self.popup = Some(p);
                Outcome::Redraw
            },
            Key::Backspace => {
                self.input.backspace();
                self.follow_context();
                Outcome::Redraw
            },
            Key::Char(c) => {
                self.input.insert_char(c);
                self.follow_context();
                Outcome::Redraw
            },
            Key::Enter => {
                let p = self.popup.take().unwrap();
                if p.selected < p.items.len() {
                    let item = &p.items[p.selected];
                    self.take_item(item, about)
                } else {
                    Outcome::Redraw
                }
            },
            _ => Outcome::Redraw,
        }
    }
}

// ── keys on the main screen ──────────────────────────────────────────

pub const SEARCH_PROMPT: &'static str = "搜索：输入关键词，回车确认，esc 取消";
pub const LISTING_CUT: &'static str = "（候选已达上限，列表可能不完整）";

/// Rows of the transcript area above the input.
pub open spec fn body_rows(s: SessionModel, f: FrameModel) -> int {
    sat_sub(f.rows, chrome_rows_of(s.input.lines.len() as int))
}

/// Half a page (at least one line).
pub open spec fn half_page(s: SessionModel, f: FrameModel) -> int {
    let h = body_rows(s, f) / 2;
    if h < 1 {
        1
    } else {
        h
    }
}

pub open spec fn sidebar_status(open: bool) -> Seq<char> {
    if open {
        "侧栏已展开"@
    } else {
        "侧栏已收起"@
    }
}

pub open spec fn hit_count(v: ViewModel) -> nat {
    match v.search {
        Some(x) => x.hits.len(),
        None => 0,
    }
}

/// The status while deleting from a query.
pub open spec fn search_count_status(q: Seq<char>, n: nat) -> Seq<char> {
    "搜索「"@ + q + "」："@ + dec_of(n) + " 处匹配"@
}

/// The status while typing a query.
pub open spec fn search_typing_status(q: Seq<char>, n: nat) -> Seq<char> {
    if trim(q).len() == 0 {
        SEARCH_PROMPT@
    } else if n == 0 {
        "搜索「"@ + q + "」：无匹配"@
    } else {
        "搜索「"@ + q + "」："@ + dec_of(n) + " 处匹配（回车确认 · ctrl+n/ctrl+p 切换）"@
    }
}

pub open spec fn mouse_key(s: SessionModel, ev: crate::mouse::MouseEvent, f: FrameModel) -> SessionModel {
    match hit_of(f.regions, ev, false) {
        Some(MouseAction::ScrollTranscript(up)) => SessionModel {
            view: if up {
                s.view.scroll_up(3, f.body_total, body_rows(s, f))
            } else {
                s.view.scroll_down(3)
            },
            ..s
        },
        Some(MouseAction::ToggleSidebar) => SessionModel {
            sidebar_open: !s.sidebar_open,
            status: sidebar_status(!s.sidebar_open),
            ..s
        },
        _ => s,
    }
}

/// Opening a popup for the `@` / `/` just typed, with a status that
/// counts the candidates (or says there are none).
pub open spec fn opened_for(s: SessionModel, text: Seq<char>) -> SessionModel {
    match popup_context_of(text) {
        None => SessionModel { popup: None, ..s },
        Some((kind, q)) => {
            let p = fresh_popup(kind, q, files_or_none(s.files));
            SessionModel {
                popup: Some(p),
                status: if p.items.len() == 0 {
                    match kind {
                        Kind::File => "没有匹配的文件"@,
                        Kind::Slash => "没有匹配的命令"@,
                        _ => ""@,
                    }
                } else {
                    kind.title_of() + " · "@ + dec_of(p.items.len()) + " 项"@
                },
                ..s
            }
        },
    }
}

pub open spec fn typed(s: SessionModel, c: char) -> SessionModel {
    let ed = s.input.insert_char(c);
    let t = SessionModel {
        input: ed,
        browsing: false,
        history: HistoryModel { cursor: None, ..s.history },
        ..s
    };
    if c == '@' || c == '/' {
        opened_for(t, ed.text())
    } else {
        t
    }
}

pub open spec fn search_typed(s: SessionModel, c: char, f: FrameModel) -> SessionModel {
    let ed = s.input.insert_char(c);
    let v = s.view.set_search(f.lines, ed.text());
    SessionModel { input: ed, view: v, status: search_typing_status(ed.text(), hit_count(v)), ..s }
}

pub open spec fn backspaced(s: SessionModel, f: FrameModel) -> SessionModel {
    let ed = s.input.backspace();
    let t = SessionModel { input: ed, browsing: false, ..s };
    if s.searching {
        let v = s.view.set_search(f.lines, ed.text());
        SessionModel { view: v, status: search_count_status(ed.text(), hit_count(v)), ..t }
    } else {
        t
    }
}

/// Up: move within a multi-line input; on its first line, recall the
/// previous history entry.
pub open spec fn up_key(s: SessionModel) -> SessionModel {
    if s.input.row > 0 {
        SessionModel { input: s.input.move_up(), ..s }
    } else if s.history.entries.len() > 0 {
        SessionModel {
            input: s.input.set(s.history.entries[s.history.prev_index()]),
            history: s.history.prev(),
            browsing: true,
            ..s
        }
    } else {
        s
    }
}

/// Down: move within a multi-line input; on its last line while walking
/// the history, the next entry (past the newest: an empty input).
pub open spec fn down_key(s: SessionModel) -> SessionModel {
    if s.input.row + 1 < s.input.lines.len() {
        SessionModel { input: s.input.move_down(), ..s }
    } else if s.browsing {
        let h = s.history.next_entry();
        match h.cursor {
            Some(i) => SessionModel { input: s.input.set(s.history.entries[i]), history: h, ..s },
            None => SessionModel { input: s.input.clear(), history: h, browsing: false, ..s },
        }
    } else {
        s
    }
}

/// Ctrl+R: the newest entry containing the input; pressing again on a
/// match steps further back.
pub open spec fn history_searched(s: SessionModel) -> SessionModel {
    let needle = s.input.text();
    match s.history.search(needle) {
        Some(found) => SessionModel {
            input: s.input.set(found),
            history: if found == needle && needle.len() > 0 {
                s.history.prev()
            } else {
                s.history
            },
            status: "历史搜索："@ + needle,
            browsing: true,
            ..s
        },
        None => SessionModel { status: "历史中未找到："@ + needle, browsing: true, ..s },
    }
}

/// Tab: complete the `@` reference with the best-ranked file.
pub open spec fn tabbed(s: SessionModel) -> SessionModel {
    let cur = s.input.text();
    match at_query_of(cur) {
        None => s,
        Some(q) => {
            let before = match s.fresh_listing {
                Some(cut) => if cut {
                    LISTING_CUT@
                } else {
                    ""@
                },
                None => s.status,
            };
            let best = ranked(q, files_or_none(s.files), 1);
            if best.len() > 0 {
                SessionModel {
                    input: s.input.set(completed_of(cur, best[0])),
                    status: "补全："@ + best[0] + before,
                    ..s
                }
            } else {
                SessionModel { status: "无匹配文件："@ + q, ..s }
            }
        },
    }
}

/// Enter while typing a query: leave search mode and jump to the last hit.
pub open spec fn search_entered(s: SessionModel, f: FrameModel) -> SessionModel {
    let n = hit_count(s.view);
    let q = match s.view.search {
        Some(x) => x.query,
        None => ""@,
    };
    let t = SessionModel { searching: false, input: s.input.clear(), ..s };
    if n == 0 {
        SessionModel { status: "搜索「"@ + q + "」无匹配"@, ..t }
    } else {
        SessionModel {
            view: s.view.search_step(false, f.total, sat_sub(f.rows, chrome_rows_of(1))),
            status: "搜索「"@ + q + "」："@ + dec_of(n) + " 处（ctrl+n 下一个 / ctrl+p 上一个）"@,
            ..t
        }
    }
}

/// Enter: answer an outstanding approval (`y` / `n`), run a `/command`,
/// run a `!shell` command, or submit the line as a task.
pub open spec fn entered(s: SessionModel, about: About) -> (SessionModel, OutcomeModel) {
    let line = s.input.text();
    let t = SessionModel { input: s.input.clear(), ..s };
    match s.outstanding {
        Some(id) => match approval_of(line) {
            None => (SessionModel { status: "请回答 y 或 n"@, ..t }, OutcomeModel::Redraw),
            Some(allow) => (
                SessionModel { outstanding: None, ..t },
                OutcomeModel::Submit { request: RequestModel::Approve { id, allow }, working: None },
            ),
        },
        None => {
            let tr = trim(line);
            if tr.len() > 0 && tr[0] == '/' {
                let name = match next_word(tr.drop_first()) {
                    Some((w, _)) => w,
                    None => ""@,
                };
                match first_answering(table(), command_key(name), table().len() as int) {
                    Some(i) => chosen(t, ItemActionModel::Run(table()[i].action), about),
                    None => (
                        SessionModel { status: "未知命令：/"@ + name + "（输入 / 查看列表）"@, ..t },
                        OutcomeModel::Redraw,
                    ),
                }
            } else if tr.len() > 0 && tr[0] == '!' {
                let cmd = trim(tr.drop_first());
                if cmd.len() == 0 {
                    (t, OutcomeModel::Redraw)
                } else {
                    (
                        SessionModel { history: s.history.push(line), ..t },
                        OutcomeModel::Submit {
                            request: RequestModel::Shell(cmd),
                            working: Some("执行："@ + cmd),
                        },
                    )
                }
            } else if tr.len() == 0 {
                (t, OutcomeModel::Redraw)
            } else {
                let st = "运行中 · "@ + tr;
                (
                    SessionModel { history: s.history.push(line), browsing: false, status: st, ..t },
                    OutcomeModel::Submit { request: RequestModel::Turn(line), working: Some(st) },
                )
            }
        },
    }
}

pub open spec fn palette_popup() -> PopupModel {
    PopupModel { kind: Kind::Palette, query: ""@, items: palette_of(""@), selected: 0, truncated: false }
}

pub open spec fn main_key(s: SessionModel, k: Key, f: FrameModel, about: About) -> (SessionModel, OutcomeModel) {
    match k {
        Key::Quit => (s, OutcomeModel::Quit),
        Key::Escape => if s.searching {
            (
                SessionModel {
                    searching: false,
                    input: s.input.clear(),
                    status: "已退出搜索（滚动位置保留）"@,
                    ..s
                },
                OutcomeModel::Redraw,
            )
        } else if !s.input.is_empty() {
            (SessionModel { input: s.input.clear(), browsing: false, ..s }, OutcomeModel::Redraw)
        } else {
            (s, OutcomeModel::Redraw)
        },
        Key::Mouse(ev) => (mouse_key(s, ev, f), OutcomeModel::Redraw),
        Key::PageUp => (
            SessionModel { view: s.view.scroll_up(half_page(s, f), f.total, body_rows(s, f)), ..s },
            OutcomeModel::Redraw,
        ),
        Key::PageDown => (SessionModel { view: s.view.scroll_down(half_page(s, f)), ..s }, OutcomeModel::Redraw),
        Key::ScrollToTop => (
            SessionModel { view: s.view.to_top(f.total, body_rows(s, f)), ..s },
            OutcomeModel::Redraw,
        ),
        Key::ScrollToBottom => (SessionModel { view: s.view.to_bottom(), ..s }, OutcomeModel::Redraw),
        Key::Search => (
            SessionModel { searching: true, input: s.input.clear(), status: SEARCH_PROMPT@, ..s },
            OutcomeModel::Redraw,
        ),
        Key::SearchNext => (
            SessionModel { view: s.view.search_step(true, f.total, body_rows(s, f)), ..s },
            OutcomeModel::Redraw,
        ),
        Key::SearchPrev => (
            SessionModel { view: s.view.search_step(false, f.total, body_rows(s, f)), ..s },
            OutcomeModel::Redraw,
        ),
        Key::DeleteWordBackward => if s.searching {
            (SessionModel { input: s.input.delete_word_backward(), ..s }, OutcomeModel::Redraw)
        } else {
            (s, OutcomeModel::Redraw)
        },
        Key::Undo => (SessionModel { input: s.input.undo_step(), ..s }, OutcomeModel::Redraw),
        Key::Redo => (SessionModel { input: s.input.redo_step(), ..s }, OutcomeModel::Redraw),
        Key::Delete => (SessionModel { input: s.input.delete_forward(), ..s }, OutcomeModel::Redraw),
        Key::Home => (SessionModel { input: EditorModel { col: 0, ..s.input }, ..s }, OutcomeModel::Redraw),
        Key::End => (
            SessionModel { input: EditorModel { col: s.input.cur().len() as int, ..s.input }, ..s },
            OutcomeModel::Redraw,
        ),
        Key::WordBackward => (SessionModel { input: s.input.word_backward(), ..s }, OutcomeModel::Redraw),
        Key::WordForward => (SessionModel { input: s.input.word_forward(), ..s }, OutcomeModel::Redraw),
        Key::Left => (
            SessionModel { input: s.input.move_left(), browsing: false, ..s },
            OutcomeModel::Redraw,
        ),
        Key::Right => (
            SessionModel { input: s.input.move_right(), browsing: false, ..s },
            OutcomeModel::Redraw,
        ),
        Key::CommandPalette => (
            SessionModel { popup: Some(palette_popup()), status: "命令面板"@, ..s },
            OutcomeModel::Redraw,
        ),
        Key::ToggleSidebar => (
            SessionModel {
                sidebar_open: !s.sidebar_open,
                status: sidebar_status(!s.sidebar_open),
                ..s
            },
            OutcomeModel::Redraw,
        ),
        Key::NextTheme => (
            SessionModel {
                theme: s.theme.following(),
                status: "主题："@ + s.theme.following().name(),
                ..s
            },
            OutcomeModel::SaveTheme(s.theme.following()),
        ),
        Key::ClearScreen => (s, OutcomeModel::ClearScreen),
        Key::ClearLine => (SessionModel { input: s.input.clear(), browsing: false, ..s }, OutcomeModel::Redraw),
        Key::Backspace => (backspaced(s, f), OutcomeModel::Redraw),
        Key::Char(c) => if s.searching {
            (search_typed(s, c, f), OutcomeModel::Redraw)
        } else {
            (typed(s, c), OutcomeModel::Redraw)
        },
        Key::Up => (up_key(s), OutcomeModel::Redraw),
        Key::Down => (down_key(s), OutcomeModel::Redraw),
        Key::SearchHistory => (history_searched(s), OutcomeModel::Redraw),
        Key::ExternalEditor => (s, OutcomeModel::EditExternally(s.input.text())),
        Key::Tab => (tabbed(s), OutcomeModel::Redraw),
        Key::Enter => if s.searching {
            (search_entered(s, f), OutcomeModel::Redraw)
        } else {
            entered(s, about)
        },
        _ => (s, OutcomeModel::Redraw),
    }
}

/// A read-only screen closes on any key (a quit key quits).
pub open spec fn info_key(s: SessionModel, k: Key) -> (SessionModel, OutcomeModel) {
    match k {
        Key::Quit => (s, OutcomeModel::Quit),
        _ => (SessionModel { info: None, ..s }, OutcomeModel::Redraw),
    }
}

/// What a key does to the session, and what is left for the loop.
pub open spec fn step_spec(s: SessionModel, k: Key, f: FrameModel, about: About) -> (SessionModel, OutcomeModel) {
    let (m, o) = if s.info is Some {
        info_key(s, k)
    } else if s.popup is Some {
        popup_key(s, k, about)
    } else {
        main_key(s, k, f, about)
    };
    (SessionModel { fresh_listing: None, ..m }, o)
}

// ── the main screen, executed ────────────────────────────────────────

fn hit_count_exec(v: &TranscriptView) -> (n: usize)
    ensures
        n == hit_count(v@),
{
    match v.search() {
        Some(x) => x.hits.len(),
        None => 0,
    }
}

fn search_typing_status_exec(q: &str, n: usize) -> (r: String)
    ensures
        r@ == search_typing_status(q@, n as nat),
{
    if trim_str(q).unicode_len() == 0 {
        owned(SEARCH_PROMPT)
    } else if n == 0 {
        let mut st = owned("搜索「");
        push_str(&mut st, q);
        push_str(&mut st, "」：无匹配");
        st
    } else {
        let mut st = owned("搜索「");
        push_str(&mut st, q);
        push_str(&mut st, "」：");
        push_dec(&mut st, n as u64);
        push_str(&mut st, " 处匹配（回车确认 · ctrl+n/ctrl+p 切换）");
        st
    }
}

impl Session {
    fn body_rows_exec(&self, f: &Frame) -> (r: usize)
        ensures
            r == body_rows(self@, f@),
    {
        f.rows.saturating_sub(chrome_rows(self.input.line_count()))
    }

    fn mouse_step(&mut self, ev: crate::mouse::MouseEvent, f: &Frame)
        requires
            old(self).wf(),
            f.body_total <= MAX_LINES,
        ensures
            final(self).wf(),
            final(self)@ == mouse_key(old(self)@, ev, f@),
    {
        let body = self.body_rows_exec(f);
        match hit_test(&f.regions, &ev, None, self.sidebar_open) {
            Some(MouseAction::ScrollTranscript(up)) => {
                if up {
                    self.view.scroll_up(3, f.body_total, body);
                } else {
                    self.view.scroll_down(3, f.body_total, body);
                }
            },
            Some(MouseAction::ToggleSidebar) => {
                self.sidebar_open = !self.sidebar_open;
                self.status = if self.sidebar_open { owned("侧栏已展开") } else { owned("侧栏已收起") };
            },
            _ => {},
        }
    }

    /// Open the popup that the current input calls for.
    fn open_for_input(&mut self)
        requires
            old(self).wf(),
            context_needs_files(old(self)@.input.text()) ==> old(self).files is Some,
        ensures
            final(self).wf(),
            final(self)@ == opened_for(old(self)@, old(self)@.input.text()),
    {
        let t = self.input.text();
        match self_popup_context(t.as_str()) {
            None => {
                self.popup = None;
            },
            Some((kind, q)) => {
                let mut p = Popup::new(kind, q.as_str());
                refresh_popup(&mut p, kind, &self.files);
                if p.is_empty() {
                    self.status = match kind {
                        Kind::File => owned("没有匹配的文件"),
                        Kind::Slash => owned("没有匹配的命令"),
                        _ => owned(""),
                    };
                } else {
                    let mut st = owned(kind.title());
                    push_str(&mut st, " · ");
                    push_dec(&mut st, p.items.len() as u64);
                    push_str(&mut st, " 项");
                    self.status = st;
                }
                self.popup = Some(p);
            },
        }
    }

    fn typed_step(&mut self, c: char)
        requires
            old(self).wf(),
            old(self).popup is None,
            (c == '@' || c == '/') && context_needs_files(old(self)@.input.insert_char(c).text())
                ==> old(self).files is Some,
        ensures
            final(self).wf(),
            final(self)@ == typed(old(self)@, c),
    {
        self.input.insert_char(c);
        self.browsing = false;
        self.history.reset_cursor();
        if c == '@' || c == '/' {
            self.open_for_input();
        }
    }

    fn search_typed_step(&mut self, c: char, f: &Frame)
        requires
            old(self).wf(),
        ensures
            final(self).wf(),
            final(self)@ == search_typed(old(self)@, c, f@),
    {
        self.input.insert_char(c);
        let q = self.input.text();
        self.view.set_search(f.lines.as_slice(), q.as_str());
        let n = hit_count_exec(&self.view);
        self.status = search_typing_status_exec(q.as_str(), n);
    }

    fn backspace_step(&mut self, f: &Frame)
        requires
            old(self).wf(),
        ensures
            final(self).wf(),
            final(self)@ == backspaced(old(self)@, f@),
    {
        self.input.backspace();
        self.browsing = false;
        if self.searching {
            let q = self.input.text();
            self.view.set_search(f.lines.as_slice(), q.as_str());
            let n = hit_count_exec(&self.view);
            let mut st = owned("搜索「");
            push_str(&mut st, q.as_str());
            push_str(&mut st, "」：");
            push_dec(&mut st, n as u64);
            push_str(&mut st, " 处匹配");
            self.status = st;
        }
    }

    fn up_step(&mut self)
        requires
            old(self).wf(),
        ensures
            final(self).wf(),
            final(self)@ == up_key(old(self)@),
    {
        let (row, _) = self.input.cursor();
        if row > 0 {
            self.input.move_up();
        } else {
            let found = match self.history.prev() {
                Some(h) => Some(owned(h)),
                None => None,
            };
            if let Some(h) = found {
                self.input.set(h.as_str());
                self.browsing = true;
            }
        }
    }

    fn down_step(&mut self)
        requires
            old(self).wf(),
        ensures
            final(self).wf(),
            final(self)@ == down_key(old(self)@),
    {
        let (row, _) = self.input.cursor();
        let n = self.input.line_count();
        if row + 1 < n {
            self.input.move_down();
        } else if self.browsing {
            let next = match self.history.next_entry() {
                Some(h) => Some(owned(h)),
                None => None,
            };
            match next {
                Some(h) => self.input.set(h.as_str()),
                None => {
                    self.input.clear();
                    self.browsing = false;
                },
            }
        }
    }

    fn history_step(&mut self)
        requires
            old(self).wf(),
        ensures
            final(self).wf(),
            final(self)@ == history_searched(old(self)@),
    {
        let needle = self.input.text();
        let found = match self.history.search(needle.as_str()) {
            Some(x) => Some(owned(x)),
            None => None,
        };
        match found {
            Some(x) => {
                if str_eq(x.as_str(), needle.as_str()) && needle.unicode_len() > 0 {
                    let _ = self.history.prev();
                }
                self.input.set(x.as_str());
                let mut st = owned("历史搜索：");
                push_str(&mut st, needle.as_str());
                self.status = st;
            },
            None => {
                let mut st = owned("历史中未找到：");
                push_str(&mut st, needle.as_str());
                self.status = st;
            },
        }
        self.browsing = true;
    }

    fn tab_step(&mut self)
        requires
            old(self).wf(),
            at_query_of(old(self)@.input.text()) is Some ==> old(self).files is Some,
        ensures
            final(self).wf(),
            final(self)@ == tabbed(old(self)@),
    {
        let cur = self.input.text();
        let q = match at_query(cur.as_str()) {
            Some(q) => owned(q),
            None => return,
        };
        let before = match self.fresh_listing {
            Some(cut) => if cut { owned(LISTING_CUT) } else { owned("") },
            None => owned(self.status.as_str()),
        };
        let best = match &self.files {
            Some(all) => {
                let r = fuzzy_rank(q.as_str(), all.as_slice(), 1);
                if r.len() > 0 {
                    Some(owned(r[0].as_str()))
                } else {
                    None
                }
            },
            None => None,
        };
        match best {
            Some(b) => {
                let done = complete_at_token(cur.as_str(), b.as_str());
                self.input.set(done.as_str());
                let mut st = owned("补全：");
                push_str(&mut st, b.as_str());
                push_str(&mut st, before.as_str());
                self.status = st;
            },
            None => {
                let mut st = owned("无匹配文件：");
                push_str(&mut st, q.as_str());
                self.status = st;
            },
        }
    }

    fn search_enter_step(&mut self, f: &Frame)
        requires
            old(self).wf(),
            f.total <= MAX_LINES,
        ensures
            final(self).wf(),
            final(self)@ == search_entered(old(self)@, f@),
    {
        self.searching = false;
        let n = hit_count_exec(&self.view);
        let q = match self.view.search() {
            Some(x) => owned(x.query.as_str()),
            None => owned(""),
        };
        self.input.clear();
        if n == 0 {
            let mut st = owned("搜索「");
            push_str(&mut st, q.as_str());
            push_str(&mut st, "」无匹配");
            self.status = st;
        } else {
            let body = f.rows.saturating_sub(chrome_rows(1));
            self.view.search_step(false, f.total, body);
            let mut st = owned("搜索「");
            push_str(&mut st, q.as_str());
            push_str(&mut st, "」：");
            push_dec(&mut st, n as u64);
            push_str(&mut st, " 处（ctrl+n 下一个 / ctrl+p 上一个）");
            self.status = st;
        }
    }
}

impl Session {
    fn command_step(&mut self, name: &str, about: &About) -> (o: Outcome)
        requires
            old(self).wf(),
        ensures
            final(self).wf(),
            (final(self)@, o@) == match first_answering(table(), command_key(name@), table().len() as int) {
                Some(i) => chosen(old(self)@, ItemActionModel::Run(table()[i].action), *about),
                None => (
                    SessionModel { status: "未知命令：/"@ + name@ + "（输入 / 查看列表）"@, ..old(self)@ },
                    OutcomeModel::Redraw,
                ),
            },
    {
        match resolve(name) {
            Some(cmd) => {
                let mut label = owned("/");
                push_str(&mut label, cmd.name);
                let item = Item {
                    label,
                    detail: owned(""),
                    action: ItemAction::Run(cmd.action),
                    category: "",
                    keybinding: "",
                };
                self.take_item(&item, about)
            },
            None => {
                let mut st = owned("未知命令：/");
                push_str(&mut st, name);
                push_str(&mut st, "（输入 / 查看列表）");
                self.status = st;
                Outcome::Redraw
            },
        }
    }

    fn enter_step(&mut self, about: &About) -> (o: Outcome)
        requires
            old(self).wf(),
        ensures
            final(self).wf(),
            (final(self)@, o@) == entered(old(self)@, *about),
    {
        let line = self.input.text();
        self.input.clear();
        if self.outstanding.is_some() {
            match parse_approval_answer(line.as_str()) {
                None => {
                    self.status = owned("请回答 y 或 n");
                    return Outcome::Redraw;
                },
                Some(allow) => {
                    let id = self.outstanding.take().unwrap();
                    return Outcome::Submit { request: Request::Approve { id, allow }, working: None };
                },
            }
        }
        let tr = trim_str(line.as_str());
        let tc = chars_of(tr);
        let n = tc.len();
        if n > 0 && tc[0] == '/' {
            let rest = sub_chars(tc.as_slice(), 1, n);
            assert(rest@ =~= tc@.drop_first());
            let name = match next_word_exec(rest.as_slice()) {
                Some((w, _)) => string_of(w.as_slice()),
                None => owned(""),
            };
            self.command_step(name.as_str(), about)
        } else if n > 0 && tc[0] == '!' {
            let rest = sub_chars(tc.as_slice(), 1, n);
            assert(rest@ =~= tc@.drop_first());
            let rs = string_of(rest.as_slice());
            let cmd = owned(trim_str(rs.as_str()));
            if cmd.unicode_len() == 0 {
                return Outcome::Redraw;
            }
            self.history.push(line.as_str());
            let mut working = owned("执行：");
            push_str(&mut working, cmd.as_str());
            Outcome::Submit { request: Request::Shell(cmd), working: Some(working) }
        } else if n == 0 {
            Outcome::Redraw
        } else {
            self.history.push(line.as_str());
            self.browsing = false;
            let mut st = owned("运行中 · ");
            push_str(&mut st, tr);
            self.status = owned(st.as_str());
            Outcome::Submit { request: Request::Turn(line), working: Some(st) }
        }
    }

    fn main_step(&mut self, k: Key, f: &Frame, about: &About) -> (o: Outcome)
        requires
            old(self).wf(),
            old(self).info is None,
            old(self).popup is None,
            needs_files_spec(old(self)@, k) ==> old(self).files is Some,
            f.total <= MAX_LINES,
            f.body_total <= MAX_LINES,
        ensures
            final(self).wf(),
            (final(self)@, o@) == main_key(old(self)@, k, f@, *about),
    {
        match k {
            Key::Quit => Outcome::Quit,
            Key::Escape => {
                if self.searching {
                    self.searching = false;
                    self.input.clear();
                    self.status = owned("已退出搜索（滚动位置保留）");
                } else if !self.input.is_empty() {
                    self.input.clear();
                    self.browsing = false;
                }
                Outcome::Redraw
            },
            Key::Mouse(ev) => {
                self.mouse_step(ev, f);
                Outcome::Redraw
            },
            Key::PageUp => {
                let body = self.body_rows_exec(f);
                let half = if body / 2 < 1 { 1 } else { body / 2 };
                self.view.scroll_up(half, f.total, body);
                Outcome::Redraw
            },
            Key::PageDown => {
                let body = self.body_rows_exec(f);
                let half = if body / 2 < 1 { 1 } else { body / 2 };
                self.view.scroll_down(half, f.total, body);
                Outcome::Redraw
            },
            Key::ScrollToTop => {
                let body = self.body_rows_exec(f);
                self.view.to_top(f.total, body);
                Outcome::Redraw
            },
            Key::ScrollToBottom => {
                self.view.to_bottom();
                Outcome::Redraw
            },
            Key::Search => {
                self.searching = true;
                self.input.clear();
                self.status = owned(SEARCH_PROMPT);
                Outcome::Redraw
            },
            Key::SearchNext => {
                let body = self.body_rows_exec(f);
                self.view.search_step(true, f.total, body);
                Outcome::Redraw
            },
            Key::SearchPrev => {
                let body = self.body_rows_exec(f);
                self.view.search_step(false, f.total, body);
                Outcome::Redraw
            },
            Key::DeleteWordBackward => {
                if self.searching {
                    self.input.delete_word_backward();
                }
                Outcome::Redraw
            },
            Key::Undo => {
                self.input.undo();
                Outcome::Redraw
            },
            Key::Redo => {
                self.input.redo();
                Outcome::Redraw
            },
            Key::Delete => {
                self.input.delete_forward();
                Outcome::Redraw
            },
            Key::Home => {
                self.input.move_home();
                Outcome::Redraw
            },
            Key::End => {
                self.input.move_end();
                Outcome::Redraw
            },
            Key::WordBackward => {
                self.input.word_backward();
                Outcome::Redraw
            },
            Key::WordForward => {
                self.input.word_forward();
                Outcome::Redraw
            },
            Key::Left => {
                self.browsing = false;
                self.input.move_left();
                Outcome::Redraw
            },
            Key::Right => {
                self.browsing = false;
                self.input.move_right();
                Outcome::Redraw
            },
            Key::CommandPalette => {
                let mut p = Popup::new(Kind::Palette, "");
                let items = palette_items("");
                p.set_items(items, false);
                self.popup = Some(p);
                self.status = owned("命令面板");
                Outcome::Redraw
            },
            Key::ToggleSidebar => {
                self.sidebar_open = !self.sidebar_open;
                self.status = if self.sidebar_open { owned("侧栏已展开") } else { owned("侧栏已收起") };
                Outcome::Redraw
            },
            Key::NextTheme => {
                self.theme = self.theme.next();
                let mut st = owned("主题：");
                push_str(&mut st, self.theme.as_str());
                self.status = st;
                Outcome::SaveTheme(self.theme)
            },
            Key::ClearScreen => Outcome::ClearScreen,
            Key::ClearLine => {
                self.input.clear();
                self.browsing = false;
                Outcome::Redraw
            },
            Key::Backspace => {
                self.backspace_step(f);
                Outcome::Redraw
            },
            Key::Char(c) => {
                if self.searching {
                    self.search_typed_step(c, f);
                } else {
                    self.typed_step(c);
                }
                Outcome::Redraw
            },
            Key::Up => {
                self.up_step();
                Outcome::Redraw
            },
            Key::Down => {
                self.down_step();
                Outcome::Redraw
            },
            Key::SearchHistory => {
                self.history_step();
                Outcome::Redraw
            },
            Key::ExternalEditor => Outcome::EditExternally(self.input.text()),
            Key::Tab => {
                self.tab_step();
                Outcome::Redraw
            },
            Key::Enter => {
                if self.searching {
                    self.search_enter_step(f);
                    Outcome::Redraw
                } else {
                    self.enter_step(about)
                }
            },
            _ => Outcome::Redraw,
        }
    }

    /// Handle one key. The loop lists the file candidates first when
    /// [`Session::needs_files`] asks for them.
    pub fn step(&mut self, k: Key, f: &Frame, about: &About) -> (o: Outcome)
        requires
            old(self).wf(),
            needs_files_spec(old(self)@, k) ==> old(self).files is Some,
            f.total <= MAX_LINES,
            f.body_total <= MAX_LINES,
        ensures
            final(self).wf(),
            (final(self)@, o@) == step_spec(old(self)@, k, f@, *about),
    {
        let o = if self.info.is_some() {
            match k {
                Key::Quit => Outcome::Quit,
                _ => {
                    self.info = None;
                    Outcome::Redraw
                },
            }
        } else if self.popup.is_some() {
            self.popup_step(k, about)
        } else {
            self.main_step(k, f, about)
        };
        self.fresh_listing = None;
        o
    }

    /// After the external editor: its text (without trailing whitespace)
    /// replaces the input, or the status says nothing came back.
    pub fn external_edit_done(&mut self, edited: Option<String>)
        requires
            old(self).wf(),
        ensures
            final(self).wf(),
            final(self)@ == match edited {
                Some(e) => SessionModel {
                    input: old(self)@.input.set(trim_end(e@)),
                    status: "已从外部编辑器取回内容"@,
                    browsing: false,
                    ..old(self)@
                },
                None => SessionModel {
                    status: "外部编辑器未返回内容"@,
                    browsing: false,
                    ..old(self)@
                },
            },
    {
        match edited {
            Some(e) => {
                let t = trim_end_chars(chars_of(e.as_str()).as_slice());
                self.input.set(string_of(t.as_slice()).as_str());
                self.status = owned("已从外部编辑器取回内容");
            },
            None => {
                self.status = owned("外部编辑器未返回内容");
            },
        }
        self.browsing = false;
    }

    /// After the kernel answered a request: the approval it now waits for
    /// (`approval`: the last one requested in the answer; a shell command
    /// leaves the outstanding approval as it was), and the status line.
    pub fn finish_request(&mut self, request: &Request, approval: Option<String>)
        requires
            old(self).wf(),
        ensures
            final(self).wf(),
            final(self)@ == ({
                let o = match request {
                    Request::Shell(_) => old(self)@.outstanding,
                    _ => opt_view(approval),
                };
                SessionModel {
                    outstanding: o,
                    status: if o is Some {
                        "待审批 · y 批准 / n 拒绝"@
                    } else {
                        "就绪"@
                    },
                    ..old(self)@
                }
            }),
    {
        match request {
            Request::Shell(_) => {},
            _ => {
                self.outstanding = approval;
            },
        }
        self.status = idle_or_approval(&self.outstanding);
    }
}

// ── laws ─────────────────────────────────────────────────────────────

/// The quit key quits from every screen: a read-only screen, an open
/// popup, search mode or the plain input.
pub proof fn law_quit_always_quits(s: SessionModel, f: FrameModel, about: About)
    ensures
        step_spec(s, Key::Quit, f, about).1 == OutcomeModel::Quit,
{
}

/// While an approval is outstanding, a line that is not a clear yes or no
/// is never handed to the kernel: the session asks again and keeps
/// waiting.
pub proof fn law_unclear_answer_is_not_submitted(s: SessionModel, f: FrameModel, about: About)
    requires
        s.info is None,
        s.popup is None,
        !s.searching,
        s.outstanding is Some,
        approval_of(s.input.text()) is None,
    ensures
        step_spec(s, Key::Enter, f, about).1 == OutcomeModel::Redraw,
        step_spec(s, Key::Enter, f, about).0.outstanding == s.outstanding,
        step_spec(s, Key::Enter, f, about).0.status == "请回答 y 或 n"@,
{
}

/// With a popup open, no key hands anything to the kernel: keys go to
/// the popup first.
pub proof fn law_popup_never_submits(s: SessionModel, k: Key, f: FrameModel, about: About)
    requires
        s.info is None,
        s.popup is Some,
    ensures
        !(step_spec(s, k, f, about).1 is Submit),
{
}

/// In search mode Enter only confirms the query: nothing is submitted and
/// search mode ends.
pub proof fn law_search_enter_submits_nothing(s: SessionModel, f: FrameModel, about: About)
    requires
        s.info is None,
        s.popup is None,
        s.searching,
    ensures
        step_spec(s, Key::Enter, f, about).1 == OutcomeModel::Redraw,
        !step_spec(s, Key::Enter, f, about).0.searching,
{
}

/// Whatever Enter does on the plain input, the input is empty afterwards
/// unless a command put something back (only a file reference does).
pub proof fn law_enter_consumes_the_line(s: SessionModel, f: FrameModel, about: About)
    requires
        s.info is None,
        s.popup is None,
        !s.searching,
        s.outstanding is None,
        trim(s.input.text()).len() > 0,
        trim(s.input.text())[0] != '/',
    ensures
        step_spec(s, Key::Enter, f, about).0.input == s.input.clear(),
{
}
} // verus!
