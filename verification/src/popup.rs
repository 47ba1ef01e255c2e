//! Popups (`@` files, `/` commands, themes, the command palette): the
//! selection state and the candidate lists, separate from rendering.
use vstd::prelude::*;
use vstd::relations::{total_ordering, sorted_by};
use crate::commands::{self, Command, CommandModel, Action, Category, table, cmds_view, filtered};
use crate::theme::ThemeName;
use crate::appearance::{Background, LogoStyle};
use crate::text::{trim, ascii_lower, contains, trim_str, chars_of, to_ascii_lower, contains_exec,
    owned, push_str};
use crate::input::{fuzzy, fuzzy_score, fuzzy_rank, ranked};

verus! {

/// Popup kind (decides the title and where the items come from).
#[derive(Debug, Clone, Copy, PartialEq, Eq, Structural)]
pub enum Kind {
    /// `@` file reference.
    File,
    /// `/` slash command.
    Slash,
    /// Theme picker.
    Theme,
    /// `ctrl+p` command palette.
    Palette,
    /// Background picker.
    Background,
    /// Logo style picker.
    Logo,
}

impl Kind {
    pub open spec fn title_of(self) -> Seq<char> {
        match self {
            Kind::File => "文件"@,
            Kind::Slash => "命令"@,
            Kind::Theme => "主题"@,
            Kind::Palette => "命令面板"@,
            Kind::Background => "背景"@,
            Kind::Logo => "Logo 样式"@,
        }
    }

    pub open spec fn rows_of(self) -> usize {
        match self {
            Kind::File => 8,
            Kind::Slash | Kind::Palette => 8,
            Kind::Theme => 6,
            Kind::Background => 4,
            Kind::Logo => 4,
        }
    }

    pub fn title(self) -> (r: &'static str)
        ensures
            r@ == self.title_of(),
    {
        match self {
            Kind::File => "文件",
            Kind::Slash => "命令",
            Kind::Theme => "主题",
            Kind::Palette => "命令面板",
            Kind::Background => "背景",
            Kind::Logo => "Logo 样式",
        }
    }

    /// Most rows the list shows (so a popup never covers the screen).
    pub fn max_rows(self) -> (r: usize)
        ensures
            r == self.rows_of(),
    {
        match self {
            Kind::File => 8,
            Kind::Slash | Kind::Palette => 8,
            Kind::Theme => 6,
            Kind::Background => 4,
            Kind::Logo => 4,
        }
    }
}

/// What choosing an item does.
#[derive(Debug, Clone, PartialEq, Eq)]
pub enum ItemAction {
    /// Put text into the input (a file reference).
    Insert(String),
    /// Run a registered command.
    Run(Action),
    /// Apply a theme.
    SetTheme(ThemeName),
    /// Apply a background texture.
    SetBackground(Background),
    /// Apply a logo style.
    SetLogo(LogoStyle),
}

/// The abstract item action.
pub enum ItemActionModel {
    Insert(Seq<char>),
    Run(Action),
    SetTheme(ThemeName),
    SetBackground(Background),
    SetLogo(LogoStyle),
}

impl View for ItemAction {
    type V = ItemActionModel;

    open spec fn view(&self) -> ItemActionModel {
        match self {
            ItemAction::Insert(s) => ItemActionModel::Insert(s@),
            ItemAction::Run(a) => ItemActionModel::Run(*a),
            ItemAction::SetTheme(t) => ItemActionModel::SetTheme(*t),
            ItemAction::SetBackground(b) => ItemActionModel::SetBackground(*b),
            ItemAction::SetLogo(l) => ItemActionModel::SetLogo(*l),
        }
    }
}

/// A list item.
#[derive(Debug, Clone, PartialEq, Eq)]
pub struct Item {
    pub label: String,
    /// Right-hand description (may be empty).
    pub detail: String,
    pub action: ItemAction,
    /// Group (palette sections; empty for files and themes).
    pub category: &'static str,
    /// Shortcut hint (empty if none).
    pub keybinding: &'static str,
}

/// The abstract item.
pub struct ItemModel {
    pub label: Seq<char>,
    pub detail: Seq<char>,
    pub action: ItemActionModel,
    pub category: Seq<char>,
    pub keybinding: Seq<char>,
}

impl View for Item {
    type V = ItemModel;

    open spec fn view(&self) -> ItemModel {
        ItemModel {
            label: self.label@,
            detail: self.detail@,
            action: self.action@,
            category: self.category@,
            keybinding: self.keybinding@,
        }
    }
}

pub open spec fn items_view(v: Seq<Item>) -> Seq<ItemModel> {
    v.map_values(|i: Item| i@)
}

impl Item {
    /// An item without group or key hint (files, themes).
    pub fn plain(label: String, detail: String, action: ItemAction) -> (r: Self)
        ensures
            r@ == (ItemModel {
                label: label@,
                detail: detail@,
                action: action@,
                category: Seq::empty(),
                keybinding: Seq::empty(),
            }),
    {
        let r = Item { label, detail, action, category: "", keybinding: "" };
        proof {
            reveal_strlit("");
            assert(r.category@ =~= Seq::<char>::empty());
            assert(r.keybinding@ =~= Seq::<char>::empty());
        }
        r
    }
}

/// Popup state.
#[derive(Debug, Clone)]
pub struct Popup {
    pub kind: Kind,
    /// Filter text (after `@` or `/`).
    pub query: String,
    pub items: Vec<Item>,
    /// Selected index (meaningless when the list is empty).
    pub selected: usize,
    /// More candidates than shown.
    pub truncated: bool,
}

pub open spec fn clamp(x: int, lo: int, hi: int) -> int {
    if x < lo {
        lo
    } else if x > hi {
        hi
    } else {
        x
    }
}

impl Popup {
    pub fn new(kind: Kind, query: &str) -> (p: Self)
        ensures
            p.kind == kind,
            p.query@ == query@,
            p.items@.len() == 0,
            p.selected == 0,
            !p.truncated,
    {
        Popup { kind, query: owned(query), items: Vec::new(), selected: 0, truncated: false }
    }

    /// Install candidates; the selection goes back to the first one.
    pub fn set_items(&mut self, items: Vec<Item>, truncated: bool)
        ensures
            final(self).items@ == items@,
            final(self).truncated == truncated,
            final(self).selected == 0,
            final(self).kind == old(self).kind,
            final(self).query@ == old(self).query@,
    {
        self.items = items;
        self.truncated = truncated;
        self.selected = 0;
    }

    pub fn is_empty(&self) -> (r: bool)
        ensures
            r == (self.items@.len() == 0),
    {
        self.items.len() == 0
    }

    /// Move the selection by `delta`, clamped at both ends (no wrap-around).
    pub fn move_selection(&mut self, delta: isize)
        requires
            old(self).items@.len() > 0 ==> isize::MIN <= (old(self).selected as isize) + delta
                <= isize::MAX,
        ensures
            old(self).items@.len() == 0 ==> final(self).selected == old(self).selected,
            old(self).items@.len() > 0 ==> final(self).selected == clamp(
                (old(self).selected as isize) + delta,
                0,
                old(self).items@.len() - 1,
            ),
            final(self).items@ == old(self).items@,
            final(self).kind == old(self).kind,
            final(self).query@ == old(self).query@,
            final(self).truncated == old(self).truncated,
    {
        if self.items.len() == 0 {
            return;
        }
        let last = self.items.len() - 1;
        let next = self.selected as isize + delta;
        self.selected = if next < 0 {
            0
        } else if next as usize > last {
            last
        } else {
            next as usize
        };
    }

    /// Select item `index` (clamped to the last one).
    pub fn select(&mut self, index: usize)
        ensures
            old(self).items@.len() == 0 ==> final(self).selected == old(self).selected,
            old(self).items@.len() > 0 ==> final(self).selected == clamp(
                index as int,
                0,
                old(self).items@.len() - 1,
            ),
            final(self).items@ == old(self).items@,
            final(self).kind == old(self).kind,
            final(self).query@ == old(self).query@,
            final(self).truncated == old(self).truncated,
    {
        if self.items.len() > 0 {
            let last = self.items.len() - 1;
            self.selected = if index < last {
                index
            } else {
                last
            };
        }
    }

    pub fn selected_item(&self) -> (r: Option<&Item>)
        ensures
            self.selected < self.items@.len() ==> r == Some(&self.items@[self.selected as int]),
            self.selected >= self.items@.len() ==> r is None,
    {
        if self.selected < self.items.len() {
            Some(&self.items[self.selected])
        } else {
            None
        }
    }

    /// First visible item when `visible_rows` are shown, keeping the
    /// selection in view.
    pub fn scroll_top(&self, visible_rows: usize) -> (r: usize)
        ensures
            r == scroll_top_of(self.items@.len() as int, self.selected as int, visible_rows as int),
    {
        let n = self.items.len();
        if visible_rows == 0 || n <= visible_rows {
            return 0;
        }
        let half = visible_rows / 2;
        let a = self.selected.saturating_sub(half);
        let b = n - visible_rows;
        if a < b {
            a
        } else {
            b
        }
    }
}

pub open spec fn scroll_top_of(n: int, selected: int, visible: int) -> int {
    if visible == 0 || n <= visible {
        0
    } else {
        let a = if selected >= visible / 2 {
            selected - visible / 2
        } else {
            0
        };
        if a < n - visible {
            a
        } else {
            n - visible
        }
    }
}

/// The selected item is always inside the visible window.
pub proof fn law_scroll_keeps_selection_visible(n: int, selected: int, visible: int)
    requires
        0 <= selected < n,
        visible >= 1,
    ensures
        scroll_top_of(n, selected, visible) <= selected < scroll_top_of(n, selected, visible)
            + visible,
{
}

/// Selection moves are clamped: never before the first item, never past
/// the last.
pub proof fn law_selection_stays_in_range(selected: int, delta: int, n: int)
    requires
        n > 0,
    ensures
        0 <= clamp(selected + delta, 0, n - 1) < n,
{
}

// ── candidates ───────────────────────────────────────────────────────

/// The item for a command.
pub open spec fn command_item(c: CommandModel) -> ItemModel {
    ItemModel {
        label: "/"@ + c.name,
        detail: c.desc,
        action: ItemActionModel::Run(c.action),
        category: c.category.title_of(),
        keybinding: c.keybinding,
    }
}

/// Wrap a command as an item (shared by the `/` list and the palette).
pub fn item_of(c: &Command) -> (r: Item)
    ensures
        r@ == command_item(c@),
{
    let mut label = String::new();
    push_str(&mut label, "/");
    push_str(&mut label, c.name);
    Item {
        label,
        detail: owned(c.desc),
        action: ItemAction::Run(c.action),
        category: c.category.title(),
        keybinding: c.keybinding,
    }
}

/// The commands of one category, in order.
pub open spec fn of_rank(cs: Seq<CommandModel>, r: int) -> Seq<CommandModel> {
    cs.filter(|c: CommandModel| c.category.rank() == r)
}

/// Slash command items: the matching commands grouped by category in
/// display order, table order within a category.
pub open spec fn slash_of(q: Seq<char>) -> Seq<ItemModel> {
    let m = filtered(table(), ascii_lower(trim(q)), table().len() as int);
    (of_rank(m, 0) + of_rank(m, 1) + of_rank(m, 2) + of_rank(m, 3)).map_values(
        |c: CommandModel| command_item(c),
    )
}

/// Slash command candidates for `query`.
pub fn slash_items(query: &str) -> (r: Vec<Item>)
    ensures
        items_view(r@) == slash_of(query@),
{
    let m = commands::matches(query);
    let ghost mv = cmds_view(m@);
    let mut r: Vec<Item> = Vec::new();
    let ghost mut done: Seq<CommandModel> = Seq::empty();
    let mut rank: usize = 0;
    while rank < 4
        invariant
            rank <= 4,
            mv == cmds_view(m@),
            done == if rank == 0 {
                Seq::<CommandModel>::empty()
            } else if rank == 1 {
                of_rank(mv, 0)
            } else if rank == 2 {
                of_rank(mv, 0) + of_rank(mv, 1)
            } else if rank == 3 {
                of_rank(mv, 0) + of_rank(mv, 1) + of_rank(mv, 2)
            } else {
                of_rank(mv, 0) + of_rank(mv, 1) + of_rank(mv, 2) + of_rank(mv, 3)
            },
            items_view(r@) == done.map_values(|c: CommandModel| command_item(c)),
        decreases 4 - rank,
    {
        let ghost before = done;
        let mut i: usize = 0;
        while i < m.len()
            invariant
                rank < 4,
                mv == cmds_view(m@),
                i <= m@.len(),
                items_view(r@) == (before + mv.take(i as int).filter(
                    |c: CommandModel| c.category.rank() == rank,
                )).map_values(|c: CommandModel| command_item(c)),
            decreases m@.len() - i,
        {
            let ghost t0 = mv.take(i as int);
            assert(mv.take(i + 1) =~= t0.push(mv[i as int]));
            let ghost pred = |c: CommandModel| c.category.rank() == rank;
            proof {
                t0.lemma_filter_push(mv[i as int], pred);
            }
            if m[i].category.order() == rank {
                let it = item_of(&m[i]);
                let ghost r0 = r@;
                r.push(it);
                assert(items_view(r@) =~= items_view(r0).push(it@));
            }
            i = i + 1;
        }
        assert(mv.take(m@.len() as int) =~= mv);
        proof {
            done = before + of_rank(mv, rank as int);
            assert(items_view(r@) =~= done.map_values(|c: CommandModel| command_item(c)));
        }
        rank = rank + 1;
    }
    r
}


// ── command palette ──────────────────────────────────────────────────

/// Palette score of a command: the fuzzy score of `/name`, else that of
/// the description minus 500, else no match.
pub open spec fn pal_score(q: Seq<char>, c: CommandModel) -> Option<int> {
    match fuzzy(q, "/"@ + c.name) {
        Some(s) => Some(s),
        None => match fuzzy(q, c.desc) {
            Some(s) => Some(s - 500),
            None => None,
        },
    }
}

/// `(category rank, -score, table position)` of the matching commands
/// among the first `n`.
pub open spec fn pal_keys(q: Seq<char>, cs: Seq<CommandModel>, n: int) -> Seq<(int, int, int)>
    decreases n,
{
    if n <= 0 {
        Seq::empty()
    } else {
        match pal_score(q, cs[n - 1]) {
            Some(s) => pal_keys(q, cs, n - 1).push((cs[n - 1].category.rank(), -s, n - 1)),
            None => pal_keys(q, cs, n - 1),
        }
    }
}

/// Lexicographic order on triples.
pub open spec fn tri_le(x: (int, int, int), y: (int, int, int)) -> bool {
    x.0 < y.0 || (x.0 == y.0 && (x.1 < y.1 || (x.1 == y.1 && x.2 <= y.2)))
}

pub proof fn lemma_tri_total()
    ensures
        total_ordering(|x: (int, int, int), y: (int, int, int)| tri_le(x, y)),
{
}

/// Palette candidates: every command on an empty query; otherwise the
/// commands whose name or description fuzzy-matches, by category, then
/// best score first, then table order.
pub open spec fn palette_of(q: Seq<char>) -> Seq<ItemModel> {
    let t = trim(q);
    if t.len() == 0 {
        slash_of(""@)
    } else {
        pal_keys(t, table(), table().len() as int).sort_by(
            |x: (int, int, int), y: (int, int, int)| tri_le(x, y),
        ).map_values(|k: (int, int, int)| command_item(table()[k.2]))
    }
}

fn tri_le_exec(a: (usize, i64, usize), b: (usize, i64, usize)) -> (r: bool)
    ensures
        r == tri_le((a.0 as int, a.1 as int, a.2 as int), (b.0 as int, b.1 as int, b.2 as int)),
{
    a.0 < b.0 || (a.0 == b.0 && (a.1 < b.1 || (a.1 == b.1 && a.2 <= b.2)))
}

pub open spec fn tri_view(v: Seq<(usize, i64, usize)>) -> Seq<(int, int, int)> {
    v.map_values(|k: (usize, i64, usize)| (k.0 as int, k.1 as int, k.2 as int))
}

/// Command palette candidates for `query`.
pub fn palette_items(query: &str) -> (r: Vec<Item>)
    ensures
        items_view(r@) == palette_of(query@),
{
    let q = trim_str(query);
    if q.unicode_len() == 0 {
        let r = slash_items("");
        proof {
            reveal_strlit("");
            assert(trim(query@) =~= Seq::<char>::empty());
        }
        return r;
    }
    let ghost t = q@;
    let ghost leq = |x: (int, int, int), y: (int, int, int)| tri_le(x, y);
    proof {
        lemma_tri_total();
    }
    let reg = commands::registry();
    let n = reg.len();
    let mut sorted: Vec<(usize, i64, usize)> = Vec::new();
    let mut i: usize = 0;
    assert(tri_view(sorted@) =~= Seq::<(int, int, int)>::empty());
    while i < n
        invariant
            n == reg@.len(),
            cmds_view(reg@) == table(),
            i <= n,
            t == q@,
            total_ordering(leq),
            leq == (|x: (int, int, int), y: (int, int, int)| tri_le(x, y)),
            forall|j: int| 0 <= j < sorted@.len() ==> #[trigger] sorted@[j].2 < i,
            sorted_by(tri_view(sorted@), leq),
            tri_view(sorted@).to_multiset() == pal_keys(t, table(), i as int).to_multiset(),
        decreases n - i,
    {
        let c = &reg[i];
        assert(c@ == table()[i as int]);
        let ghost pk = pal_keys(t, table(), i as int);
        let mut label = String::new();
        push_str(&mut label, "/");
        push_str(&mut label, c.name);
        let neg: Option<i64> = match fuzzy_score(q, label.as_str()) {
            Some(s) => Some(0i64 - s as i64),
            None => match fuzzy_score(q, c.desc) {
                Some(s) => Some(500i64 - s as i64),
                None => None,
            },
        };
        match neg {
            None => {
                assert(pal_keys(t, table(), i + 1) == pk);
            },
            Some(v) => {
                let key = (c.category.order(), v, i);
                let mut p: usize = 0;
                let m = sorted.len();
                while p < m && tri_le_exec(sorted[p], key)
                    invariant
                        m == sorted@.len(),
                        p <= m,
                        forall|j: int| 0 <= j < sorted@.len() ==> #[trigger] sorted@[j].2 < i,
                        forall|j: int|
                            0 <= j < p ==> tri_le(
                                #[trigger] tri_view(sorted@)[j],
                                (key.0 as int, key.1 as int, key.2 as int),
                            ),
                    decreases m - p,
                {
                    p = p + 1;
                }
                let ghost old_sorted = sorted@;
                sorted.insert(p, key);
                proof {
                    let ks = tri_view(old_sorted);
                    let x = (key.0 as int, key.1 as int, key.2 as int);
                    assert(tri_view(sorted@) =~= ks.insert(p as int, x));
                    vstd::seq_lib::to_multiset_insert(ks, p as int, x);
                    vstd::seq_lib::to_multiset_build(pk, x);
                    assert(pal_keys(t, table(), i + 1) == pk.push(x));
                    assert forall|a: int, b: int|
                        0 <= a < b < sorted@.len() implies #[trigger] leq(
                        tri_view(sorted@)[a],
                        tri_view(sorted@)[b],
                    ) by {
                        let ks2 = tri_view(sorted@);
                        if a < p as int && b == p as int {
                        } else if a == p as int && b > p as int {
                            if p < m {
                                assert(!tri_le(ks[p as int], x));
                                if b - 1 > p {
                                    assert(leq(ks[p as int], ks[b - 1]));
                                }
                            }
                        } else if a < p as int && b > p as int {
                            assert(ks2[a] == ks[a]);
                            assert(ks2[b] == ks[b - 1]);
                        } else if b < p as int {
                        } else {
                            assert(ks2[a] == ks[a - 1]);
                            assert(ks2[b] == ks[b - 1]);
                        }
                    }
                    assert forall|j: int| 0 <= j < sorted@.len() implies #[trigger] sorted@[j].2 < i
                        + 1 by {
                        if j < p {
                            assert(sorted@[j] == old_sorted[j]);
                        } else if j > p {
                            assert(sorted@[j] == old_sorted[j - 1]);
                        }
                    }
                }
            },
        }
        i = i + 1;
    }
    proof {
        let pk = pal_keys(t, table(), n as int);
        pk.lemma_sort_by_ensures(leq);
        vstd::seq_lib::lemma_sorted_unique(tri_view(sorted@), pk.sort_by(leq), leq);
    }
    let mut r: Vec<Item> = Vec::new();
    let k = sorted.len();
    let mut j: usize = 0;
    while j < k
        invariant
            k == sorted@.len(),
            j <= k,
            n == reg@.len(),
            cmds_view(reg@) == table(),
            forall|x: int| 0 <= x < sorted@.len() ==> #[trigger] sorted@[x].2 < n,
            items_view(r@) == tri_view(sorted@).take(j as int).map_values(
                |x: (int, int, int)| command_item(table()[x.2]),
            ),
        decreases k - j,
    {
        let idx = sorted[j].2;
        assert(reg@[idx as int]@ == table()[idx as int]);
        let it = item_of(&reg[idx]);
        let ghost r0 = r@;
        r.push(it);
        assert(tri_view(sorted@).take(j + 1) =~= tri_view(sorted@).take(j as int).push(
            tri_view(sorted@)[j as int],
        ));
        assert(items_view(r@) =~= items_view(r0).push(it@));
        j = j + 1;
    }
    proof {
        assert(tri_view(sorted@).take(k as int) =~= tri_view(sorted@));
    }
    r
}


// ── theme, background and logo pickers ───────────────────────────────

/// A name is listed for a query when the query is empty or the name
/// contains it.
pub open spec fn name_hit(name: Seq<char>, q: Seq<char>) -> bool {
    q.len() == 0 || contains(name, q)
}

fn name_hit_exec(name: &str, q: &[char]) -> (r: bool)
    ensures
        r == name_hit(name@, q@),
{
    if q.len() == 0 {
        return true;
    }
    let n = chars_of(name);
    contains_exec(n.as_slice(), q)
}

/// The query trimmed and ASCII-lower-cased.
fn lower_query(query: &str) -> (r: Vec<char>)
    ensures
        r@ == ascii_lower(trim(query@)),
{
    let t = trim_str(query);
    let v = chars_of(t);
    to_ascii_lower(v.as_slice())
}

// ── theme ──

/// Description shown beside each theme entry.
pub open spec fn theme_desc_of(x: ThemeName) -> Seq<char> {
    match x {
            ThemeName::Neo => "NEO 默认（紫）"@,
            ThemeName::OpenCode => "opencode 官方（暖橙 / 紫）"@,
            ThemeName::Nord => "冷蓝灰"@,
            ThemeName::Gruvbox => "复古暖色"@,
            ThemeName::RosePine => "柔和玫瑰"@,
            ThemeName::Tokyonight => "霓虹夜蓝"@,
            ThemeName::Catppuccin => "柔和马卡龙"@,
            ThemeName::Light => "亮色：浅底深字"@,
            ThemeName::Terminal => "CRT 绿磷终端风"@,
    }
}

fn theme_desc(x: ThemeName) -> (r: &'static str)
    ensures
        r@ == theme_desc_of(x),
{
    match x {
            ThemeName::Neo => "NEO 默认（紫）",
            ThemeName::OpenCode => "opencode 官方（暖橙 / 紫）",
            ThemeName::Nord => "冷蓝灰",
            ThemeName::Gruvbox => "复古暖色",
            ThemeName::RosePine => "柔和玫瑰",
            ThemeName::Tokyonight => "霓虹夜蓝",
            ThemeName::Catppuccin => "柔和马卡龙",
            ThemeName::Light => "亮色：浅底深字",
            ThemeName::Terminal => "CRT 绿磷终端风",
    }
}

pub open spec fn theme_item(x: ThemeName) -> ItemModel {
    ItemModel {
        label: x.name(),
        detail: theme_desc_of(x),
        action: ItemActionModel::SetTheme(x),
        category: Seq::empty(),
        keybinding: Seq::empty(),
    }
}

/// The theme entries whose name contains the (trimmed, lower-cased) query,
/// in switching order; all of them for an empty query.
pub open spec fn theme_items_of(q: Seq<char>) -> Seq<ItemModel> {
    let k = ascii_lower(trim(q));
    seq![ThemeName::Neo, ThemeName::OpenCode, ThemeName::Nord, ThemeName::Gruvbox, ThemeName::RosePine, ThemeName::Tokyonight, ThemeName::Catppuccin, ThemeName::Light, ThemeName::Terminal].filter(|x: ThemeName| name_hit(x.name(), k)).map_values(|x: ThemeName| theme_item(x))
}

/// Theme candidates for `query`.
pub fn theme_items(query: &str) -> (r: Vec<Item>)
    ensures
        items_view(r@) == theme_items_of(query@),
{
    let k = lower_query(query);
    let all = ThemeName::all();
    let ghost pred = |x: ThemeName| name_hit(x.name(), k@);
    let mut r: Vec<Item> = Vec::new();
    for i in 0..9
        invariant
            all@ == seq![ThemeName::Neo, ThemeName::OpenCode, ThemeName::Nord, ThemeName::Gruvbox, ThemeName::RosePine, ThemeName::Tokyonight, ThemeName::Catppuccin, ThemeName::Light, ThemeName::Terminal],
            k@ == ascii_lower(trim(query@)),
            pred == (|x: ThemeName| name_hit(x.name(), k@)),
            items_view(r@) == all@.take(i as int).filter(pred).map_values(|x: ThemeName| theme_item(x)),
    {
        let x = all[i];
        proof {
            assert(all@.take(i + 1) =~= all@.take(i as int).push(x));
            all@.take(i as int).lemma_filter_push(x, pred);
        }
        if name_hit_exec(x.as_str(), k.as_slice()) {
            let it = Item::plain(owned(x.as_str()), owned(theme_desc(x)), ItemAction::SetTheme(x));
            let ghost r0 = r@;
            r.push(it);
            assert(items_view(r@) =~= items_view(r0).push(it@));
        }
    }
    assert(all@.take(9) =~= all@);
    r
}

// ── background ──

/// Description shown beside each background entry.
pub open spec fn background_desc_of(x: Background) -> Seq<char> {
    match x {
            Background::Stars => "星场（默认）：稀疏点阵，最有氛围"@,
            Background::Dots => "点阵网格：规律安静，适合长时间看"@,
            Background::Diagonal => "斜纹：轻微纹理感"@,
            Background::Plain => "纯色：无纹理，最省心"@,
    }
}

fn background_desc(x: Background) -> (r: &'static str)
    ensures
        r@ == background_desc_of(x),
{
    match x {
            Background::Stars => "星场（默认）：稀疏点阵，最有氛围",
            Background::Dots => "点阵网格：规律安静，适合长时间看",
            Background::Diagonal => "斜纹：轻微纹理感",
            Background::Plain => "纯色：无纹理，最省心",
    }
}

pub open spec fn background_item(x: Background) -> ItemModel {
    ItemModel {
        label: x.name(),
        detail: background_desc_of(x),
        action: ItemActionModel::SetBackground(x),
        category: Seq::empty(),
        keybinding: Seq::empty(),
    }
}

/// The background entries whose name contains the (trimmed, lower-cased) query,
/// in switching order; all of them for an empty query.
pub open spec fn background_items_of(q: Seq<char>) -> Seq<ItemModel> {
    let k = ascii_lower(trim(q));
    seq![Background::Stars, Background::Dots, Background::Diagonal, Background::Plain].filter(|x: Background| name_hit(x.name(), k)).map_values(|x: Background| background_item(x))
}

/// Background candidates for `query`.
pub fn background_items(query: &str) -> (r: Vec<Item>)
    ensures
        items_view(r@) == background_items_of(query@),
{
    let k = lower_query(query);
    let all = Background::all();
    let ghost pred = |x: Background| name_hit(x.name(), k@);
    let mut r: Vec<Item> = Vec::new();
    for i in 0..4
        invariant
            all@ == seq![Background::Stars, Background::Dots, Background::Diagonal, Background::Plain],
            k@ == ascii_lower(trim(query@)),
            pred == (|x: Background| name_hit(x.name(), k@)),
            items_view(r@) == all@.take(i as int).filter(pred).map_values(|x: Background| background_item(x)),
    {
        let x = all[i];
        proof {
            assert(all@.take(i + 1) =~= all@.take(i as int).push(x));
            all@.take(i as int).lemma_filter_push(x, pred);
        }
        if name_hit_exec(x.as_str(), k.as_slice()) {
            let it = Item::plain(owned(x.as_str()), owned(background_desc(x)), ItemAction::SetBackground(x));
            let ghost r0 = r@;
            r.push(it);
            assert(items_view(r@) =~= items_view(r0).push(it@));
        }
    }
    assert(all@.take(4) =~= all@);
    r
}

// ── logo style ──

/// Description shown beside each logo style entry.
pub open spec fn logo_desc_of(x: LogoStyle) -> Seq<char> {
    match x {
            LogoStyle::Large => "大词标（6 行渐变，默认）"@,
            LogoStyle::Small => "小词标（3 行）"@,
            LogoStyle::Minimal => "极简（一行 NEO）"@,
            LogoStyle::Hidden => "隐藏（首屏只留信息与输入框）"@,
    }
}

fn logo_desc(x: LogoStyle) -> (r: &'static str)
    ensures
        r@ == logo_desc_of(x),
{
    match x {
            LogoStyle::Large => "大词标（6 行渐变，默认）",
            LogoStyle::Small => "小词标（3 行）",
            LogoStyle::Minimal => "极简（一行 NEO）",
            LogoStyle::Hidden => "隐藏（首屏只留信息与输入框）",
    }
}

pub open spec fn logo_item(x: LogoStyle) -> ItemModel {
    ItemModel {
        label: x.name(),
        detail: logo_desc_of(x),
        action: ItemActionModel::SetLogo(x),
        category: Seq::empty(),
        keybinding: Seq::empty(),
    }
}

/// The logo style entries whose name contains the (trimmed, lower-cased) query,
/// in switching order; all of them for an empty query.
pub open spec fn logo_items_of(q: Seq<char>) -> Seq<ItemModel> {
    let k = ascii_lower(trim(q));
    seq![LogoStyle::Large, LogoStyle::Small, LogoStyle::Minimal, LogoStyle::Hidden].filter(|x: LogoStyle| name_hit(x.name(), k)).map_values(|x: LogoStyle| logo_item(x))
}

/// Logo style candidates for `query`.
pub fn logo_items(query: &str) -> (r: Vec<Item>)
    ensures
        items_view(r@) == logo_items_of(query@),
{
    let k = lower_query(query);
    let all = LogoStyle::all();
    let ghost pred = |x: LogoStyle| name_hit(x.name(), k@);
    let mut r: Vec<Item> = Vec::new();
    for i in 0..4
        invariant
            all@ == seq![LogoStyle::Large, LogoStyle::Small, LogoStyle::Minimal, LogoStyle::Hidden],
            k@ == ascii_lower(trim(query@)),
            pred == (|x: LogoStyle| name_hit(x.name(), k@)),
            items_view(r@) == all@.take(i as int).filter(pred).map_values(|x: LogoStyle| logo_item(x)),
    {
        let x = all[i];
        proof {
            assert(all@.take(i + 1) =~= all@.take(i as int).push(x));
            all@.take(i as int).lemma_filter_push(x, pred);
        }
        if name_hit_exec(x.as_str(), k.as_slice()) {
            let it = Item::plain(owned(x.as_str()), owned(logo_desc(x)), ItemAction::SetLogo(x));
            let ghost r0 = r@;
            r.push(it);
            assert(items_view(r@) =~= items_view(r0).push(it@));
        }
    }
    assert(all@.take(4) =~= all@);
    r
}


// ── files ────────────────────────────────────────────────────────────

/// The item for a file path: inserting it puts `@path` into the input.
pub open spec fn file_item(f: Seq<char>) -> ItemModel {
    ItemModel {
        label: f,
        detail: Seq::empty(),
        action: ItemActionModel::Insert("@"@ + f),
        category: Seq::empty(),
        keybinding: Seq::empty(),
    }
}

/// The files listed for a query: the first `limit` in enumeration order
/// for an empty query, else the fuzzy ranking.
pub open spec fn file_choice(q: Seq<char>, files: Seq<Seq<char>>, limit: int) -> Seq<Seq<char>> {
    let t = trim(q);
    if t.len() == 0 {
        files.take(if limit < files.len() { limit } else { files.len() as int })
    } else {
        ranked(t, files, limit)
    }
}

pub open spec fn strings_view(v: Seq<String>) -> Seq<Seq<char>> {
    v.map_values(|s: String| s@)
}

/// File candidates, and whether there are more files than `limit`.
pub fn file_items(query: &str, files: &[String], limit: usize) -> (r: (Vec<Item>, bool))
    ensures
        items_view(r.0@) == file_choice(query@, strings_view(files@), limit as int).map_values(
            |f: Seq<char>| file_item(f),
        ),
        r.1 == (files@.len() > limit),
{
    let q = trim_str(query);
    let ghost fv = strings_view(files@);
    let picked: Vec<&String> = if q.unicode_len() == 0 {
        let k = if limit < files.len() {
            limit
        } else {
            files.len()
        };
        let mut v: Vec<&String> = Vec::new();
        for i in 0..k
            invariant
                k <= files@.len(),
                v@.map_values(|s: &String| s@) == fv.take(i as int),
                fv == strings_view(files@),
        {
            let ghost v0 = v@;
            v.push(&files[i]);
            assert(v@.map_values(|s: &String| s@) =~= v0.map_values(|s: &String| s@).push(
                files@[i as int]@,
            ));
            assert(fv.take(i + 1) =~= fv.take(i as int).push(fv[i as int]));
        }
        v
    } else {
        fuzzy_rank(q, files, limit)
    };
    let ghost chosen = picked@.map_values(|s: &String| s@);
    assert(chosen == file_choice(query@, fv, limit as int));
    let mut items: Vec<Item> = Vec::new();
    for j in 0..picked.len()
        invariant
            chosen == picked@.map_values(|s: &String| s@),
            items_view(items@) == chosen.take(j as int).map_values(|f: Seq<char>| file_item(f)),
    {
        let f = picked[j];
        let mut ins = String::new();
        push_str(&mut ins, "@");
        push_str(&mut ins, f.as_str());
        let it = Item::plain(owned(f.as_str()), String::new(), ItemAction::Insert(ins));
        let ghost i0 = items@;
        items.push(it);
        assert(chosen.take(j + 1) =~= chosen.take(j as int).push(chosen[j as int]));
        assert(items_view(items@) =~= items_view(i0).push(it@));
    }
    assert(chosen.take(picked@.len() as int) =~= chosen);
    (items, files.len() > limit)
}


proof fn lemma_ranks_cover(m: Seq<CommandModel>)
    ensures
        of_rank(m, 0).len() + of_rank(m, 1).len() + of_rank(m, 2).len() + of_rank(m, 3).len() == m.len(),
    decreases m.len(),
{
    reveal(Seq::filter);
    if m.len() > 0 {
        lemma_ranks_cover(m.drop_last());
    }
}

/// The slash list holds one item per matching command: grouping by
/// category loses and repeats none.
pub proof fn law_slash_items_count(q: Seq<char>)
    ensures
        slash_of(q).len() == filtered(table(), ascii_lower(trim(q)), table().len() as int).len(),
{
    lemma_ranks_cover(filtered(table(), ascii_lower(trim(q)), table().len() as int));
}

/// With an empty query the slash list holds every registered command.
pub proof fn law_slash_items_all()
    ensures
        slash_of(Seq::empty()).len() == table().len(),
{
    law_slash_items_count(Seq::empty());
    assert(trim(Seq::<char>::empty()) =~= Seq::<char>::empty());
    assert(ascii_lower(Seq::<char>::empty()) =~= Seq::<char>::empty());
    crate::commands::law_empty_query_matches_all(table(), table().len() as int);
    assert(table().take(table().len() as int) =~= table());
}


/// With an empty query the theme list holds all nine themes, in order.
pub proof fn law_theme_items_all()
    ensures
        theme_items_of(Seq::empty()).len() == 9,
{
    let all = seq![ThemeName::Neo, ThemeName::OpenCode, ThemeName::Nord, ThemeName::Gruvbox, ThemeName::RosePine, ThemeName::Tokyonight, ThemeName::Catppuccin, ThemeName::Light, ThemeName::Terminal];
    let k = ascii_lower(trim(Seq::<char>::empty()));
    assert(trim(Seq::<char>::empty()) =~= Seq::<char>::empty());
    assert(k =~= Seq::<char>::empty());
    let pred = |x: ThemeName| name_hit(x.name(), k);
    assert forall|i: int| 0 <= i < all.len() implies #[trigger] pred(all[i]) by {}
    all.lemma_filter_len(pred);
    lemma_filter_all(all, pred);
}

proof fn lemma_filter_all<A>(s: Seq<A>, p: spec_fn(A) -> bool)
    requires
        forall|i: int| 0 <= i < s.len() ==> #[trigger] p(s[i]),
    ensures
        s.filter(p) == s,
    decreases s.len(),
{
    reveal(Seq::filter);
    if s.len() > 0 {
        lemma_filter_all(s.drop_last(), p);
        assert(p(s[s.len() - 1]));
        assert(s.drop_last().push(s.last()) =~= s);
    }
}


/// With a blank query the file list is the first `limit` files as listed;
/// otherwise it is the fuzzy ranking (see `law_ranked`), at most `limit`
/// files, each holding the query as a subsequence.
pub proof fn law_file_choice(q: Seq<char>, files: Seq<Seq<char>>, limit: int)
    requires
        0 <= limit,
    ensures
        trim(q).len() == 0 ==> file_choice(q, files, limit) == files.take(
            if limit < files.len() { limit } else { files.len() as int },
        ),
        trim(q).len() > 0 ==> file_choice(q, files, limit).len() <= limit && forall|i: int|
            0 <= i < file_choice(q, files, limit).len() ==> crate::input::fuzzy(
                trim(q),
                #[trigger] file_choice(q, files, limit)[i],
            ) is Some && files.contains(file_choice(q, files, limit)[i]),
{
    if trim(q).len() > 0 {
        crate::input::law_ranked(trim(q), files, limit);
    }
}

} // verus!
