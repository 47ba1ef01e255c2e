//! Which-key: the keys that work right now, grouped, for the context the
//! screen is in (input, popup, search, approval, diff viewer, scrolled
//! transcript, sidebar).
use vstd::prelude::*;

verus! {

/// A group of keys shown together.
#[derive(Debug, Clone, PartialEq, Eq)]
pub struct Group {
    /// Group title.
    pub title: &'static str,
    /// `(key, what it does)`.
    pub keys: &'static [(&'static str, &'static str)],
}

/// The abstract group.
pub struct GroupModel {
    pub title: Seq<char>,
    pub keys: Seq<(Seq<char>, Seq<char>)>,
}

impl View for Group {
    type V = GroupModel;

    open spec fn view(&self) -> GroupModel {
        GroupModel {
            title: self.title@,
            keys: self.keys@.map_values(|p: (&'static str, &'static str)| (p.0@, p.1@)),
        }
    }
}

pub open spec fn groups_view(v: Seq<Group>) -> Seq<GroupModel> {
    v.map_values(|g: Group| g@)
}

/// Screen context.
#[derive(Debug, Clone, Copy, PartialEq, Eq, Structural)]
pub enum Context {
    /// The input has focus (default).
    Input,
    /// A popup is open (list navigation).
    Popup,
    /// Searching the transcript.
    Search,
    /// The transcript is scrolled up.
    Scrolled,
    /// An approval is pending.
    Approval,
    /// The diff viewer is open.
    DiffViewer,
    /// The sidebar is visible.
    Sidebar,
}

/// Submitting and editing.
pub open spec fn edit_model() -> GroupModel {
    GroupModel {
        title: "提交 / 编辑"@,
        keys: seq![
            ("enter"@, "提交任务"@),
            ("alt+enter"@, "插入换行"@),
            ("ctrl+k"@, "删到行尾"@),
            ("ctrl+u"@, "删到行首"@),
            ("ctrl+w"@, "删前一个词"@),
            ("ctrl+_ / ctrl+y"@, "撤销 / 重做"@),
            ("home / end"@, "行首 / 行尾"@),
            ("alt+b / alt+f"@, "按词移动"@),
            ("ctrl+g"@, "外部编辑器"@),
        ],
    }
}

/// History and completion.
pub open spec fn history_model() -> GroupModel {
    GroupModel {
        title: "历史与补全"@,
        keys: seq![
            ("tab"@, "补全 @ 引用"@),
            ("@ / /"@, "文件 / 命令列表"@),
            ("↑ / ↓"@, "本缓冲移动，到边界走历史"@),
            ("ctrl+r"@, "搜索历史"@),
            ("ctrl+f"@, "搜索转录"@),
        ],
    }
}

/// The screen.
pub open spec fn screen_model() -> GroupModel {
    GroupModel {
        title: "界面"@,
        keys: seq![
            ("ctrl+p"@, "命令面板"@),
            ("ctrl+t"@, "切换主题"@),
            ("ctrl+b"@, "侧栏开关"@),
            ("pgup / pgdn"@, "滚动转录"@),
            ("ctrl+e"@, "回到最新"@),
            ("ctrl+l"@, "清屏"@),
            ("ctrl+o"@, "键位提示"@),
            ("ctrl+z"@, "挂起回 shell"@),
            ("esc"@, "清空输入"@),
            ("ctrl+c"@, "退出"@),
        ],
    }
}

/// List navigation in a popup.
pub open spec fn popup_model() -> GroupModel {
    GroupModel {
        title: "列表导航"@,
        keys: seq![
            ("↑ / ↓"@, "选择"@),
            ("enter"@, "确认"@),
            ("tab"@, "确认并继续编辑"@),
            ("esc"@, "取消"@),
            ("backspace"@, "缩窄过滤"@),
        ],
    }
}

/// Transcript search.
pub open spec fn search_model() -> GroupModel {
    GroupModel {
        title: "搜索转录"@,
        keys: seq![
            ("输入"@, "实时过滤"@),
            ("enter"@, "确认并跳到命中"@),
            ("ctrl+n / ctrl+p"@, "下一个 / 上一个命中"@),
            ("backspace"@, "删一个字符"@),
            ("esc"@, "退出搜索（保留滚动位置）"@),
        ],
    }
}

/// A pending approval.
pub open spec fn approval_model() -> GroupModel {
    GroupModel {
        title: "审批"@,
        keys: seq![
            ("y"@, "批准"@),
            ("n"@, "拒绝"@),
            ("d"@, "查看完整 diff"@),
            ("ctrl+c"@, "退出"@),
        ],
    }
}

/// The diff viewer.
pub open spec fn diff_model() -> GroupModel {
    GroupModel {
        title: "diff 查看器"@,
        keys: seq![
            ("j / k"@, "上下移动"@),
            ("] / ["@, "下 / 上一个 hunk"@),
            ("n / p"@, "下 / 上一个文件"@),
            ("N / P"@, "文件树选择"@),
            ("v"@, "统一 / 双列"@),
            ("b"@, "文件树开关"@),
            ("g / G"@, "首 / 尾"@),
            ("q / esc"@, "返回"@),
        ],
    }
}

/// A scrolled transcript.
pub open spec fn scrolled_model() -> GroupModel {
    GroupModel {
        title: "转录已上滚"@,
        keys: seq![
            ("pgup / pgdn"@, "半页滚动"@),
            ("ctrl+e"@, "回到最新"@),
            ("ctrl+home"@, "跳到最顶"@),
            ("ctrl+f"@, "搜索"@),
            ("ctrl+b"@, "侧栏开关"@),
            ("esc"@, "关闭弹窗 / 清空输入"@),
        ],
    }
}

/// The sidebar: its mouse entries only (its key, `ctrl+b`, belongs to the screen group).
pub open spec fn sidebar_model() -> GroupModel {
    GroupModel {
        title: "侧栏（鼠标）"@,
        keys: seq![
            ("点侧栏"@, "收起"@),
            ("点右下角 ‹"@, "展开（收起后）"@),
        ],
    }
}

/// The input context's groups.
pub open spec fn input_models() -> Seq<GroupModel> {
    seq![edit_model(), history_model(), screen_model()]
}

/// The groups shown for a context.
pub open spec fn groups_of(ctx: Context, sidebar_visible: bool) -> Seq<GroupModel> {
    match ctx {
        Context::Popup => seq![popup_model()],
        Context::Search => seq![search_model()],
        Context::Approval => seq![approval_model()],
        Context::DiffViewer => seq![diff_model()],
        Context::Scrolled => if sidebar_visible {
            seq![scrolled_model(), sidebar_model()]
        } else {
            seq![scrolled_model()]
        },
        Context::Sidebar => input_models().push(sidebar_model()),
        Context::Input => if sidebar_visible {
            input_models().push(sidebar_model())
        } else {
            input_models()
        },
    }
}

/// Submitting and editing.
fn edit_group() -> (r: Group)
    ensures
        r@ == edit_model(),
{
    let r = Group { title: "提交 / 编辑", keys: &[("enter", "提交任务"), ("alt+enter", "插入换行"), ("ctrl+k", "删到行尾"), ("ctrl+u", "删到行首"), ("ctrl+w", "删前一个词"), ("ctrl+_ / ctrl+y", "撤销 / 重做"), ("home / end", "行首 / 行尾"), ("alt+b / alt+f", "按词移动"), ("ctrl+g", "外部编辑器")] };
    proof {
        assert(r.keys@.map_values(|p: (&'static str, &'static str)| (p.0@, p.1@)) =~= edit_model().keys);
    }
    r
}

/// History and completion.
fn history_group() -> (r: Group)
    ensures
        r@ == history_model(),
{
    let r = Group { title: "历史与补全", keys: &[("tab", "补全 @ 引用"), ("@ / /", "文件 / 命令列表"), ("↑ / ↓", "本缓冲移动，到边界走历史"), ("ctrl+r", "搜索历史"), ("ctrl+f", "搜索转录")] };
    proof {
        assert(r.keys@.map_values(|p: (&'static str, &'static str)| (p.0@, p.1@)) =~= history_model().keys);
    }
    r
}

/// The screen.
fn screen_group() -> (r: Group)
    ensures
        r@ == screen_model(),
{
    let r = Group { title: "界面", keys: &[("ctrl+p", "命令面板"), ("ctrl+t", "切换主题"), ("ctrl+b", "侧栏开关"), ("pgup / pgdn", "滚动转录"), ("ctrl+e", "回到最新"), ("ctrl+l", "清屏"), ("ctrl+o", "键位提示"), ("ctrl+z", "挂起回 shell"), ("esc", "清空输入"), ("ctrl+c", "退出")] };
    proof {
        assert(r.keys@.map_values(|p: (&'static str, &'static str)| (p.0@, p.1@)) =~= screen_model().keys);
    }
    r
}

/// List navigation.
fn popup_group() -> (r: Group)
    ensures
        r@ == popup_model(),
{
    let r = Group { title: "列表导航", keys: &[("↑ / ↓", "选择"), ("enter", "确认"), ("tab", "确认并继续编辑"), ("esc", "取消"), ("backspace", "缩窄过滤")] };
    proof {
        assert(r.keys@.map_values(|p: (&'static str, &'static str)| (p.0@, p.1@)) =~= popup_model().keys);
    }
    r
}

/// Transcript search.
fn search_group() -> (r: Group)
    ensures
        r@ == search_model(),
{
    let r = Group { title: "搜索转录", keys: &[("输入", "实时过滤"), ("enter", "确认并跳到命中"), ("ctrl+n / ctrl+p", "下一个 / 上一个命中"), ("backspace", "删一个字符"), ("esc", "退出搜索（保留滚动位置）")] };
    proof {
        assert(r.keys@.map_values(|p: (&'static str, &'static str)| (p.0@, p.1@)) =~= search_model().keys);
    }
    r
}

/// Approval.
fn approval_group() -> (r: Group)
    ensures
        r@ == approval_model(),
{
    let r = Group { title: "审批", keys: &[("y", "批准"), ("n", "拒绝"), ("d", "查看完整 diff"), ("ctrl+c", "退出")] };
    proof {
        assert(r.keys@.map_values(|p: (&'static str, &'static str)| (p.0@, p.1@)) =~= approval_model().keys);
    }
    r
}

/// Diff viewer.
fn diff_group() -> (r: Group)
    ensures
        r@ == diff_model(),
{
    let r = Group { title: "diff 查看器", keys: &[("j / k", "上下移动"), ("] / [", "下 / 上一个 hunk"), ("n / p", "下 / 上一个文件"), ("N / P", "文件树选择"), ("v", "统一 / 双列"), ("b", "文件树开关"), ("g / G", "首 / 尾"), ("q / esc", "返回")] };
    proof {
        assert(r.keys@.map_values(|p: (&'static str, &'static str)| (p.0@, p.1@)) =~= diff_model().keys);
    }
    r
}

/// Scrolled transcript.
fn scrolled_group() -> (r: Group)
    ensures
        r@ == scrolled_model(),
{
    let r = Group { title: "转录已上滚", keys: &[("pgup / pgdn", "半页滚动"), ("ctrl+e", "回到最新"), ("ctrl+home", "跳到最顶"), ("ctrl+f", "搜索"), ("ctrl+b", "侧栏开关"), ("esc", "关闭弹窗 / 清空输入")] };
    proof {
        assert(r.keys@.map_values(|p: (&'static str, &'static str)| (p.0@, p.1@)) =~= scrolled_model().keys);
    }
    r
}

/// Sidebar.
fn sidebar_group() -> (r: Group)
    ensures
        r@ == sidebar_model(),
{
    let r = Group { title: "侧栏（鼠标）", keys: &[("点侧栏", "收起"), ("点右下角 ‹", "展开（收起后）")] };
    proof {
        assert(r.keys@.map_values(|p: (&'static str, &'static str)| (p.0@, p.1@)) =~= sidebar_model().keys);
    }
    r
}

fn one(g: Group) -> (r: Vec<Group>)
    ensures
        groups_view(r@) == seq![g@],
{
    let mut v: Vec<Group> = Vec::new();
    v.push(g);
    assert(groups_view(v@) =~= seq![g@]);
    v
}

fn input_list() -> (r: Vec<Group>)
    ensures
        groups_view(r@) == input_models(),
{
    let mut v: Vec<Group> = Vec::new();
    v.push(edit_group());
    v.push(history_group());
    v.push(screen_group());
    assert(groups_view(v@) =~= input_models());
    v
}

/// The groups to show for a context; the sidebar group joins when the
/// sidebar is visible.
pub fn groups_for(ctx: Context, sidebar_visible: bool) -> (r: Vec<Group>)
    ensures
        groups_view(r@) == groups_of(ctx, sidebar_visible),
{
    match ctx {
        Context::Popup => one(popup_group()),
        Context::Search => one(search_group()),
        Context::Approval => one(approval_group()),
        Context::DiffViewer => one(diff_group()),
        Context::Scrolled => {
            let mut v = one(scrolled_group());
            if sidebar_visible {
                let s = sidebar_group();
                let ghost v0 = groups_view(v@);
                v.push(s);
                assert(groups_view(v@) =~= v0.push(s@));
                assert(groups_view(v@) =~= seq![scrolled_model(), sidebar_model()]);
            }
            v
        },
        Context::Sidebar => {
            let mut v = input_list();
            let s = sidebar_group();
            let ghost v0 = groups_view(v@);
            v.push(s);
            assert(groups_view(v@) =~= v0.push(s@));
            v
        },
        Context::Input => {
            let mut v = input_list();
            if sidebar_visible {
                let s = sidebar_group();
                let ghost v0 = groups_view(v@);
                v.push(s);
                assert(groups_view(v@) =~= v0.push(s@));
            }
            v
        },
    }
}

/// The context for the current screen state; the most modal state wins:
/// diff viewer, popup, search, approval, scrolled transcript, sidebar,
/// input.
pub open spec fn context_of(
    popup_open: bool,
    searching: bool,
    awaiting_approval: bool,
    diff_open: bool,
    scrolled: bool,
    sidebar_visible: bool,
) -> Context {
    if diff_open {
        Context::DiffViewer
    } else if popup_open {
        Context::Popup
    } else if searching {
        Context::Search
    } else if awaiting_approval {
        Context::Approval
    } else if scrolled {
        Context::Scrolled
    } else if sidebar_visible {
        Context::Sidebar
    } else {
        Context::Input
    }
}

pub fn detect(
    popup_open: bool,
    searching: bool,
    awaiting_approval: bool,
    diff_open: bool,
    scrolled: bool,
    sidebar_visible: bool,
) -> (r: Context)
    ensures
        r == context_of(popup_open, searching, awaiting_approval, diff_open, scrolled, sidebar_visible),
{
    if diff_open {
        return Context::DiffViewer;
    }
    if popup_open {
        return Context::Popup;
    }
    if searching {
        return Context::Search;
    }
    if awaiting_approval {
        return Context::Approval;
    }
    if scrolled {
        return Context::Scrolled;
    }
    if sidebar_visible {
        return Context::Sidebar;
    }
    Context::Input
}


/// Every key appears at most once among the groups shown together.
pub open spec fn keys_distinct(gs: Seq<GroupModel>) -> bool {
    forall|a: int, i: int, b: int, j: int|
        0 <= a < gs.len() && 0 <= i < gs[a].keys.len() && 0 <= b < gs.len() && 0 <= j
            < gs[b].keys.len() && (a != b || i != j) ==> #[trigger] gs[a].keys[i].0
            != #[trigger] gs[b].keys[j].0
}

/// Every group has a title and at least one key, and no key or
/// description is empty.
pub open spec fn well_labelled(gs: Seq<GroupModel>) -> bool {
    forall|a: int|
        0 <= a < gs.len() ==> {
            &&& (#[trigger] gs[a]).title.len() > 0
            &&& gs[a].keys.len() > 0
            &&& forall|i: int|
                0 <= i < gs[a].keys.len() ==> (#[trigger] gs[a].keys[i]).0.len() > 0
                    && gs[a].keys[i].1.len() > 0
        }
}

/// What every context shows is fully labelled.
pub proof fn law_groups_well_labelled(ctx: Context, sidebar_visible: bool)
    ensures
        well_labelled(groups_of(ctx, sidebar_visible)),
{
    reveal_strlit("提交 / 编辑");
    reveal_strlit("enter");
    reveal_strlit("提交任务");
    reveal_strlit("alt+enter");
    reveal_strlit("插入换行");
    reveal_strlit("ctrl+k");
    reveal_strlit("删到行尾");
    reveal_strlit("ctrl+u");
    reveal_strlit("删到行首");
    reveal_strlit("ctrl+w");
    reveal_strlit("删前一个词");
    reveal_strlit("ctrl+_ / ctrl+y");
    reveal_strlit("撤销 / 重做");
    reveal_strlit("home / end");
    reveal_strlit("行首 / 行尾");
    reveal_strlit("alt+b / alt+f");
    reveal_strlit("按词移动");
    reveal_strlit("ctrl+g");
    reveal_strlit("外部编辑器");
    reveal_strlit("历史与补全");
    reveal_strlit("tab");
    reveal_strlit("补全 @ 引用");
    reveal_strlit("@ / /");
    reveal_strlit("文件 / 命令列表");
    reveal_strlit("↑ / ↓");
    reveal_strlit("本缓冲移动，到边界走历史");
    reveal_strlit("ctrl+r");
    reveal_strlit("搜索历史");
    reveal_strlit("ctrl+f");
    reveal_strlit("搜索转录");
    reveal_strlit("界面");
    reveal_strlit("ctrl+p");
    reveal_strlit("命令面板");
    reveal_strlit("ctrl+t");
    reveal_strlit("切换主题");
    reveal_strlit("ctrl+b");
    reveal_strlit("侧栏开关");
    reveal_strlit("pgup / pgdn");
    reveal_strlit("滚动转录");
    reveal_strlit("ctrl+e");
    reveal_strlit("回到最新");
    reveal_strlit("ctrl+l");
    reveal_strlit("清屏");
    reveal_strlit("ctrl+o");
    reveal_strlit("键位提示");
    reveal_strlit("ctrl+z");
    reveal_strlit("挂起回 shell");
    reveal_strlit("esc");
    reveal_strlit("清空输入");
    reveal_strlit("ctrl+c");
    reveal_strlit("退出");
    reveal_strlit("列表导航");
    reveal_strlit("选择");
    reveal_strlit("确认");
    reveal_strlit("确认并继续编辑");
    reveal_strlit("取消");
    reveal_strlit("backspace");
    reveal_strlit("缩窄过滤");
    reveal_strlit("输入");
    reveal_strlit("实时过滤");
    reveal_strlit("确认并跳到命中");
    reveal_strlit("ctrl+n / ctrl+p");
    reveal_strlit("下一个 / 上一个命中");
    reveal_strlit("删一个字符");
    reveal_strlit("退出搜索（保留滚动位置）");
    reveal_strlit("审批");
    reveal_strlit("y");
    reveal_strlit("批准");
    reveal_strlit("n");
    reveal_strlit("拒绝");
    reveal_strlit("d");
    reveal_strlit("查看完整 diff");
    reveal_strlit("diff 查看器");
    reveal_strlit("j / k");
    reveal_strlit("上下移动");
    reveal_strlit("] / [");
    reveal_strlit("下 / 上一个 hunk");
    reveal_strlit("n / p");
    reveal_strlit("下 / 上一个文件");
    reveal_strlit("N / P");
    reveal_strlit("文件树选择");
    reveal_strlit("v");
    reveal_strlit("统一 / 双列");
    reveal_strlit("b");
    reveal_strlit("文件树开关");
    reveal_strlit("g / G");
    reveal_strlit("首 / 尾");
    reveal_strlit("q / esc");
    reveal_strlit("返回");
    reveal_strlit("转录已上滚");
    reveal_strlit("半页滚动");
    reveal_strlit("ctrl+home");
    reveal_strlit("跳到最顶");
    reveal_strlit("搜索");
    reveal_strlit("关闭弹窗 / 清空输入");
    reveal_strlit("侧栏（鼠标）");
    reveal_strlit("点侧栏");
    reveal_strlit("收起");
    reveal_strlit("点右下角 ‹");
    reveal_strlit("展开（收起后）");
    reveal_strlit("), (");
}


proof fn lemma_distinct_popup()
    ensures
        keys_distinct(seq![popup_model()]),
{
    reveal_strlit("↑ / ↓");
    reveal_strlit("enter");
    reveal_strlit("tab");
    reveal_strlit("esc");
    reveal_strlit("backspace");
    assert("↑ / ↓"@[0] != "enter"@[0]);
    assert("tab"@[0] != "esc"@[0]);
    let gs = seq![popup_model()];
    assert forall|a: int, i: int, b: int, j: int|
        0 <= a < gs.len() && 0 <= i < gs[a].keys.len() && 0 <= b < gs.len() && 0 <= j
            < gs[b].keys.len() && (a != b || i != j) implies #[trigger] gs[a].keys[i].0
            != #[trigger] gs[b].keys[j].0 by {
        if a == 0 && i == 0 {
            assert(gs[a].keys[i].0 == "↑ / ↓"@);
        } else if a == 0 && i == 1 {
            assert(gs[a].keys[i].0 == "enter"@);
        } else if a == 0 && i == 2 {
            assert(gs[a].keys[i].0 == "tab"@);
        } else if a == 0 && i == 3 {
            assert(gs[a].keys[i].0 == "esc"@);
        } else if a == 0 && i == 4 {
            assert(gs[a].keys[i].0 == "backspace"@);
        }
        if b == 0 && j == 0 {
            assert(gs[b].keys[j].0 == "↑ / ↓"@);
        } else if b == 0 && j == 1 {
            assert(gs[b].keys[j].0 == "enter"@);
        } else if b == 0 && j == 2 {
            assert(gs[b].keys[j].0 == "tab"@);
        } else if b == 0 && j == 3 {
            assert(gs[b].keys[j].0 == "esc"@);
        } else if b == 0 && j == 4 {
            assert(gs[b].keys[j].0 == "backspace"@);
        }
    }
}

proof fn lemma_distinct_search()
    ensures
        keys_distinct(seq![search_model()]),
{
    reveal_strlit("输入");
    reveal_strlit("enter");
    reveal_strlit("ctrl+n / ctrl+p");
    reveal_strlit("backspace");
    reveal_strlit("esc");
    let gs = seq![search_model()];
    assert forall|a: int, i: int, b: int, j: int|
        0 <= a < gs.len() && 0 <= i < gs[a].keys.len() && 0 <= b < gs.len() && 0 <= j
            < gs[b].keys.len() && (a != b || i != j) implies #[trigger] gs[a].keys[i].0
            != #[trigger] gs[b].keys[j].0 by {
        if a == 0 && i == 0 {
            assert(gs[a].keys[i].0 == "输入"@);
        } else if a == 0 && i == 1 {
            assert(gs[a].keys[i].0 == "enter"@);
        } else if a == 0 && i == 2 {
            assert(gs[a].keys[i].0 == "ctrl+n / ctrl+p"@);
        } else if a == 0 && i == 3 {
            assert(gs[a].keys[i].0 == "backspace"@);
        } else if a == 0 && i == 4 {
            assert(gs[a].keys[i].0 == "esc"@);
        }
        if b == 0 && j == 0 {
            assert(gs[b].keys[j].0 == "输入"@);
        } else if b == 0 && j == 1 {
            assert(gs[b].keys[j].0 == "enter"@);
        } else if b == 0 && j == 2 {
            assert(gs[b].keys[j].0 == "ctrl+n / ctrl+p"@);
        } else if b == 0 && j == 3 {
            assert(gs[b].keys[j].0 == "backspace"@);
        } else if b == 0 && j == 4 {
            assert(gs[b].keys[j].0 == "esc"@);
        }
    }
}

proof fn lemma_distinct_approval()
    ensures
        keys_distinct(seq![approval_model()]),
{
    reveal_strlit("y");
    reveal_strlit("n");
    reveal_strlit("d");
    reveal_strlit("ctrl+c");
    assert("y"@[0] != "n"@[0]);
    assert("y"@[0] != "d"@[0]);
    assert("n"@[0] != "d"@[0]);
    let gs = seq![approval_model()];
    assert forall|a: int, i: int, b: int, j: int|
        0 <= a < gs.len() && 0 <= i < gs[a].keys.len() && 0 <= b < gs.len() && 0 <= j
            < gs[b].keys.len() && (a != b || i != j) implies #[trigger] gs[a].keys[i].0
            != #[trigger] gs[b].keys[j].0 by {
        if a == 0 && i == 0 {
            assert(gs[a].keys[i].0 == "y"@);
        } else if a == 0 && i == 1 {
            assert(gs[a].keys[i].0 == "n"@);
        } else if a == 0 && i == 2 {
            assert(gs[a].keys[i].0 == "d"@);
        } else if a == 0 && i == 3 {
            assert(gs[a].keys[i].0 == "ctrl+c"@);
        }
        if b == 0 && j == 0 {
            assert(gs[b].keys[j].0 == "y"@);
        } else if b == 0 && j == 1 {
            assert(gs[b].keys[j].0 == "n"@);
        } else if b == 0 && j == 2 {
            assert(gs[b].keys[j].0 == "d"@);
        } else if b == 0 && j == 3 {
            assert(gs[b].keys[j].0 == "ctrl+c"@);
        }
    }
}

proof fn lemma_distinct_diff()
    ensures
        keys_distinct(seq![diff_model()]),
{
    reveal_strlit("j / k");
    reveal_strlit("] / [");
    reveal_strlit("n / p");
    reveal_strlit("N / P");
    reveal_strlit("v");
    reveal_strlit("b");
    reveal_strlit("g / G");
    reveal_strlit("q / esc");
    assert("j / k"@[0] != "] / ["@[0]);
    assert("j / k"@[0] != "n / p"@[0]);
    assert("j / k"@[0] != "N / P"@[0]);
    assert("j / k"@[0] != "g / G"@[0]);
    assert("] / ["@[0] != "n / p"@[0]);
    assert("] / ["@[0] != "N / P"@[0]);
    assert("] / ["@[0] != "g / G"@[0]);
    assert("n / p"@[0] != "N / P"@[0]);
    assert("n / p"@[0] != "g / G"@[0]);
    assert("N / P"@[0] != "g / G"@[0]);
    assert("v"@[0] != "b"@[0]);
    let gs = seq![diff_model()];
    assert forall|a: int, i: int, b: int, j: int|
        0 <= a < gs.len() && 0 <= i < gs[a].keys.len() && 0 <= b < gs.len() && 0 <= j
            < gs[b].keys.len() && (a != b || i != j) implies #[trigger] gs[a].keys[i].0
            != #[trigger] gs[b].keys[j].0 by {
        if a == 0 && i == 0 {
            assert(gs[a].keys[i].0 == "j / k"@);
        } else if a == 0 && i == 1 {
            assert(gs[a].keys[i].0 == "] / ["@);
        } else if a == 0 && i == 2 {
            assert(gs[a].keys[i].0 == "n / p"@);
        } else if a == 0 && i == 3 {
            assert(gs[a].keys[i].0 == "N / P"@);
        } else if a == 0 && i == 4 {
            assert(gs[a].keys[i].0 == "v"@);
        } else if a == 0 && i == 5 {
            assert(gs[a].keys[i].0 == "b"@);
        } else if a == 0 && i == 6 {
            assert(gs[a].keys[i].0 == "g / G"@);
        } else if a == 0 && i == 7 {
            assert(gs[a].keys[i].0 == "q / esc"@);
        }
        if b == 0 && j == 0 {
            assert(gs[b].keys[j].0 == "j / k"@);
        } else if b == 0 && j == 1 {
            assert(gs[b].keys[j].0 == "] / ["@);
        } else if b == 0 && j == 2 {
            assert(gs[b].keys[j].0 == "n / p"@);
        } else if b == 0 && j == 3 {
            assert(gs[b].keys[j].0 == "N / P"@);
        } else if b == 0 && j == 4 {
            assert(gs[b].keys[j].0 == "v"@);
        } else if b == 0 && j == 5 {
            assert(gs[b].keys[j].0 == "b"@);
        } else if b == 0 && j == 6 {
            assert(gs[b].keys[j].0 == "g / G"@);
        } else if b == 0 && j == 7 {
            assert(gs[b].keys[j].0 == "q / esc"@);
        }
    }
}

proof fn lemma_distinct_scrolled()
    ensures
        keys_distinct(seq![scrolled_model()]),
{
    reveal_strlit("pgup / pgdn");
    reveal_strlit("ctrl+e");
    reveal_strlit("ctrl+home");
    reveal_strlit("ctrl+f");
    reveal_strlit("ctrl+b");
    reveal_strlit("esc");
    assert("ctrl+e"@[5] != "ctrl+f"@[5]);
    assert("ctrl+e"@[5] != "ctrl+b"@[5]);
    assert("ctrl+f"@[5] != "ctrl+b"@[5]);
    let gs = seq![scrolled_model()];
    assert forall|a: int, i: int, b: int, j: int|
        0 <= a < gs.len() && 0 <= i < gs[a].keys.len() && 0 <= b < gs.len() && 0 <= j
            < gs[b].keys.len() && (a != b || i != j) implies #[trigger] gs[a].keys[i].0
            != #[trigger] gs[b].keys[j].0 by {
        if a == 0 && i == 0 {
            assert(gs[a].keys[i].0 == "pgup / pgdn"@);
        } else if a == 0 && i == 1 {
            assert(gs[a].keys[i].0 == "ctrl+e"@);
        } else if a == 0 && i == 2 {
            assert(gs[a].keys[i].0 == "ctrl+home"@);
        } else if a == 0 && i == 3 {
            assert(gs[a].keys[i].0 == "ctrl+f"@);
        } else if a == 0 && i == 4 {
            assert(gs[a].keys[i].0 == "ctrl+b"@);
        } else if a == 0 && i == 5 {
            assert(gs[a].keys[i].0 == "esc"@);
        }
        if b == 0 && j == 0 {
            assert(gs[b].keys[j].0 == "pgup / pgdn"@);
        } else if b == 0 && j == 1 {
            assert(gs[b].keys[j].0 == "ctrl+e"@);
        } else if b == 0 && j == 2 {
            assert(gs[b].keys[j].0 == "ctrl+home"@);
        } else if b == 0 && j == 3 {
            assert(gs[b].keys[j].0 == "ctrl+f"@);
        } else if b == 0 && j == 4 {
            assert(gs[b].keys[j].0 == "ctrl+b"@);
        } else if b == 0 && j == 5 {
            assert(gs[b].keys[j].0 == "esc"@);
        }
    }
}

proof fn lemma_distinct_scrolled_sidebar()
    ensures
        keys_distinct(seq![scrolled_model(), sidebar_model()]),
{
    reveal_strlit("pgup / pgdn");
    reveal_strlit("ctrl+e");
    reveal_strlit("ctrl+home");
    reveal_strlit("ctrl+f");
    reveal_strlit("ctrl+b");
    reveal_strlit("esc");
    reveal_strlit("点侧栏");
    reveal_strlit("点右下角 ‹");
    assert("ctrl+e"@[5] != "ctrl+f"@[5]);
    assert("ctrl+e"@[5] != "ctrl+b"@[5]);
    assert("ctrl+e"@[0] != "点右下角 ‹"@[0]);
    assert("ctrl+f"@[5] != "ctrl+b"@[5]);
    assert("ctrl+f"@[0] != "点右下角 ‹"@[0]);
    assert("ctrl+b"@[0] != "点右下角 ‹"@[0]);
    assert("esc"@[0] != "点侧栏"@[0]);
    let gs = seq![scrolled_model(), sidebar_model()];
    assert forall|a: int, i: int, b: int, j: int|
        0 <= a < gs.len() && 0 <= i < gs[a].keys.len() && 0 <= b < gs.len() && 0 <= j
            < gs[b].keys.len() && (a != b || i != j) implies #[trigger] gs[a].keys[i].0
            != #[trigger] gs[b].keys[j].0 by {
        if a == 0 && i == 0 {
            assert(gs[a].keys[i].0 == "pgup / pgdn"@);
        } else if a == 0 && i == 1 {
            assert(gs[a].keys[i].0 == "ctrl+e"@);
        } else if a == 0 && i == 2 {
            assert(gs[a].keys[i].0 == "ctrl+home"@);
        } else if a == 0 && i == 3 {
            assert(gs[a].keys[i].0 == "ctrl+f"@);
        } else if a == 0 && i == 4 {
            assert(gs[a].keys[i].0 == "ctrl+b"@);
        } else if a == 0 && i == 5 {
            assert(gs[a].keys[i].0 == "esc"@);
        } else if a == 1 && i == 0 {
            assert(gs[a].keys[i].0 == "点侧栏"@);
        } else if a == 1 && i == 1 {
            assert(gs[a].keys[i].0 == "点右下角 ‹"@);
        }
        if b == 0 && j == 0 {
            assert(gs[b].keys[j].0 == "pgup / pgdn"@);
        } else if b == 0 && j == 1 {
            assert(gs[b].keys[j].0 == "ctrl+e"@);
        } else if b == 0 && j == 2 {
            assert(gs[b].keys[j].0 == "ctrl+home"@);
        } else if b == 0 && j == 3 {
            assert(gs[b].keys[j].0 == "ctrl+f"@);
        } else if b == 0 && j == 4 {
            assert(gs[b].keys[j].0 == "ctrl+b"@);
        } else if b == 0 && j == 5 {
            assert(gs[b].keys[j].0 == "esc"@);
        } else if b == 1 && j == 0 {
            assert(gs[b].keys[j].0 == "点侧栏"@);
        } else if b == 1 && j == 1 {
            assert(gs[b].keys[j].0 == "点右下角 ‹"@);
        }
    }
}

proof fn lemma_distinct_input()
    ensures
        keys_distinct(input_models()),
{
    reveal_strlit("enter");
    reveal_strlit("alt+enter");
    reveal_strlit("ctrl+k");
    reveal_strlit("ctrl+u");
    reveal_strlit("ctrl+w");
    reveal_strlit("ctrl+_ / ctrl+y");
    reveal_strlit("home / end");
    reveal_strlit("alt+b / alt+f");
    reveal_strlit("ctrl+g");
    reveal_strlit("tab");
    reveal_strlit("@ / /");
    reveal_strlit("↑ / ↓");
    reveal_strlit("ctrl+r");
    reveal_strlit("ctrl+f");
    reveal_strlit("ctrl+p");
    reveal_strlit("ctrl+t");
    reveal_strlit("ctrl+b");
    reveal_strlit("pgup / pgdn");
    reveal_strlit("ctrl+e");
    reveal_strlit("ctrl+l");
    reveal_strlit("ctrl+o");
    reveal_strlit("ctrl+z");
    reveal_strlit("esc");
    reveal_strlit("ctrl+c");
    assert("enter"@[0] != "@ / /"@[0]);
    assert("enter"@[0] != "↑ / ↓"@[0]);
    assert("ctrl+k"@[5] != "ctrl+u"@[5]);
    assert("ctrl+k"@[5] != "ctrl+w"@[5]);
    assert("ctrl+k"@[5] != "ctrl+g"@[5]);
    assert("ctrl+k"@[5] != "ctrl+r"@[5]);
    assert("ctrl+k"@[5] != "ctrl+f"@[5]);
    assert("ctrl+k"@[5] != "ctrl+p"@[5]);
    assert("ctrl+k"@[5] != "ctrl+t"@[5]);
    assert("ctrl+k"@[5] != "ctrl+b"@[5]);
    assert("ctrl+k"@[5] != "ctrl+e"@[5]);
    assert("ctrl+k"@[5] != "ctrl+l"@[5]);
    assert("ctrl+k"@[5] != "ctrl+o"@[5]);
    assert("ctrl+k"@[5] != "ctrl+z"@[5]);
    assert("ctrl+k"@[5] != "ctrl+c"@[5]);
    assert("ctrl+u"@[5] != "ctrl+w"@[5]);
    assert("ctrl+u"@[5] != "ctrl+g"@[5]);
    assert("ctrl+u"@[5] != "ctrl+r"@[5]);
    assert("ctrl+u"@[5] != "ctrl+f"@[5]);
    assert("ctrl+u"@[5] != "ctrl+p"@[5]);
    assert("ctrl+u"@[5] != "ctrl+t"@[5]);
    assert("ctrl+u"@[5] != "ctrl+b"@[5]);
    assert("ctrl+u"@[5] != "ctrl+e"@[5]);
    assert("ctrl+u"@[5] != "ctrl+l"@[5]);
    assert("ctrl+u"@[5] != "ctrl+o"@[5]);
    assert("ctrl+u"@[5] != "ctrl+z"@[5]);
    assert("ctrl+u"@[5] != "ctrl+c"@[5]);
    assert("ctrl+w"@[5] != "ctrl+g"@[5]);
    assert("ctrl+w"@[5] != "ctrl+r"@[5]);
    assert("ctrl+w"@[5] != "ctrl+f"@[5]);
    assert("ctrl+w"@[5] != "ctrl+p"@[5]);
    assert("ctrl+w"@[5] != "ctrl+t"@[5]);
    assert("ctrl+w"@[5] != "ctrl+b"@[5]);
    assert("ctrl+w"@[5] != "ctrl+e"@[5]);
    assert("ctrl+w"@[5] != "ctrl+l"@[5]);
    assert("ctrl+w"@[5] != "ctrl+o"@[5]);
    assert("ctrl+w"@[5] != "ctrl+z"@[5]);
    assert("ctrl+w"@[5] != "ctrl+c"@[5]);
    assert("ctrl+g"@[5] != "ctrl+r"@[5]);
    assert("ctrl+g"@[5] != "ctrl+f"@[5]);
    assert("ctrl+g"@[5] != "ctrl+p"@[5]);
    assert("ctrl+g"@[5] != "ctrl+t"@[5]);
    assert("ctrl+g"@[5] != "ctrl+b"@[5]);
    assert("ctrl+g"@[5] != "ctrl+e"@[5]);
    assert("ctrl+g"@[5] != "ctrl+l"@[5]);
    assert("ctrl+g"@[5] != "ctrl+o"@[5]);
    assert("ctrl+g"@[5] != "ctrl+z"@[5]);
    assert("ctrl+g"@[5] != "ctrl+c"@[5]);
    assert("tab"@[0] != "esc"@[0]);
    assert("@ / /"@[0] != "↑ / ↓"@[0]);
    assert("ctrl+r"@[5] != "ctrl+f"@[5]);
    assert("ctrl+r"@[5] != "ctrl+p"@[5]);
    assert("ctrl+r"@[5] != "ctrl+t"@[5]);
    assert("ctrl+r"@[5] != "ctrl+b"@[5]);
    assert("ctrl+r"@[5] != "ctrl+e"@[5]);
    assert("ctrl+r"@[5] != "ctrl+l"@[5]);
    assert("ctrl+r"@[5] != "ctrl+o"@[5]);
    assert("ctrl+r"@[5] != "ctrl+z"@[5]);
    assert("ctrl+r"@[5] != "ctrl+c"@[5]);
    assert("ctrl+f"@[5] != "ctrl+p"@[5]);
    assert("ctrl+f"@[5] != "ctrl+t"@[5]);
    assert("ctrl+f"@[5] != "ctrl+b"@[5]);
    assert("ctrl+f"@[5] != "ctrl+e"@[5]);
    assert("ctrl+f"@[5] != "ctrl+l"@[5]);
    assert("ctrl+f"@[5] != "ctrl+o"@[5]);
    assert("ctrl+f"@[5] != "ctrl+z"@[5]);
    assert("ctrl+f"@[5] != "ctrl+c"@[5]);
    assert("ctrl+p"@[5] != "ctrl+t"@[5]);
    assert("ctrl+p"@[5] != "ctrl+b"@[5]);
    assert("ctrl+p"@[5] != "ctrl+e"@[5]);
    assert("ctrl+p"@[5] != "ctrl+l"@[5]);
    assert("ctrl+p"@[5] != "ctrl+o"@[5]);
    assert("ctrl+p"@[5] != "ctrl+z"@[5]);
    assert("ctrl+p"@[5] != "ctrl+c"@[5]);
    assert("ctrl+t"@[5] != "ctrl+b"@[5]);
    assert("ctrl+t"@[5] != "ctrl+e"@[5]);
    assert("ctrl+t"@[5] != "ctrl+l"@[5]);
    assert("ctrl+t"@[5] != "ctrl+o"@[5]);
    assert("ctrl+t"@[5] != "ctrl+z"@[5]);
    assert("ctrl+t"@[5] != "ctrl+c"@[5]);
    assert("ctrl+b"@[5] != "ctrl+e"@[5]);
    assert("ctrl+b"@[5] != "ctrl+l"@[5]);
    assert("ctrl+b"@[5] != "ctrl+o"@[5]);
    assert("ctrl+b"@[5] != "ctrl+z"@[5]);
    assert("ctrl+b"@[5] != "ctrl+c"@[5]);
    assert("ctrl+e"@[5] != "ctrl+l"@[5]);
    assert("ctrl+e"@[5] != "ctrl+o"@[5]);
    assert("ctrl+e"@[5] != "ctrl+z"@[5]);
    assert("ctrl+e"@[5] != "ctrl+c"@[5]);
    assert("ctrl+l"@[5] != "ctrl+o"@[5]);
    assert("ctrl+l"@[5] != "ctrl+z"@[5]);
    assert("ctrl+l"@[5] != "ctrl+c"@[5]);
    assert("ctrl+o"@[5] != "ctrl+z"@[5]);
    assert("ctrl+o"@[5] != "ctrl+c"@[5]);
    assert("ctrl+z"@[5] != "ctrl+c"@[5]);
    let gs = input_models();
    assert forall|a: int, i: int, b: int, j: int|
        0 <= a < gs.len() && 0 <= i < gs[a].keys.len() && 0 <= b < gs.len() && 0 <= j
            < gs[b].keys.len() && (a != b || i != j) implies #[trigger] gs[a].keys[i].0
            != #[trigger] gs[b].keys[j].0 by {
        if a == 0 && i == 0 {
            assert(gs[a].keys[i].0 == "enter"@);
        } else if a == 0 && i == 1 {
            assert(gs[a].keys[i].0 == "alt+enter"@);
        } else if a == 0 && i == 2 {
            assert(gs[a].keys[i].0 == "ctrl+k"@);
        } else if a == 0 && i == 3 {
            assert(gs[a].keys[i].0 == "ctrl+u"@);
        } else if a == 0 && i == 4 {
            assert(gs[a].keys[i].0 == "ctrl+w"@);
        } else if a == 0 && i == 5 {
            assert(gs[a].keys[i].0 == "ctrl+_ / ctrl+y"@);
        } else if a == 0 && i == 6 {
            assert(gs[a].keys[i].0 == "home / end"@);
        } else if a == 0 && i == 7 {
            assert(gs[a].keys[i].0 == "alt+b / alt+f"@);
        } else if a == 0 && i == 8 {
            assert(gs[a].keys[i].0 == "ctrl+g"@);
        } else if a == 1 && i == 0 {
            assert(gs[a].keys[i].0 == "tab"@);
        } else if a == 1 && i == 1 {
            assert(gs[a].keys[i].0 == "@ / /"@);
        } else if a == 1 && i == 2 {
            assert(gs[a].keys[i].0 == "↑ / ↓"@);
        } else if a == 1 && i == 3 {
            assert(gs[a].keys[i].0 == "ctrl+r"@);
        } else if a == 1 && i == 4 {
            assert(gs[a].keys[i].0 == "ctrl+f"@);
        } else if a == 2 && i == 0 {
            assert(gs[a].keys[i].0 == "ctrl+p"@);
        } else if a == 2 && i == 1 {
            assert(gs[a].keys[i].0 == "ctrl+t"@);
        } else if a == 2 && i == 2 {
            assert(gs[a].keys[i].0 == "ctrl+b"@);
        } else if a == 2 && i == 3 {
            assert(gs[a].keys[i].0 == "pgup / pgdn"@);
        } else if a == 2 && i == 4 {
            assert(gs[a].keys[i].0 == "ctrl+e"@);
        } else if a == 2 && i == 5 {
            assert(gs[a].keys[i].0 == "ctrl+l"@);
        } else if a == 2 && i == 6 {
            assert(gs[a].keys[i].0 == "ctrl+o"@);
        } else if a == 2 && i == 7 {
            assert(gs[a].keys[i].0 == "ctrl+z"@);
        } else if a == 2 && i == 8 {
            assert(gs[a].keys[i].0 == "esc"@);
        } else if a == 2 && i == 9 {
            assert(gs[a].keys[i].0 == "ctrl+c"@);
        }
        if b == 0 && j == 0 {
            assert(gs[b].keys[j].0 == "enter"@);
        } else if b == 0 && j == 1 {
            assert(gs[b].keys[j].0 == "alt+enter"@);
        } else if b == 0 && j == 2 {
            assert(gs[b].keys[j].0 == "ctrl+k"@);
        } else if b == 0 && j == 3 {
            assert(gs[b].keys[j].0 == "ctrl+u"@);
        } else if b == 0 && j == 4 {
            assert(gs[b].keys[j].0 == "ctrl+w"@);
        } else if b == 0 && j == 5 {
            assert(gs[b].keys[j].0 == "ctrl+_ / ctrl+y"@);
        } else if b == 0 && j == 6 {
            assert(gs[b].keys[j].0 == "home / end"@);
        } else if b == 0 && j == 7 {
            assert(gs[b].keys[j].0 == "alt+b / alt+f"@);
        } else if b == 0 && j == 8 {
            assert(gs[b].keys[j].0 == "ctrl+g"@);
        } else if b == 1 && j == 0 {
            assert(gs[b].keys[j].0 == "tab"@);
        } else if b == 1 && j == 1 {
            assert(gs[b].keys[j].0 == "@ / /"@);
        } else if b == 1 && j == 2 {
            assert(gs[b].keys[j].0 == "↑ / ↓"@);
        } else if b == 1 && j == 3 {
            assert(gs[b].keys[j].0 == "ctrl+r"@);
        } else if b == 1 && j == 4 {
            assert(gs[b].keys[j].0 == "ctrl+f"@);
        } else if b == 2 && j == 0 {
            assert(gs[b].keys[j].0 == "ctrl+p"@);
        } else if b == 2 && j == 1 {
            assert(gs[b].keys[j].0 == "ctrl+t"@);
        } else if b == 2 && j == 2 {
            assert(gs[b].keys[j].0 == "ctrl+b"@);
        } else if b == 2 && j == 3 {
            assert(gs[b].keys[j].0 == "pgup / pgdn"@);
        } else if b == 2 && j == 4 {
            assert(gs[b].keys[j].0 == "ctrl+e"@);
        } else if b == 2 && j == 5 {
            assert(gs[b].keys[j].0 == "ctrl+l"@);
        } else if b == 2 && j == 6 {
            assert(gs[b].keys[j].0 == "ctrl+o"@);
        } else if b == 2 && j == 7 {
            assert(gs[b].keys[j].0 == "ctrl+z"@);
        } else if b == 2 && j == 8 {
            assert(gs[b].keys[j].0 == "esc"@);
        } else if b == 2 && j == 9 {
            assert(gs[b].keys[j].0 == "ctrl+c"@);
        }
    }
}

proof fn lemma_distinct_input_sidebar()
    ensures
        keys_distinct(input_models().push(sidebar_model())),
{
    reveal_strlit("enter");
    reveal_strlit("alt+enter");
    reveal_strlit("ctrl+k");
    reveal_strlit("ctrl+u");
    reveal_strlit("ctrl+w");
    reveal_strlit("ctrl+_ / ctrl+y");
    reveal_strlit("home / end");
    reveal_strlit("alt+b / alt+f");
    reveal_strlit("ctrl+g");
    reveal_strlit("tab");
    reveal_strlit("@ / /");
    reveal_strlit("↑ / ↓");
    reveal_strlit("ctrl+r");
    reveal_strlit("ctrl+f");
    reveal_strlit("ctrl+p");
    reveal_strlit("ctrl+t");
    reveal_strlit("ctrl+b");
    reveal_strlit("pgup / pgdn");
    reveal_strlit("ctrl+e");
    reveal_strlit("ctrl+l");
    reveal_strlit("ctrl+o");
    reveal_strlit("ctrl+z");
    reveal_strlit("esc");
    reveal_strlit("ctrl+c");
    reveal_strlit("点侧栏");
    reveal_strlit("点右下角 ‹");
    assert("enter"@[0] != "@ / /"@[0]);
    assert("enter"@[0] != "↑ / ↓"@[0]);
    assert("ctrl+k"@[5] != "ctrl+u"@[5]);
    assert("ctrl+k"@[5] != "ctrl+w"@[5]);
    assert("ctrl+k"@[5] != "ctrl+g"@[5]);
    assert("ctrl+k"@[5] != "ctrl+r"@[5]);
    assert("ctrl+k"@[5] != "ctrl+f"@[5]);
    assert("ctrl+k"@[5] != "ctrl+p"@[5]);
    assert("ctrl+k"@[5] != "ctrl+t"@[5]);
    assert("ctrl+k"@[5] != "ctrl+b"@[5]);
    assert("ctrl+k"@[5] != "ctrl+e"@[5]);
    assert("ctrl+k"@[5] != "ctrl+l"@[5]);
    assert("ctrl+k"@[5] != "ctrl+o"@[5]);
    assert("ctrl+k"@[5] != "ctrl+z"@[5]);
    assert("ctrl+k"@[5] != "ctrl+c"@[5]);
    assert("ctrl+k"@[0] != "点右下角 ‹"@[0]);
    assert("ctrl+u"@[5] != "ctrl+w"@[5]);
    assert("ctrl+u"@[5] != "ctrl+g"@[5]);
    assert("ctrl+u"@[5] != "ctrl+r"@[5]);
    assert("ctrl+u"@[5] != "ctrl+f"@[5]);
    assert("ctrl+u"@[5] != "ctrl+p"@[5]);
    assert("ctrl+u"@[5] != "ctrl+t"@[5]);
    assert("ctrl+u"@[5] != "ctrl+b"@[5]);
    assert("ctrl+u"@[5] != "ctrl+e"@[5]);
    assert("ctrl+u"@[5] != "ctrl+l"@[5]);
    assert("ctrl+u"@[5] != "ctrl+o"@[5]);
    assert("ctrl+u"@[5] != "ctrl+z"@[5]);
    assert("ctrl+u"@[5] != "ctrl+c"@[5]);
    assert("ctrl+u"@[0] != "点右下角 ‹"@[0]);
    assert("ctrl+w"@[5] != "ctrl+g"@[5]);
    assert("ctrl+w"@[5] != "ctrl+r"@[5]);
    assert("ctrl+w"@[5] != "ctrl+f"@[5]);
    assert("ctrl+w"@[5] != "ctrl+p"@[5]);
    assert("ctrl+w"@[5] != "ctrl+t"@[5]);
    assert("ctrl+w"@[5] != "ctrl+b"@[5]);
    assert("ctrl+w"@[5] != "ctrl+e"@[5]);
    assert("ctrl+w"@[5] != "ctrl+l"@[5]);
    assert("ctrl+w"@[5] != "ctrl+o"@[5]);
    assert("ctrl+w"@[5] != "ctrl+z"@[5]);
    assert("ctrl+w"@[5] != "ctrl+c"@[5]);
    assert("ctrl+w"@[0] != "点右下角 ‹"@[0]);
    assert("ctrl+g"@[5] != "ctrl+r"@[5]);
    assert("ctrl+g"@[5] != "ctrl+f"@[5]);
    assert("ctrl+g"@[5] != "ctrl+p"@[5]);
    assert("ctrl+g"@[5] != "ctrl+t"@[5]);
    assert("ctrl+g"@[5] != "ctrl+b"@[5]);
    assert("ctrl+g"@[5] != "ctrl+e"@[5]);
    assert("ctrl+g"@[5] != "ctrl+l"@[5]);
    assert("ctrl+g"@[5] != "ctrl+o"@[5]);
    assert("ctrl+g"@[5] != "ctrl+z"@[5]);
    assert("ctrl+g"@[5] != "ctrl+c"@[5]);
    assert("ctrl+g"@[0] != "点右下角 ‹"@[0]);
    assert("tab"@[0] != "esc"@[0]);
    assert("tab"@[0] != "点侧栏"@[0]);
    assert("@ / /"@[0] != "↑ / ↓"@[0]);
    assert("ctrl+r"@[5] != "ctrl+f"@[5]);
    assert("ctrl+r"@[5] != "ctrl+p"@[5]);
    assert("ctrl+r"@[5] != "ctrl+t"@[5]);
    assert("ctrl+r"@[5] != "ctrl+b"@[5]);
    assert("ctrl+r"@[5] != "ctrl+e"@[5]);
    assert("ctrl+r"@[5] != "ctrl+l"@[5]);
    assert("ctrl+r"@[5] != "ctrl+o"@[5]);
    assert("ctrl+r"@[5] != "ctrl+z"@[5]);
    assert("ctrl+r"@[5] != "ctrl+c"@[5]);
    assert("ctrl+r"@[0] != "点右下角 ‹"@[0]);
    assert("ctrl+f"@[5] != "ctrl+p"@[5]);
    assert("ctrl+f"@[5] != "ctrl+t"@[5]);
    assert("ctrl+f"@[5] != "ctrl+b"@[5]);
    assert("ctrl+f"@[5] != "ctrl+e"@[5]);
    assert("ctrl+f"@[5] != "ctrl+l"@[5]);
    assert("ctrl+f"@[5] != "ctrl+o"@[5]);
    assert("ctrl+f"@[5] != "ctrl+z"@[5]);
    assert("ctrl+f"@[5] != "ctrl+c"@[5]);
    assert("ctrl+f"@[0] != "点右下角 ‹"@[0]);
    assert("ctrl+p"@[5] != "ctrl+t"@[5]);
    assert("ctrl+p"@[5] != "ctrl+b"@[5]);
    assert("ctrl+p"@[5] != "ctrl+e"@[5]);
    assert("ctrl+p"@[5] != "ctrl+l"@[5]);
    assert("ctrl+p"@[5] != "ctrl+o"@[5]);
    assert("ctrl+p"@[5] != "ctrl+z"@[5]);
    assert("ctrl+p"@[5] != "ctrl+c"@[5]);
    assert("ctrl+p"@[0] != "点右下角 ‹"@[0]);
    assert("ctrl+t"@[5] != "ctrl+b"@[5]);
    assert("ctrl+t"@[5] != "ctrl+e"@[5]);
    assert("ctrl+t"@[5] != "ctrl+l"@[5]);
    assert("ctrl+t"@[5] != "ctrl+o"@[5]);
    assert("ctrl+t"@[5] != "ctrl+z"@[5]);
    assert("ctrl+t"@[5] != "ctrl+c"@[5]);
    assert("ctrl+t"@[0] != "点右下角 ‹"@[0]);
    assert("ctrl+b"@[5] != "ctrl+e"@[5]);
    assert("ctrl+b"@[5] != "ctrl+l"@[5]);
    assert("ctrl+b"@[5] != "ctrl+o"@[5]);
    assert("ctrl+b"@[5] != "ctrl+z"@[5]);
    assert("ctrl+b"@[5] != "ctrl+c"@[5]);
    assert("ctrl+b"@[0] != "点右下角 ‹"@[0]);
    assert("ctrl+e"@[5] != "ctrl+l"@[5]);
    assert("ctrl+e"@[5] != "ctrl+o"@[5]);
    assert("ctrl+e"@[5] != "ctrl+z"@[5]);
    assert("ctrl+e"@[5] != "ctrl+c"@[5]);
    assert("ctrl+e"@[0] != "点右下角 ‹"@[0]);
    assert("ctrl+l"@[5] != "ctrl+o"@[5]);
    assert("ctrl+l"@[5] != "ctrl+z"@[5]);
    assert("ctrl+l"@[5] != "ctrl+c"@[5]);
    assert("ctrl+l"@[0] != "点右下角 ‹"@[0]);
    assert("ctrl+o"@[5] != "ctrl+z"@[5]);
    assert("ctrl+o"@[5] != "ctrl+c"@[5]);
    assert("ctrl+o"@[0] != "点右下角 ‹"@[0]);
    assert("ctrl+z"@[5] != "ctrl+c"@[5]);
    assert("ctrl+z"@[0] != "点右下角 ‹"@[0]);
    assert("esc"@[0] != "点侧栏"@[0]);
    assert("ctrl+c"@[0] != "点右下角 ‹"@[0]);
    let gs = input_models().push(sidebar_model());
    assert forall|a: int, i: int, b: int, j: int|
        0 <= a < gs.len() && 0 <= i < gs[a].keys.len() && 0 <= b < gs.len() && 0 <= j
            < gs[b].keys.len() && (a != b || i != j) implies #[trigger] gs[a].keys[i].0
            != #[trigger] gs[b].keys[j].0 by {
        if a == 0 && i == 0 {
            assert(gs[a].keys[i].0 == "enter"@);
        } else if a == 0 && i == 1 {
            assert(gs[a].keys[i].0 == "alt+enter"@);
        } else if a == 0 && i == 2 {
            assert(gs[a].keys[i].0 == "ctrl+k"@);
        } else if a == 0 && i == 3 {
            assert(gs[a].keys[i].0 == "ctrl+u"@);
        } else if a == 0 && i == 4 {
            assert(gs[a].keys[i].0 == "ctrl+w"@);
        } else if a == 0 && i == 5 {
            assert(gs[a].keys[i].0 == "ctrl+_ / ctrl+y"@);
        } else if a == 0 && i == 6 {
            assert(gs[a].keys[i].0 == "home / end"@);
        } else if a == 0 && i == 7 {
            assert(gs[a].keys[i].0 == "alt+b / alt+f"@);
        } else if a == 0 && i == 8 {
            assert(gs[a].keys[i].0 == "ctrl+g"@);
        } else if a == 1 && i == 0 {
            assert(gs[a].keys[i].0 == "tab"@);
        } else if a == 1 && i == 1 {
            assert(gs[a].keys[i].0 == "@ / /"@);
        } else if a == 1 && i == 2 {
            assert(gs[a].keys[i].0 == "↑ / ↓"@);
        } else if a == 1 && i == 3 {
            assert(gs[a].keys[i].0 == "ctrl+r"@);
        } else if a == 1 && i == 4 {
            assert(gs[a].keys[i].0 == "ctrl+f"@);
        } else if a == 2 && i == 0 {
            assert(gs[a].keys[i].0 == "ctrl+p"@);
        } else if a == 2 && i == 1 {
            assert(gs[a].keys[i].0 == "ctrl+t"@);
        } else if a == 2 && i == 2 {
            assert(gs[a].keys[i].0 == "ctrl+b"@);
        } else if a == 2 && i == 3 {
            assert(gs[a].keys[i].0 == "pgup / pgdn"@);
        } else if a == 2 && i == 4 {
            assert(gs[a].keys[i].0 == "ctrl+e"@);
        } else if a == 2 && i == 5 {
            assert(gs[a].keys[i].0 == "ctrl+l"@);
        } else if a == 2 && i == 6 {
            assert(gs[a].keys[i].0 == "ctrl+o"@);
        } else if a == 2 && i == 7 {
            assert(gs[a].keys[i].0 == "ctrl+z"@);
        } else if a == 2 && i == 8 {
            assert(gs[a].keys[i].0 == "esc"@);
        } else if a == 2 && i == 9 {
            assert(gs[a].keys[i].0 == "ctrl+c"@);
        } else if a == 3 && i == 0 {
            assert(gs[a].keys[i].0 == "点侧栏"@);
        } else if a == 3 && i == 1 {
            assert(gs[a].keys[i].0 == "点右下角 ‹"@);
        }
        if b == 0 && j == 0 {
            assert(gs[b].keys[j].0 == "enter"@);
        } else if b == 0 && j == 1 {
            assert(gs[b].keys[j].0 == "alt+enter"@);
        } else if b == 0 && j == 2 {
            assert(gs[b].keys[j].0 == "ctrl+k"@);
        } else if b == 0 && j == 3 {
            assert(gs[b].keys[j].0 == "ctrl+u"@);
        } else if b == 0 && j == 4 {
            assert(gs[b].keys[j].0 == "ctrl+w"@);
        } else if b == 0 && j == 5 {
            assert(gs[b].keys[j].0 == "ctrl+_ / ctrl+y"@);
        } else if b == 0 && j == 6 {
            assert(gs[b].keys[j].0 == "home / end"@);
        } else if b == 0 && j == 7 {
            assert(gs[b].keys[j].0 == "alt+b / alt+f"@);
        } else if b == 0 && j == 8 {
            assert(gs[b].keys[j].0 == "ctrl+g"@);
        } else if b == 1 && j == 0 {
            assert(gs[b].keys[j].0 == "tab"@);
        } else if b == 1 && j == 1 {
            assert(gs[b].keys[j].0 == "@ / /"@);
        } else if b == 1 && j == 2 {
            assert(gs[b].keys[j].0 == "↑ / ↓"@);
        } else if b == 1 && j == 3 {
            assert(gs[b].keys[j].0 == "ctrl+r"@);
        } else if b == 1 && j == 4 {
            assert(gs[b].keys[j].0 == "ctrl+f"@);
        } else if b == 2 && j == 0 {
            assert(gs[b].keys[j].0 == "ctrl+p"@);
        } else if b == 2 && j == 1 {
            assert(gs[b].keys[j].0 == "ctrl+t"@);
        } else if b == 2 && j == 2 {
            assert(gs[b].keys[j].0 == "ctrl+b"@);
        } else if b == 2 && j == 3 {
            assert(gs[b].keys[j].0 == "pgup / pgdn"@);
        } else if b == 2 && j == 4 {
            assert(gs[b].keys[j].0 == "ctrl+e"@);
        } else if b == 2 && j == 5 {
            assert(gs[b].keys[j].0 == "ctrl+l"@);
        } else if b == 2 && j == 6 {
            assert(gs[b].keys[j].0 == "ctrl+o"@);
        } else if b == 2 && j == 7 {
            assert(gs[b].keys[j].0 == "ctrl+z"@);
        } else if b == 2 && j == 8 {
            assert(gs[b].keys[j].0 == "esc"@);
        } else if b == 2 && j == 9 {
            assert(gs[b].keys[j].0 == "ctrl+c"@);
        } else if b == 3 && j == 0 {
            assert(gs[b].keys[j].0 == "点侧栏"@);
        } else if b == 3 && j == 1 {
            assert(gs[b].keys[j].0 == "点右下角 ‹"@);
        }
    }
}

/// No key is listed twice in what one context shows, so no two hints
/// contradict each other.
pub proof fn law_keys_distinct(ctx: Context, sidebar_visible: bool)
    ensures
        keys_distinct(groups_of(ctx, sidebar_visible)),
{
    match ctx {
        Context::Popup => lemma_distinct_popup(),
        Context::Search => lemma_distinct_search(),
        Context::Approval => lemma_distinct_approval(),
        Context::DiffViewer => lemma_distinct_diff(),
        Context::Scrolled => if sidebar_visible {
            lemma_distinct_scrolled_sidebar();
        } else {
            lemma_distinct_scrolled();
        },
        Context::Sidebar => lemma_distinct_input_sidebar(),
        Context::Input => if sidebar_visible {
            lemma_distinct_input_sidebar();
        } else {
            lemma_distinct_input();
        },
    }
}


/// The sidebar's group is listed in the input context exactly when the
/// sidebar is visible.
pub proof fn law_sidebar_group_follows_visibility()
    ensures
        groups_of(Context::Input, true).contains(sidebar_model()),
        !groups_of(Context::Input, false).contains(sidebar_model()),
        groups_of(Context::Sidebar, false).contains(sidebar_model()),
{
    reveal_strlit("侧栏（鼠标）");
    reveal_strlit("提交 / 编辑");
    reveal_strlit("历史与补全");
    reveal_strlit("界面");
    let with = groups_of(Context::Input, true);
    assert(with[3] == sidebar_model());
    let without = groups_of(Context::Input, false);
    assert forall|k: int| 0 <= k < without.len() implies without[k] != sidebar_model() by {
        assert(without[k].title.len() != sidebar_model().title.len());
    }
    assert(groups_of(Context::Sidebar, false)[3] == sidebar_model());
}

} // verus!
