//! The command registry: the single source for `/` commands and the
//! `ctrl+p` palette. Only commands that are really implemented are listed;
//! every one maps to an `Action`.
use vstd::prelude::*;
use crate::theme::ThemeName;
use crate::appearance::{Background, LogoStyle};
use crate::text::{contains, contains_exec, chars_of, trim, ascii_lower, trim_str, to_ascii_lower,
    seq_eq, push_str, is_ws, is_whitespace, lead_ws, leading_ws_len, lemma_lead_ws_bound};

verus! {

/// Command group (sections of the palette).
#[derive(Debug, Clone, Copy, PartialEq, Eq, Structural)]
pub enum Category {
    /// Most used (shown first).
    Recommended,
    /// Conversation and session.
    Session,
    /// Display.
    Display,
    /// System and information.
    System,
}

impl Category {
    pub open spec fn title_of(self) -> Seq<char> {
        match self {
            Category::Recommended => "推荐"@,
            Category::Session => "会话"@,
            Category::Display => "显示"@,
            Category::System => "系统"@,
        }
    }

    pub open spec fn rank(self) -> int {
        match self {
            Category::Recommended => 0,
            Category::Session => 1,
            Category::Display => 2,
            Category::System => 3,
        }
    }

    pub fn title(self) -> (r: &'static str)
        ensures
            r@ == self.title_of(),
    {
        match self {
            Category::Recommended => "推荐",
            Category::Session => "会话",
            Category::Display => "显示",
            Category::System => "系统",
        }
    }

    /// Display order: recommended, session, display, system.
    pub fn order(self) -> (r: usize)
        ensures
            r == self.rank(),
    {
        match self {
            Category::Recommended => 0,
            Category::Session => 1,
            Category::Display => 2,
            Category::System => 3,
        }
    }

    pub fn all() -> (r: [Category; 4])
        ensures
            r@ == seq![Category::Recommended, Category::Session, Category::Display, Category::System],
    {
        let r = [Category::Recommended, Category::Session, Category::Display, Category::System];
        assert(r@ =~= seq![Category::Recommended, Category::Session, Category::Display, Category::System]);
        r
    }
}

/// What a command does (a closed list, matched exhaustively where it runs).
#[derive(Debug, Clone, Copy, PartialEq, Eq, Structural)]
pub enum Action {
    /// Quit.
    Quit,
    /// Clear the transcript (keeps the current kernel session).
    NewSession,
    /// Compact the context.
    Compact,
    /// Open the theme picker.
    ThemePicker,
    /// Switch straight to the next theme.
    NextTheme,
    /// Set a theme.
    SetTheme(ThemeName),
    /// Show help.
    Help,
    /// Show key bindings.
    Keys,
    /// Show status (model / sandbox / workspace / branch / theme / tools).
    Status,
    /// Open the full-screen diff viewer.
    DiffViewer,
    /// Rewind the conversation one turn (files are not restored).
    Rewind,
    /// Expand / collapse tool output.
    ToggleDetails,
    /// Show / hide reasoning.
    ToggleThinking,
    /// Copy the last reply to the clipboard.
    CopyLastReply,
    /// Open settings (system / model / session).
    Settings,
    /// Collapse / expand the sidebar.
    ToggleSidebar,
    /// Notifications on / off.
    ToggleNotify,
    /// Notification sound on / off.
    ToggleNotifySound,
    /// Switch the background texture.
    NextBackground,
    /// Open the background picker.
    BackgroundPicker,
    /// Switch the logo style.
    NextLogo,
    /// Open the logo style picker.
    LogoPicker,
    /// Set the background.
    SetBackground(Background),
    /// Set the logo style.
    SetLogo(LogoStyle),
    /// Open the model list.
    ModelPicker,
    /// Switch to a model (the name is carried by the list item).
    SwitchModel,
    /// Open the session list.
    SessionPicker,
    /// Start a new session (a new log file; the old one is kept).
    NewSessionReal,
}

/// The variant name of an action.
pub open spec fn action_name(a: Action) -> Seq<char> {
    match a {
        Action::Quit => "Quit"@,
        Action::NewSession => "NewSession"@,
        Action::Compact => "Compact"@,
        Action::ThemePicker => "ThemePicker"@,
        Action::NextTheme => "NextTheme"@,
        Action::SetTheme(_) => "SetTheme"@,
        Action::Help => "Help"@,
        Action::Keys => "Keys"@,
        Action::Status => "Status"@,
        Action::DiffViewer => "DiffViewer"@,
        Action::Rewind => "Rewind"@,
        Action::ToggleDetails => "ToggleDetails"@,
        Action::ToggleThinking => "ToggleThinking"@,
        Action::CopyLastReply => "CopyLastReply"@,
        Action::Settings => "Settings"@,
        Action::ToggleSidebar => "ToggleSidebar"@,
        Action::ToggleNotify => "ToggleNotify"@,
        Action::ToggleNotifySound => "ToggleNotifySound"@,
        Action::NextBackground => "NextBackground"@,
        Action::BackgroundPicker => "BackgroundPicker"@,
        Action::NextLogo => "NextLogo"@,
        Action::LogoPicker => "LogoPicker"@,
        Action::SetBackground(_) => "SetBackground"@,
        Action::SetLogo(_) => "SetLogo"@,
        Action::ModelPicker => "ModelPicker"@,
        Action::SwitchModel => "SwitchModel"@,
        Action::SessionPicker => "SessionPicker"@,
        Action::NewSessionReal => "NewSessionReal"@,
    }
}

/// The variant name of an action (for diagnostics).
pub fn action_label(a: Action) -> (r: &'static str)
    ensures
        r@ == action_name(a),
{
    match a {
        Action::Quit => "Quit",
        Action::NewSession => "NewSession",
        Action::Compact => "Compact",
        Action::ThemePicker => "ThemePicker",
        Action::NextTheme => "NextTheme",
        Action::SetTheme(_) => "SetTheme",
        Action::Help => "Help",
        Action::Keys => "Keys",
        Action::Status => "Status",
        Action::DiffViewer => "DiffViewer",
        Action::Rewind => "Rewind",
        Action::ToggleDetails => "ToggleDetails",
        Action::ToggleThinking => "ToggleThinking",
        Action::CopyLastReply => "CopyLastReply",
        Action::Settings => "Settings",
        Action::ToggleSidebar => "ToggleSidebar",
        Action::ToggleNotify => "ToggleNotify",
        Action::ToggleNotifySound => "ToggleNotifySound",
        Action::NextBackground => "NextBackground",
        Action::BackgroundPicker => "BackgroundPicker",
        Action::NextLogo => "NextLogo",
        Action::LogoPicker => "LogoPicker",
        Action::SetBackground(_) => "SetBackground",
        Action::SetLogo(_) => "SetLogo",
        Action::ModelPicker => "ModelPicker",
        Action::SwitchModel => "SwitchModel",
        Action::SessionPicker => "SessionPicker",
        Action::NewSessionReal => "NewSessionReal",
    }
}

/// One slash command.
#[derive(Debug, Clone, PartialEq, Eq)]
pub struct Command {
    /// Name without the `/`.
    pub name: &'static str,
    pub aliases: Vec<&'static str>,
    pub desc: &'static str,
    pub action: Action,
    pub category: Category,
    /// Keyboard shortcut shown beside it (empty if none).
    pub keybinding: &'static str,
}

/// The abstract command.
pub struct CommandModel {
    pub name: Seq<char>,
    pub aliases: Seq<Seq<char>>,
    pub desc: Seq<char>,
    pub action: Action,
    pub category: Category,
    pub keybinding: Seq<char>,
}

impl View for Command {
    type V = CommandModel;

    open spec fn view(&self) -> CommandModel {
        CommandModel {
            name: self.name@,
            aliases: self.aliases@.map_values(|a: &str| a@),
            desc: self.desc@,
            action: self.action,
            category: self.category,
            keybinding: self.keybinding@,
        }
    }
}

pub open spec fn cmds_view(v: Seq<Command>) -> Seq<CommandModel> {
    v.map_values(|c: Command| c@)
}

/// The command table, in the order of the `/` list (most used first).
pub open spec fn table() -> Seq<CommandModel> {
    seq![
        CommandModel {
            name: "settings"@,
            aliases: seq!["config"@],
            desc: "设置（系统 / 模型 / 会话）"@,
            action: Action::Settings,
            category: Category::Recommended,
            keybinding: ""@,
        },
        CommandModel {
            name: "theme"@,
            aliases: seq!["themes"@],
            desc: "切换配色主题"@,
            action: Action::ThemePicker,
            category: Category::Recommended,
            keybinding: "ctrl+t"@,
        },
        CommandModel {
            name: "next"@,
            aliases: seq!["next-theme"@],
            desc: "直接切到下一个主题"@,
            action: Action::NextTheme,
            category: Category::Recommended,
            keybinding: "ctrl+t"@,
        },
        CommandModel {
            name: "details"@,
            aliases: seq!["d"@],
            desc: "展开 / 折叠工具输出"@,
            action: Action::ToggleDetails,
            category: Category::Recommended,
            keybinding: ""@,
        },
        CommandModel {
            name: "copy"@,
            aliases: seq!["yank"@],
            desc: "复制最近一条回复"@,
            action: Action::CopyLastReply,
            category: Category::Recommended,
            keybinding: ""@,
        },
        CommandModel {
            name: "new"@,
            aliases: seq!["clear"@],
            desc: "开始新会话（新日志文件，旧会话保留）"@,
            action: Action::NewSessionReal,
            category: Category::Session,
            keybinding: ""@,
        },
        CommandModel {
            name: "undo"@,
            aliases: seq!["rewind"@],
            desc: "回退对话一轮（不还原文件）"@,
            action: Action::Rewind,
            category: Category::Session,
            keybinding: ""@,
        },
        CommandModel {
            name: "diff"@,
            aliases: seq!["changes"@],
            desc: "查看本次会话的改动"@,
            action: Action::DiffViewer,
            category: Category::Session,
            keybinding: "审批时按 d"@,
        },
        CommandModel {
            name: "compact"@,
            aliases: seq!["summarize"@],
            desc: "压缩上下文（把较早消息摘要为一条）"@,
            action: Action::Compact,
            category: Category::Session,
            keybinding: ""@,
        },
        CommandModel {
            name: "thinking"@,
            aliases: seq!["think"@],
            desc: "显示 / 隐藏推理过程"@,
            action: Action::ToggleThinking,
            category: Category::Display,
            keybinding: ""@,
        },
        CommandModel {
            name: "sidebar"@,
            aliases: seq!["panel"@],
            desc: "收起 / 展开右侧面板"@,
            action: Action::ToggleSidebar,
            category: Category::Display,
            keybinding: "ctrl+b"@,
        },
        CommandModel {
            name: "notify"@,
            aliases: seq!["attention"@],
            desc: "开 / 关提醒（完成 / 出错 / 需审批）"@,
            action: Action::ToggleNotify,
            category: Category::Display,
            keybinding: ""@,
        },
        CommandModel {
            name: "notify-sound"@,
            aliases: seq!["sound"@],
            desc: "开 / 关提醒声音"@,
            action: Action::ToggleNotifySound,
            category: Category::Display,
            keybinding: ""@,
        },
        CommandModel {
            name: "background"@,
            aliases: seq!["bg"@],
            desc: "切换背景纹理（星场/点阵/斜纹/纯色）"@,
            action: Action::NextBackground,
            category: Category::Display,
            keybinding: ""@,
        },
        CommandModel {
            name: "background-list"@,
            aliases: seq!["bg-list"@],
            desc: "选择背景纹理"@,
            action: Action::BackgroundPicker,
            category: Category::Display,
            keybinding: ""@,
        },
        CommandModel {
            name: "logo"@,
            aliases: seq!["logo-style"@],
            desc: "切换 Logo 样式（大/小/极简/隐藏）"@,
            action: Action::NextLogo,
            category: Category::Display,
            keybinding: ""@,
        },
        CommandModel {
            name: "logo-list"@,
            aliases: seq!["logo-styles"@],
            desc: "选择 Logo 样式"@,
            action: Action::LogoPicker,
            category: Category::Display,
            keybinding: ""@,
        },
        CommandModel {
            name: "models"@,
            aliases: seq!["model"@],
            desc: "切换模型（运行时，无需重启）"@,
            action: Action::ModelPicker,
            category: Category::Recommended,
            keybinding: ""@,
        },
        CommandModel {
            name: "sessions"@,
            aliases: seq!["resume"@, "continue"@],
            desc: "切换会话（列出全部，含标题）"@,
            action: Action::SessionPicker,
            category: Category::Session,
            keybinding: ""@,
        },
        CommandModel {
            name: "keys"@,
            aliases: seq!["keybindings"@],
            desc: "键盘快捷键"@,
            action: Action::Keys,
            category: Category::Display,
            keybinding: "ctrl+o"@,
        },
        CommandModel {
            name: "status"@,
            aliases: seq!["info"@],
            desc: "运行状态与环境"@,
            action: Action::Status,
            category: Category::System,
            keybinding: ""@,
        },
        CommandModel {
            name: "help"@,
            aliases: Seq::empty(),
            desc: "显示帮助"@,
            action: Action::Help,
            category: Category::System,
            keybinding: ""@,
        },
        CommandModel {
            name: "exit"@,
            aliases: seq!["quit"@, "q"@],
            desc: "退出 Neo"@,
            action: Action::Quit,
            category: Category::System,
            keybinding: "ctrl+c"@,
        },
    ]
}

/// Actions that must be reachable from some command.
pub open spec fn command_actions() -> Seq<Action> {
    seq![Action::Quit, Action::Compact, Action::ThemePicker, Action::NextTheme, Action::Help, Action::Keys, Action::Status, Action::DiffViewer, Action::Rewind, Action::ToggleDetails, Action::ToggleThinking, Action::CopyLastReply, Action::Settings, Action::ToggleSidebar, Action::ToggleNotify, Action::ToggleNotifySound, Action::NextBackground, Action::BackgroundPicker, Action::NextLogo, Action::LogoPicker, Action::ModelPicker, Action::SessionPicker, Action::NewSessionReal]
}

/// Actions produced only inside the interface (never registered as commands).
pub open spec fn internal_only_actions() -> Seq<Action> {
    seq![Action::NewSession, Action::SwitchModel, Action::SetTheme(ThemeName::Nord), Action::SetBackground(Background::Dots), Action::SetLogo(LogoStyle::Small)]
}

fn aliases0() -> (r: Vec<&'static str>)
    ensures
        r@.map_values(|x: &str| x@) == Seq::<Seq<char>>::empty(),
{
    let r: Vec<&'static str> = Vec::new();
    assert(r@.map_values(|x: &str| x@) =~= Seq::<Seq<char>>::empty());
    r
}

fn aliases1(a: &'static str) -> (r: Vec<&'static str>)
    ensures
        r@.map_values(|x: &str| x@) == seq![a@],
{
    let mut r: Vec<&'static str> = Vec::new();
    r.push(a);
    assert(r@.map_values(|x: &str| x@) =~= seq![a@]);
    r
}

fn aliases2(a: &'static str, b: &'static str) -> (r: Vec<&'static str>)
    ensures
        r@.map_values(|x: &str| x@) == seq![a@, b@],
{
    let mut r: Vec<&'static str> = Vec::new();
    r.push(a);
    r.push(b);
    assert(r@.map_values(|x: &str| x@) =~= seq![a@, b@]);
    r
}

/// All commands, in display order.
pub fn registry() -> (r: Vec<Command>)
    ensures
        cmds_view(r@) == table(),
{
    let mut r: Vec<Command> = Vec::new();
    r.push(Command {
        name: "settings",
        aliases: aliases1("config"),
        desc: "设置（系统 / 模型 / 会话）",
        action: Action::Settings,
        category: Category::Recommended,
        keybinding: "",
    });
    r.push(Command {
        name: "theme",
        aliases: aliases1("themes"),
        desc: "切换配色主题",
        action: Action::ThemePicker,
        category: Category::Recommended,
        keybinding: "ctrl+t",
    });
    r.push(Command {
        name: "next",
        aliases: aliases1("next-theme"),
        desc: "直接切到下一个主题",
        action: Action::NextTheme,
        category: Category::Recommended,
        keybinding: "ctrl+t",
    });
    r.push(Command {
        name: "details",
        aliases: aliases1("d"),
        desc: "展开 / 折叠工具输出",
        action: Action::ToggleDetails,
        category: Category::Recommended,
        keybinding: "",
    });
    r.push(Command {
        name: "copy",
        aliases: aliases1("yank"),
        desc: "复制最近一条回复",
        action: Action::CopyLastReply,
        category: Category::Recommended,
        keybinding: "",
    });
    r.push(Command {
        name: "new",
        aliases: aliases1("clear"),
        desc: "开始新会话（新日志文件，旧会话保留）",
        action: Action::NewSessionReal,
        category: Category::Session,
        keybinding: "",
    });
    r.push(Command {
        name: "undo",
        aliases: aliases1("rewind"),
        desc: "回退对话一轮（不还原文件）",
        action: Action::Rewind,
        category: Category::Session,
        keybinding: "",
    });
    r.push(Command {
        name: "diff",
        aliases: aliases1("changes"),
        desc: "查看本次会话的改动",
        action: Action::DiffViewer,
        category: Category::Session,
        keybinding: "审批时按 d",
    });
    r.push(Command {
        name: "compact",
        aliases: aliases1("summarize"),
        desc: "压缩上下文（把较早消息摘要为一条）",
        action: Action::Compact,
        category: Category::Session,
        keybinding: "",
    });
    r.push(Command {
        name: "thinking",
        aliases: aliases1("think"),
        desc: "显示 / 隐藏推理过程",
        action: Action::ToggleThinking,
        category: Category::Display,
        keybinding: "",
    });
    r.push(Command {
        name: "sidebar",
        aliases: aliases1("panel"),
        desc: "收起 / 展开右侧面板",
        action: Action::ToggleSidebar,
        category: Category::Display,
        keybinding: "ctrl+b",
    });
    r.push(Command {
        name: "notify",
        aliases: aliases1("attention"),
        desc: "开 / 关提醒（完成 / 出错 / 需审批）",
        action: Action::ToggleNotify,
        category: Category::Display,
        keybinding: "",
    });
    r.push(Command {
        name: "notify-sound",
        aliases: aliases1("sound"),
        desc: "开 / 关提醒声音",
        action: Action::ToggleNotifySound,
        category: Category::Display,
        keybinding: "",
    });
    r.push(Command {
        name: "background",
        aliases: aliases1("bg"),
        desc: "切换背景纹理（星场/点阵/斜纹/纯色）",
        action: Action::NextBackground,
        category: Category::Display,
        keybinding: "",
    });
    r.push(Command {
        name: "background-list",
        aliases: aliases1("bg-list"),
        desc: "选择背景纹理",
        action: Action::BackgroundPicker,
        category: Category::Display,
        keybinding: "",
    });
    r.push(Command {
        name: "logo",
        aliases: aliases1("logo-style"),
        desc: "切换 Logo 样式（大/小/极简/隐藏）",
        action: Action::NextLogo,
        category: Category::Display,
        keybinding: "",
    });
    r.push(Command {
        name: "logo-list",
        aliases: aliases1("logo-styles"),
        desc: "选择 Logo 样式",
        action: Action::LogoPicker,
        category: Category::Display,
        keybinding: "",
    });
    r.push(Command {
        name: "models",
        aliases: aliases1("model"),
        desc: "切换模型（运行时，无需重启）",
        action: Action::ModelPicker,
        category: Category::Recommended,
        keybinding: "",
    });
    r.push(Command {
        name: "sessions",
        aliases: aliases2("resume", "continue"),
        desc: "切换会话（列出全部，含标题）",
        action: Action::SessionPicker,
        category: Category::Session,
        keybinding: "",
    });
    r.push(Command {
        name: "keys",
        aliases: aliases1("keybindings"),
        desc: "键盘快捷键",
        action: Action::Keys,
        category: Category::Display,
        keybinding: "ctrl+o",
    });
    r.push(Command {
        name: "status",
        aliases: aliases1("info"),
        desc: "运行状态与环境",
        action: Action::Status,
        category: Category::System,
        keybinding: "",
    });
    r.push(Command {
        name: "help",
        aliases: aliases0(),
        desc: "显示帮助",
        action: Action::Help,
        category: Category::System,
        keybinding: "",
    });
    r.push(Command {
        name: "exit",
        aliases: aliases2("quit", "q"),
        desc: "退出 Neo",
        action: Action::Quit,
        category: Category::System,
        keybinding: "ctrl+c",
    });
    proof {
        assert(cmds_view(r@) =~= table());
    }
    r
}

/// Text of `/help`.
pub const HELP_TEXT: &'static str = "\
Neo —— 编程 Agent 内核

输入
  直接输入任务并回车即可。以 @ 引用文件、以 ! 直接执行 shell 命令、
  以 / 唤起命令。

引用
  @            打开文件列表（↑↓ 选择，Enter 确认）
  @src/main.rs 直接引用某个文件
  @file#12-40  引用该文件的第 12–40 行

命令
  打 / 唤起命令列表（也可 ctrl+p 打开命令面板）。可用命令：
    /settings  设置（系统 / 模型 / 会话）
    /help      显示帮助
    /keys      键盘快捷键
    /status    运行状态与环境
    /diff      查看改动（全屏：hunk/文件跳转、双列视图）
    /sessions  切换会话（别名 resume / continue）
    /new       新建会话（旧会话保留，可 /sessions 切回）
    /undo      回退对话一轮（**不还原文件**，见下方说明）
    /details   展开 / 折叠工具输出（失败时总是展示）
    /thinking  显示 / 隐藏推理过程
    /copy      复制最近一条回复到系统剪贴板
    /diff      查看改动（全屏查看器：hunk/文件跳转、双列视图）
    /theme     选择配色主题（6 套）
    /next      直接切到下一个主题
    /sidebar   收起 / 展开右侧面板
    /notify    开 / 关提醒（默认关）
    /notify-sound 开 / 关提醒声音
    /background  切换背景纹理（/background-list 可选）
    /logo        切换 Logo 样式（/logo-list 可选）
    /models      切换模型（运行时，无需重启）
    /goal        目标编排：/goal <目标>（每行一个子任务）开始并逐步执行；
                 /goal pause|resume|clear 暂停 / 恢复 / 清除；/goal 看状态
    /copy      复制最近一条回复
    /details   展开 / 折叠工具输出
    /thinking  显示 / 隐藏推理
    /compact   压缩上下文（把较早消息摘要为一条，腾出预算）
    /exit      退出（别名 quit / q）

多行输入
  输入框支持多行（最多显示 6 行，超出滚到末尾）。
  在多数终端里 shift+enter / alt+enter 会插入换行。

按键
  tab          在 @ 上下文中补全
  ↑ / ↓        本缓冲内移动；已在首/末行则走历史
  ← / →        移动光标（可跨行）
  home / end   行首 / 行尾
  alt+b / alt+f  按词移动
  ctrl+k       删到行尾      ctrl+u  删到行首
  ctrl+w       删前一个词    delete  删除光标处字符
  ctrl+_       撤销          ctrl+y  重做
  ctrl+r       搜索历史（输入框）
  ctrl+g       用 $EDITOR 编辑当前输入
  ctrl+p       命令面板      ctrl+t  切换主题
  ctrl+b       侧栏开关      ctrl+l  清屏
  ctrl+o       键位提示（显示当前上下文可用的键）
  ctrl+z       挂起回 shell（`fg` 恢复；需终端支持作业控制）
  esc          关闭弹窗 / 清空输入 / 退出搜索
  ctrl+c       退出

阅读转录
  pageup / pagedown   半页上下滚动
  ctrl+home / ctrl+e  跳到最顶 / 回到最新
  ctrl+f              搜索转录（回车确认，esc 取消）
  ctrl+n / ctrl+p     下一个 / 上一个匹配";

/// Text of `/keys` (same key wording as the help text).
pub const KEYS_TEXT: &'static str = "\
键盘快捷键

  提交 / 输入
    enter        提交任务（弹窗打开时为确认选择）
    ctrl+g       用 $EDITOR / $VISUAL 编辑当前输入

  补全与引用
    @            打开文件列表
    tab          在 @ 上下文中补全为最佳匹配
    @file#a-b    引用行范围

  历史
    ↑ / ↓        浏览历史
    ctrl+r       按当前输入搜索历史

  界面
    /            命令列表
    ctrl+p       命令面板
    ctrl+t       下一个主题
    ctrl+l       清屏
    esc          关闭弹窗

  退出
    ctrl+c       退出（备用屏整块还原）";

/// The help text.
pub fn help_text() -> (r: &'static str)
    ensures
        r == HELP_TEXT,
{
    HELP_TEXT
}

/// The key-binding text.
pub fn keys_text() -> (r: &'static str)
    ensures
        r == KEYS_TEXT,
{
    KEYS_TEXT
}

} // verus!

verus! {

/// The branch as shown on the status screen.
pub open spec fn branch_shown(b: Seq<char>) -> Seq<char> {
    if b.len() == 0 {
        "（不在 git 仓库）"@
    } else {
        b
    }
}

/// The status screen text.
pub open spec fn status_text_of(a: crate::tui::About, theme_name: Seq<char>) -> Seq<char> {
    "运行状态\n\n  版本      "@ + a.version@ + "\n  模型      "@ + a.model@ + "\n  档位      "@ + a.mode@ + "\n  工作区    "@ + a.workspace@ + "\n  分支      "@ + branch_shown(a.branch@) + "\n  会话      "@ + a.session@ + "\n  主题      "@ + theme_name + "\n\n沙箱\n  模式      "@ + a.mode_short@ + "（OS 级强制；受限档位在无后端平台 fail-closed）\n  写入      fail-closed：无沙箱后端时拒绝执行，不降级放行\n\n能力\n  工具      bash / apply_patch / todowrite / 提问\n  已实现    上下文引用（@file / $skill）、项目指令级联（AGENTS.md）、\n            上下文压缩（/compact）、多会话、服务商注册表（providers.json）、\n            目标编排（/goal，四阶段 + 重试 + 判停）、MCP 外部工具\n  未实现    桌面 webview 窗口层\n"@
}

/// Status screen text (`/status`), from the injected `About`.
pub fn status_text(a: &crate::tui::About, theme_name: &str) -> (r: String)
    ensures
        r@ == status_text_of(*a, theme_name@),
{
    let branch = if a.branch.as_str().is_empty() {
        "（不在 git 仓库）"
    } else {
        a.branch.as_str()
    };
    let mut s = String::new();
    push_str(&mut s, "运行状态\n\n  版本      ");
    push_str(&mut s, a.version.as_str());
    push_str(&mut s, "\n  模型      ");
    push_str(&mut s, a.model.as_str());
    push_str(&mut s, "\n  档位      ");
    push_str(&mut s, a.mode.as_str());
    push_str(&mut s, "\n  工作区    ");
    push_str(&mut s, a.workspace.as_str());
    push_str(&mut s, "\n  分支      ");
    push_str(&mut s, branch);
    push_str(&mut s, "\n  会话      ");
    push_str(&mut s, a.session.as_str());
    push_str(&mut s, "\n  主题      ");
    push_str(&mut s, theme_name);
    push_str(&mut s, "\n\n沙箱\n  模式      ");
    push_str(&mut s, a.mode_short.as_str());
    push_str(&mut s, "（OS 级强制；受限档位在无后端平台 fail-closed）\n  写入      fail-closed：无沙箱后端时拒绝执行，不降级放行\n\n能力\n  工具      bash / apply_patch / todowrite / 提问\n  已实现    上下文引用（@file / $skill）、项目指令级联（AGENTS.md）、\n            上下文压缩（/compact）、多会话、服务商注册表（providers.json）、\n            目标编排（/goal，四阶段 + 重试 + 判停）、MCP 外部工具\n  未实现    桌面 webview 窗口层\n");
    s
}

// ── matching and resolving ───────────────────────────────────────────

/// Whether a command matches a (trimmed, lower-cased) query: by name or by
/// an alias containing it; everything matches an empty query.
pub open spec fn cmd_matches(c: CommandModel, q: Seq<char>) -> bool {
    q.len() == 0 || contains(c.name, q) || exists|i: int|
        0 <= i < c.aliases.len() && contains(#[trigger] c.aliases[i], q)
}

/// The matching commands among the first `n`, in table order.
pub open spec fn filtered(cs: Seq<CommandModel>, q: Seq<char>, n: int) -> Seq<CommandModel>
    decreases n,
{
    if n <= 0 {
        Seq::empty()
    } else if cmd_matches(cs[n - 1], q) {
        filtered(cs, q, n - 1).push(cs[n - 1])
    } else {
        filtered(cs, q, n - 1)
    }
}

/// A copy of a command.
pub fn copy_command(c: &Command) -> (r: Command)
    ensures
        r@ == c@,
{
    let mut aliases: Vec<&'static str> = Vec::new();
    for i in 0..c.aliases.len()
        invariant
            aliases@ == c.aliases@.take(i as int),
    {
        assert(c.aliases@.take(i + 1) =~= c.aliases@.take(i as int).push(c.aliases@[i as int]));
        aliases.push(c.aliases[i]);
    }
    assert(c.aliases@.take(c.aliases@.len() as int) =~= c.aliases@);
    Command {
        name: c.name,
        aliases,
        desc: c.desc,
        action: c.action,
        category: c.category,
        keybinding: c.keybinding,
    }
}

fn cmd_matches_exec(c: &Command, q: &[char]) -> (r: bool)
    ensures
        r == cmd_matches(c@, q@),
{
    if q.len() == 0 {
        return true;
    }
    let name = chars_of(c.name);
    if contains_exec(name.as_slice(), q) {
        return true;
    }
    for i in 0..c.aliases.len()
        invariant
            forall|j: int| 0 <= j < i ==> !contains(#[trigger] c@.aliases[j], q@),
            q@.len() > 0,
            !contains(c@.name, q@),
    {
        let a = chars_of(c.aliases[i]);
        if contains_exec(a.as_slice(), q) {
            assert(contains(c@.aliases[i as int], q@));
            return true;
        }
    }
    false
}

/// Commands whose name or an alias contains the query (trimmed,
/// ASCII-case-insensitive); an empty query lists them all.
pub fn matches(query: &str) -> (r: Vec<Command>)
    ensures
        cmds_view(r@) == filtered(table(), ascii_lower(trim(query@)), table().len() as int),
{
    let t = trim_str(query);
    let tv = chars_of(t);
    let q = to_ascii_lower(tv.as_slice());
    let reg = registry();
    let n = reg.len();
    let mut r: Vec<Command> = Vec::new();
    let mut i: usize = 0;
    while i < n
        invariant
            n == reg@.len(),
            i <= n,
            cmds_view(reg@) == table(),
            cmds_view(r@) == filtered(table(), q@, i as int),
        decreases n - i,
    {
        assert(reg@[i as int]@ == table()[i as int]);
        if cmd_matches_exec(&reg[i], q.as_slice()) {
            let c = copy_command(&reg[i]);
            let ghost r0 = r@;
            r.push(c);
            assert(cmds_view(r@) =~= cmds_view(r0).push(c@));
        }
        i = i + 1;
    }
    r
}

/// Number of leading `'/'` characters.
pub open spec fn lead_slashes(s: Seq<char>) -> nat
    decreases s.len(),
{
    if s.len() > 0 && s[0] == '/' {
        1 + lead_slashes(s.drop_first())
    } else {
        0
    }
}

/// The key a typed command is looked up by: trimmed, leading slashes
/// dropped, ASCII lower-cased.
pub open spec fn command_key(s: Seq<char>) -> Seq<char> {
    let t = trim(s);
    ascii_lower(t.skip(lead_slashes(t) as int))
}

/// A command answers to `n` by its name or one of its aliases.
pub open spec fn answers_to(c: CommandModel, n: Seq<char>) -> bool {
    c.name == n || exists|i: int| 0 <= i < c.aliases.len() && #[trigger] c.aliases[i] == n
}

/// Index of the first of the first `k` commands that answers to `n`.
pub open spec fn first_answering(cs: Seq<CommandModel>, n: Seq<char>, k: int) -> Option<int>
    decreases k,
{
    if k <= 0 {
        None
    } else {
        match first_answering(cs, n, k - 1) {
            Some(i) => Some(i),
            None => if answers_to(cs[k - 1], n) {
                Some(k - 1)
            } else {
                None
            },
        }
    }
}

proof fn lemma_first_answering_stable(cs: Seq<CommandModel>, n: Seq<char>, k: int, k2: int)
    requires
        k <= k2,
        first_answering(cs, n, k) is Some,
    ensures
        first_answering(cs, n, k2) == first_answering(cs, n, k),
    decreases k2 - k,
{
    if k < k2 {
        lemma_first_answering_stable(cs, n, k, k2 - 1);
    }
}

fn answers_to_exec(c: &Command, n: &[char]) -> (r: bool)
    ensures
        r == answers_to(c@, n@),
{
    let name = chars_of(c.name);
    if seq_eq(name.as_slice(), n) {
        return true;
    }
    for i in 0..c.aliases.len()
        invariant
            forall|j: int| 0 <= j < i ==> #[trigger] c@.aliases[j] != n@,
            c@.name != n@,
    {
        let a = chars_of(c.aliases[i]);
        if seq_eq(a.as_slice(), n) {
            assert(c@.aliases[i as int] == n@);
            return true;
        }
    }
    false
}

/// Resolve a typed `/name` (leading slash optional, case-insensitive).
pub fn resolve(name: &str) -> (r: Option<Command>)
    ensures
        match first_answering(table(), command_key(name@), table().len() as int) {
            Some(i) => r matches Some(c) && c@ == table()[i],
            None => r is None,
        },
{
    let t = trim_str(name);
    let tv = chars_of(t);
    let mut k: usize = 0;
    assert(tv@.skip(0) =~= tv@);
    while k < tv.len() && tv[k] == '/'
        invariant
            k <= tv@.len(),
            lead_slashes(tv@) == k + lead_slashes(tv@.skip(k as int)),
        decreases tv@.len() - k,
    {
        assert(tv@.skip(k as int).drop_first() =~= tv@.skip(k + 1));
        k = k + 1;
    }
    let rest = crate::text::sub_chars(tv.as_slice(), k, tv.len());
    assert(rest@ =~= tv@.skip(k as int));
    let n = to_ascii_lower(rest.as_slice());
    let reg = registry();
    let len = reg.len();
    let mut i: usize = 0;
    while i < len
        invariant
            len == reg@.len(),
            i <= len,
            cmds_view(reg@) == table(),
            n@ == command_key(name@),
            first_answering(table(), n@, i as int) is None,
        decreases len - i,
    {
        assert(reg@[i as int]@ == table()[i as int]);
        if answers_to_exec(&reg[i], n.as_slice()) {
            proof {
                lemma_first_answering_stable(table(), n@, i + 1, len as int);
            }
            return Some(copy_command(&reg[i]));
        }
        i = i + 1;
    }
    None
}

// ── /goal ───────────────────────────────────────────────────────────

/// Arguments of the `/goal` command family.
#[derive(Debug, Clone, PartialEq, Eq)]
pub enum GoalCmd<'a> {
    /// Set (or redirect) the goal: one sub-task per line.
    SetGoal(&'a str),
    /// Pause (the goal is kept).
    Pause,
    /// Resume.
    Resume,
    /// Clear the goal.
    Clear,
    /// Show the current state.
    Status,
}

/// The abstract `/goal` command.
pub enum GoalModel {
    SetGoal(Seq<char>),
    Pause,
    Resume,
    Clear,
    Status,
}

pub open spec fn goal_view(g: GoalCmd) -> GoalModel {
    match g {
        GoalCmd::SetGoal(t) => GoalModel::SetGoal(t@),
        GoalCmd::Pause => GoalModel::Pause,
        GoalCmd::Resume => GoalModel::Resume,
        GoalCmd::Clear => GoalModel::Clear,
        GoalCmd::Status => GoalModel::Status,
    }
}

/// `/goal` parsing: `None` when the line is not exactly the `/goal` command
/// (a longer word such as `/goals` is left to the command table).
pub open spec fn goal_of(line: Seq<char>) -> Option<GoalModel> {
    if !crate::text::starts_with(line, "/goal"@) {
        None
    } else {
        let rest = line.skip(5);
        if rest.len() > 0 && !is_ws(rest[0]) {
            None
        } else {
            let arg = trim(rest);
            Some(
                if arg.len() == 0 {
                    GoalModel::Status
                } else if arg == "pause"@ || arg == "p"@ {
                    GoalModel::Pause
                } else if arg == "resume"@ || arg == "r"@ {
                    GoalModel::Resume
                } else if arg == "clear"@ || arg == "c"@ || arg == "off"@ {
                    GoalModel::Clear
                } else {
                    GoalModel::SetGoal(arg)
                },
            )
        }
    }
}

proof fn lemma_lead_ws_prefix(p: Seq<char>, x: Seq<char>)
    requires
        forall|j: int| 0 <= j < p.len() ==> is_ws(#[trigger] p[j]),
        x.len() > 0,
        !is_ws(x[0]),
    ensures
        crate::text::lead_ws(p + x) == p.len(),
    decreases p.len(),
{
    if p.len() == 0 {
        assert(p + x =~= x);
    } else {
        assert((p + x)[0] == p[0]);
        assert((p + x).drop_first() =~= p.drop_first() + x);
        lemma_lead_ws_prefix(p.drop_first(), x);
    }
}

proof fn lemma_trail_ws_suffix(x: Seq<char>, q: Seq<char>)
    requires
        forall|j: int| 0 <= j < q.len() ==> is_ws(#[trigger] q[j]),
        x.len() > 0,
        !is_ws(x.last()),
    ensures
        crate::text::trail_ws(x + q) == q.len(),
    decreases q.len(),
{
    if q.len() == 0 {
        assert(x + q =~= x);
    } else {
        assert((x + q).last() == q.last());
        assert((x + q).drop_last() =~= x + q.drop_last());
        lemma_trail_ws_suffix(x, q.drop_last());
    }
}

/// A word with blanks around it trims to the word.
proof fn lemma_trim_padded(p: Seq<char>, a: Seq<char>, q: Seq<char>)
    requires
        forall|j: int| 0 <= j < p.len() ==> is_ws(#[trigger] p[j]),
        forall|j: int| 0 <= j < q.len() ==> is_ws(#[trigger] q[j]),
        a.len() > 0,
        !is_ws(a[0]),
        !is_ws(a.last()),
    ensures
        trim(p + a + q) == a,
{
    assert(p + a + q =~= p + (a + q));
    assert((a + q)[0] == a[0]);
    lemma_lead_ws_prefix(p, a + q);
    let ts = crate::text::trim_start(p + a + q);
    assert(ts =~= a + q);
    lemma_trail_ws_suffix(a, q);
    assert(crate::text::trim_end(a + q) =~= a);
}

/// The words `/goal` reserves: pause (`p`), resume (`r`) and clear (`c`,
/// `off`).
pub open spec fn goal_reserved(a: Seq<char>) -> bool {
    a == "pause"@ || a == "p"@ || a == "resume"@ || a == "r"@ || a == "clear"@ || a == "c"@ || a == "off"@
}

/// `/goal` followed by a blank (or nothing) is always the goal command,
/// and its argument, trimmed, decides it: nothing asks for the status,
/// `pause`/`p` pauses, `resume`/`r` resumes, `clear`/`c`/`off` clears, and
/// only any other text becomes the new goal, exactly that text.
pub proof fn law_goal_arguments(line: Seq<char>)
    requires
        crate::text::starts_with(line, "/goal"@),
        line.len() == 5 || is_ws(line[5]),
    ensures
        goal_of(line) is Some,
        trim(line.skip(5)).len() == 0 <==> goal_of(line) == Some(GoalModel::Status),
        trim(line.skip(5)) == "pause"@ || trim(line.skip(5)) == "p"@ <==> goal_of(line) == Some(GoalModel::Pause),
        trim(line.skip(5)) == "resume"@ || trim(line.skip(5)) == "r"@ <==> goal_of(line) == Some(
            GoalModel::Resume,
        ),
        trim(line.skip(5)) == "clear"@ || trim(line.skip(5)) == "c"@ || trim(line.skip(5)) == "off"@
            <==> goal_of(line) == Some(GoalModel::Clear),
        trim(line.skip(5)).len() > 0 && !goal_reserved(trim(line.skip(5))) <==> goal_of(line) == Some(
            GoalModel::SetGoal(trim(line.skip(5))),
        ),
{
    reveal_strlit("/goal");
    reveal_strlit("pause");
    reveal_strlit("p");
    reveal_strlit("resume");
    reveal_strlit("r");
    reveal_strlit("clear");
    reveal_strlit("c");
    reveal_strlit("off");
    reveal_strlit("/goal");
    assert("/goal"@.len() == 5);
    let w = seq!["pause"@, "p"@, "resume"@, "r"@, "clear"@, "c"@, "off"@];
    assert forall|i: int, j: int| 0 <= i < 7 && 0 <= j < 7 && i != j implies w[i] != w[j] by {
        assert(w[i].len() != w[j].len() || w[i][0] != w[j][0]);
    }
    assert(w[0] == "pause"@ && w[1] == "p"@ && w[2] == "resume"@ && w[3] == "r"@);
    assert(w[4] == "clear"@ && w[5] == "c"@ && w[6] == "off"@);
    if line.len() > 5 {
        assert(line.skip(5)[0] == line[5]);
    }
}

/// Only unreserved, non-empty text becomes a goal: whatever line gives
/// `SetGoal(t)`, `t` is its trimmed argument and none of the reserved words.
pub proof fn law_goal_text_never_reserved(line: Seq<char>, t: Seq<char>)
    requires
        goal_of(line) == Some(GoalModel::SetGoal(t)),
    ensures
        t.len() > 0,
        !goal_reserved(t),
        t == trim(line.skip(5)),
{
    reveal_strlit("/goal");
    reveal_strlit("pause");
    reveal_strlit("p");
    reveal_strlit("resume");
    reveal_strlit("r");
    reveal_strlit("clear");
    reveal_strlit("c");
    reveal_strlit("off");
}

/// `/goal clear`, `/goal c` and `/goal off` clear the goal, whatever blanks
/// surround the word.
pub proof fn law_goal_clear_words(pad: Seq<char>, word: Seq<char>, tail: Seq<char>)
    requires
        pad.len() > 0,
        forall|j: int| 0 <= j < pad.len() ==> is_ws(#[trigger] pad[j]),
        forall|j: int| 0 <= j < tail.len() ==> is_ws(#[trigger] tail[j]),
        word == "clear"@ || word == "c"@ || word == "off"@,
    ensures
        goal_of("/goal"@ + pad + word + tail) == Some(GoalModel::Clear),
{
    reveal_strlit("/goal");
    reveal_strlit("pause");
    reveal_strlit("p");
    reveal_strlit("resume");
    reveal_strlit("r");
    reveal_strlit("clear");
    reveal_strlit("c");
    reveal_strlit("off");
    let line = "/goal"@ + pad + word + tail;
    assert(line.take(5) =~= "/goal"@);
    assert(line.skip(5) =~= pad + word + tail);
    assert(line[5] == pad[0]);
    lemma_trim_padded(pad, word, tail);
    law_goal_arguments(line);
}

/// Parse the `/goal` family.
pub fn parse_goal_command(line: &str) -> (r: Option<GoalCmd<'_>>)
    ensures
        match r {
            Some(g) => goal_of(line@) == Some(goal_view(g)),
            None => goal_of(line@) is None,
        },
{
    proof {
        reveal_strlit("/goal");
    }
    if !crate::text::str_starts_with(line, "/goal") {
        return None;
    }
    let lv = chars_of(line);
    let rest = line.substring_char(5, lv.len());
    let rv = chars_of(rest);
    if rv.len() > 0 && !is_whitespace(rv[0]) {
        return None;
    }
    let arg = trim_str(rest);
    let av = chars_of(arg);
    let a = av.as_slice();
    if av.len() == 0 {
        Some(GoalCmd::Status)
    } else if crate::text::chars_eq_str(a, "pause") || crate::text::chars_eq_str(a, "p") {
        Some(GoalCmd::Pause)
    } else if crate::text::chars_eq_str(a, "resume") || crate::text::chars_eq_str(a, "r") {
        Some(GoalCmd::Resume)
    } else if crate::text::chars_eq_str(a, "clear") || crate::text::chars_eq_str(a, "c")
        || crate::text::chars_eq_str(a, "off") {
        Some(GoalCmd::Clear)
    } else {
        Some(GoalCmd::SetGoal(arg))
    }
}

} // verus!

verus! {

/// Some of the first `n` commands has action `a`.
pub open spec fn has_action(cs: Seq<CommandModel>, a: Action, n: int) -> bool
    decreases n,
{
    n > 0 && (cs[n - 1].action == a || has_action(cs, a, n - 1))
}

/// Every must-be-reachable action has a command, and no interface-only
/// action is registered as one.
pub open spec fn registry_consistent(cs: Seq<CommandModel>) -> bool {
    &&& forall|i: int|
        0 <= i < command_actions().len() ==> has_action(cs, #[trigger] command_actions()[i], cs.len() as int)
    &&& forall|i: int|
        0 <= i < internal_only_actions().len() ==> !has_action(
            cs,
            #[trigger] internal_only_actions()[i],
            cs.len() as int,
        )
}

fn command_actions_vec() -> (r: Vec<Action>)
    ensures
        r@ == command_actions(),
{
    let mut r: Vec<Action> = Vec::new();
    r.push(Action::Quit);
    r.push(Action::Compact);
    r.push(Action::ThemePicker);
    r.push(Action::NextTheme);
    r.push(Action::Help);
    r.push(Action::Keys);
    r.push(Action::Status);
    r.push(Action::DiffViewer);
    r.push(Action::Rewind);
    r.push(Action::ToggleDetails);
    r.push(Action::ToggleThinking);
    r.push(Action::CopyLastReply);
    r.push(Action::Settings);
    r.push(Action::ToggleSidebar);
    r.push(Action::ToggleNotify);
    r.push(Action::ToggleNotifySound);
    r.push(Action::NextBackground);
    r.push(Action::BackgroundPicker);
    r.push(Action::NextLogo);
    r.push(Action::LogoPicker);
    r.push(Action::ModelPicker);
    r.push(Action::SessionPicker);
    r.push(Action::NewSessionReal);
    assert(r@ =~= command_actions());
    r
}

fn internal_only_actions_vec() -> (r: Vec<Action>)
    ensures
        r@ == internal_only_actions(),
{
    let mut r: Vec<Action> = Vec::new();
    r.push(Action::NewSession);
    r.push(Action::SwitchModel);
    r.push(Action::SetTheme(ThemeName::Nord));
    r.push(Action::SetBackground(Background::Dots));
    r.push(Action::SetLogo(LogoStyle::Small));
    assert(r@ =~= internal_only_actions());
    r
}

fn has_action_exec(reg: &Vec<Command>, a: Action) -> (r: bool)
    ensures
        r == has_action(cmds_view(reg@), a, reg@.len() as int),
{
    let n = reg.len();
    let mut i: usize = 0;
    while i < n
        invariant
            n == reg@.len(),
            i <= n,
            forall|j: int| 0 <= j < i ==> #[trigger] reg@[j].action != a,
        decreases n - i,
    {
        if reg[i].action == a {
            proof {
                lemma_has_action_mono(cmds_view(reg@), a, i + 1, n as int);
            }
            return true;
        }
        i = i + 1;
    }
    proof {
        lemma_has_action_none(cmds_view(reg@), a, n as int);
    }
    false
}

proof fn lemma_has_action_mono(cs: Seq<CommandModel>, a: Action, k: int, k2: int)
    requires
        k <= k2,
        has_action(cs, a, k),
    ensures
        has_action(cs, a, k2),
    decreases k2 - k,
{
    if k < k2 {
        lemma_has_action_mono(cs, a, k, k2 - 1);
    }
}

proof fn lemma_has_action_none(cs: Seq<CommandModel>, a: Action, n: int)
    requires
        0 <= n <= cs.len(),
        forall|j: int| 0 <= j < n ==> #[trigger] cs[j].action != a,
    ensures
        !has_action(cs, a, n),
    decreases n,
{
    if n > 0 {
        lemma_has_action_none(cs, a, n - 1);
    }
}

/// Check that every action that needs a command has one and that no
/// interface-only action is registered; the problems found, one line each
/// (empty = consistent).
pub fn audit_action_reachability() -> (r: Vec<String>)
    ensures
        r@.len() == 0 <==> registry_consistent(table()),
{
    let reg = registry();
    let ca = command_actions_vec();
    let ia = internal_only_actions_vec();
    let mut problems: Vec<String> = Vec::new();
    for i in 0..ca.len()
        invariant
            cmds_view(reg@) == table(),
            ca@ == command_actions(),
            problems@.len() == 0 <==> forall|j: int|
                0 <= j < i ==> has_action(table(), #[trigger] command_actions()[j], table().len() as int),
    {
        if !has_action_exec(&reg, ca[i]) {
            let mut m = String::new();
            crate::text::push_str(&mut m, action_label(ca[i]));
            crate::text::push_str(&mut m, " 没有任何命令可达 —— 忘注册了？");
            problems.push(m);
        }
    }
    let ghost first_ok = problems@.len() == 0;
    for i in 0..ia.len()
        invariant
            cmds_view(reg@) == table(),
            ia@ == internal_only_actions(),
            first_ok == forall|j: int|
                0 <= j < command_actions().len() ==> has_action(table(), #[trigger] command_actions()[j], table().len() as int),
            problems@.len() == 0 <==> (first_ok && forall|j: int|
                0 <= j < i ==> !has_action(table(), #[trigger] internal_only_actions()[j], table().len() as int)),
    {
        if has_action_exec(&reg, ia[i]) {
            let mut m = String::new();
            crate::text::push_str(&mut m, action_label(ia[i]));
            crate::text::push_str(&mut m, " 只应由界面内部产生，不该注册成命令");
            problems.push(m);
        }
    }
    problems
}

/// The command table is consistent: every must-be-reachable action has a
/// command and no interface-only action is registered.
pub proof fn law_registry_consistent()
    ensures
        registry_consistent(table()),
{
    reveal_with_fuel(has_action, 24);
}


/// An empty query matches every command, in table order.
pub proof fn law_empty_query_matches_all(cs: Seq<CommandModel>, n: int)
    requires
        0 <= n <= cs.len(),
    ensures
        filtered(cs, Seq::empty(), n) == cs.take(n),
    decreases n,
{
    if n > 0 {
        law_empty_query_matches_all(cs, n - 1);
        assert(cs.take(n - 1).push(cs[n - 1]) =~= cs.take(n));
    }
}

/// The matches are exactly the matching commands, in table order: each
/// result matches the query, and a command is left out only when it does
/// not match.
pub proof fn law_filtered_members(cs: Seq<CommandModel>, q: Seq<char>, n: int)
    requires
        0 <= n <= cs.len(),
    ensures
        filtered(cs, q, n).len() <= n,
        forall|i: int| 0 <= i < filtered(cs, q, n).len() ==> cmd_matches(#[trigger] filtered(cs, q, n)[i], q),
        forall|j: int| 0 <= j < n && cmd_matches(cs[j], q) ==> filtered(cs, q, n).contains(#[trigger] cs[j]),
    decreases n,
{
    if n > 0 {
        law_filtered_members(cs, q, n - 1);
        let prev = filtered(cs, q, n - 1);
        if cmd_matches(cs[n - 1], q) {
            assert forall|j: int| 0 <= j < n && cmd_matches(cs[j], q) implies filtered(cs, q, n).contains(#[trigger] cs[j]) by {
                if j < n - 1 {
                    let k = choose|k: int| 0 <= k < prev.len() && prev[k] == cs[j];
                    assert(prev.push(cs[n - 1])[k] == cs[j]);
                } else {
                    assert(prev.push(cs[n - 1])[prev.len() as int] == cs[j]);
                }
            }
        }
    }
}


/// Resolving finds the first command (in table order) that answers to the
/// name, and none when no command does.
pub proof fn law_first_answering(cs: Seq<CommandModel>, n: Seq<char>, k: int)
    requires
        0 <= k <= cs.len(),
    ensures
        first_answering(cs, n, k) matches Some(i) ==> 0 <= i < k && answers_to(cs[i], n) && forall|j: int|
            0 <= j < i ==> !answers_to(#[trigger] cs[j], n),
        first_answering(cs, n, k) is None ==> forall|j: int| 0 <= j < k ==> !answers_to(#[trigger] cs[j], n),
    decreases k,
{
    if k > 0 {
        law_first_answering(cs, n, k - 1);
    }
}

} // verus!
