//! Color themes: a fixed table of palettes, selectable by name.
use vstd::prelude::*;
use crate::appearance::{name_key, name_key_exec};
use crate::text::chars_eq_str;

verus! {

/// One theme's palette (RGB).
#[derive(Debug, Clone, Copy, PartialEq, Eq)]
pub struct Theme {
    pub name: &'static str,
    pub primary: (u8, u8, u8),
    pub accent: (u8, u8, u8),
    pub success: (u8, u8, u8),
    pub error: (u8, u8, u8),
    pub warning: (u8, u8, u8),
    pub info: (u8, u8, u8),
    pub text: (u8, u8, u8),
    pub muted: (u8, u8, u8),
    pub border: (u8, u8, u8),
    pub border_active: (u8, u8, u8),
    /// Dim stars (darker than the border, so the background stays back).
    pub star_dim: (u8, u8, u8),
    /// Bright stars.
    pub star_bright: (u8, u8, u8),
    /// Panel background (sidebar, settings).
    pub bg_panel: (u8, u8, u8),
    /// Selected row background.
    pub bg_selected: (u8, u8, u8),
    /// Element background, one step above the panel.
    pub bg_element: (u8, u8, u8),
    /// Unselected menu item background.
    pub bg_menu: (u8, u8, u8),
    /// Modal backdrop.
    pub backdrop: (u8, u8, u8),
    /// Full-screen base (light themes only).
    pub base: (u8, u8, u8),
    /// Light theme: light background, dark text.
    pub light: bool,
    /// Draw the background texture.
    pub stars: bool,
    /// Square corners (CRT style) instead of round ones.
    pub square: bool,
}

/// Theme names (user-visible, and the persisted key).
#[derive(Debug, Clone, Copy, PartialEq, Eq, Structural)]
pub enum ThemeName {
    /// Neo's own palette (default): violet primary.
    Neo,
    OpenCode,
    Nord,
    Gruvbox,
    RosePine,
    Tokyonight,
    Catppuccin,
    /// Light background, dark text.
    Light,
    /// CRT green phosphor: square corners, no texture.
    Terminal,
}

impl Default for ThemeName {
    fn default() -> (r: Self)
        ensures
            r == ThemeName::Neo,
    {
        ThemeName::Neo
    }
}

impl Theme {
    /// Corner glyphs (TL, TR, BL, BR): round by default, square for CRT.
    pub fn corners(self) -> (r: (&'static str, &'static str, &'static str, &'static str))
        ensures
            self.square ==> r.0@ == "┌"@ && r.1@ == "┐"@ && r.2@ == "└"@ && r.3@ == "┘"@,
            !self.square ==> r.0@ == "╭"@ && r.1@ == "╮"@ && r.2@ == "╰"@ && r.3@ == "╯"@,
    {
        if self.square {
            ("┌", "┐", "└", "┘")
        } else {
            ("╭", "╮", "╰", "╯")
        }
    }
}

impl ThemeName {
    pub open spec fn name(self) -> Seq<char> {
        match self {
            ThemeName::Neo => "neo"@,
            ThemeName::OpenCode => "opencode"@,
            ThemeName::Nord => "nord"@,
            ThemeName::Gruvbox => "gruvbox"@,
            ThemeName::RosePine => "rosepine"@,
            ThemeName::Tokyonight => "tokyonight"@,
            ThemeName::Catppuccin => "catppuccin"@,
            ThemeName::Light => "light"@,
            ThemeName::Terminal => "terminal"@,
        }
    }

    /// The theme a (trimmed, lower-cased) name or alias stands for.
    pub open spec fn named(k: Seq<char>) -> Option<ThemeName> {
        if k == "neo"@ || k == "default"@ {
            Some(ThemeName::Neo)
        } else if k == "opencode"@ {
            Some(ThemeName::OpenCode)
        } else if k == "nord"@ {
            Some(ThemeName::Nord)
        } else if k == "gruvbox"@ {
            Some(ThemeName::Gruvbox)
        } else if k == "rosepine"@ || k == "rose-pine"@ {
            Some(ThemeName::RosePine)
        } else if k == "tokyonight"@ || k == "tokyo-night"@ {
            Some(ThemeName::Tokyonight)
        } else if k == "catppuccin"@ || k == "catppuccin-mocha"@ {
            Some(ThemeName::Catppuccin)
        } else if k == "light"@ || k == "亮色"@ {
            Some(ThemeName::Light)
        } else if k == "terminal"@ || k == "crt"@ || k == "green"@ {
            Some(ThemeName::Terminal)
        } else {
            None
        }
    }

    pub open spec fn following(self) -> ThemeName {
        match self {
            ThemeName::Neo => ThemeName::OpenCode,
            ThemeName::OpenCode => ThemeName::Nord,
            ThemeName::Nord => ThemeName::Gruvbox,
            ThemeName::Gruvbox => ThemeName::RosePine,
            ThemeName::RosePine => ThemeName::Tokyonight,
            ThemeName::Tokyonight => ThemeName::Catppuccin,
            ThemeName::Catppuccin => ThemeName::Light,
            ThemeName::Light => ThemeName::Terminal,
            ThemeName::Terminal => ThemeName::Neo,
        }
    }

    pub fn as_str(self) -> (r: &'static str)
        ensures
            r@ == self.name(),
    {
        match self {
            ThemeName::Neo => "neo",
            ThemeName::OpenCode => "opencode",
            ThemeName::Nord => "nord",
            ThemeName::Gruvbox => "gruvbox",
            ThemeName::RosePine => "rosepine",
            ThemeName::Tokyonight => "tokyonight",
            ThemeName::Catppuccin => "catppuccin",
            ThemeName::Light => "light",
            ThemeName::Terminal => "terminal",
        }
    }

    /// Parse a name (trimmed, case-insensitive; aliases accepted).
    pub fn parse(s: &str) -> (r: Option<Self>)
        ensures
            r == Self::named(name_key(s@)),
    {
        let k = name_key_exec(s);
        let k = k.as_slice();
        if chars_eq_str(k, "neo") || chars_eq_str(k, "default") {
            Some(ThemeName::Neo)
        } else if chars_eq_str(k, "opencode") {
            Some(ThemeName::OpenCode)
        } else if chars_eq_str(k, "nord") {
            Some(ThemeName::Nord)
        } else if chars_eq_str(k, "gruvbox") {
            Some(ThemeName::Gruvbox)
        } else if chars_eq_str(k, "rosepine") || chars_eq_str(k, "rose-pine") {
            Some(ThemeName::RosePine)
        } else if chars_eq_str(k, "tokyonight") || chars_eq_str(k, "tokyo-night") {
            Some(ThemeName::Tokyonight)
        } else if chars_eq_str(k, "catppuccin") || chars_eq_str(k, "catppuccin-mocha") {
            Some(ThemeName::Catppuccin)
        } else if chars_eq_str(k, "light") || chars_eq_str(k, "亮色") {
            Some(ThemeName::Light)
        } else if chars_eq_str(k, "terminal") || chars_eq_str(k, "crt") || chars_eq_str(k, "green") {
            Some(ThemeName::Terminal)
        } else {
            None
        }
    }

    /// All themes in switching order.
    pub fn all() -> (r: [ThemeName; 9])
        ensures
            r@ == seq![
                ThemeName::Neo,
                ThemeName::OpenCode,
                ThemeName::Nord,
                ThemeName::Gruvbox,
                ThemeName::RosePine,
                ThemeName::Tokyonight,
                ThemeName::Catppuccin,
                ThemeName::Light,
                ThemeName::Terminal,
            ],
    {
        let r = [
            ThemeName::Neo,
            ThemeName::OpenCode,
            ThemeName::Nord,
            ThemeName::Gruvbox,
            ThemeName::RosePine,
            ThemeName::Tokyonight,
            ThemeName::Catppuccin,
            ThemeName::Light,
            ThemeName::Terminal,
        ];
        assert(r@ =~= seq![
            ThemeName::Neo,
            ThemeName::OpenCode,
            ThemeName::Nord,
            ThemeName::Gruvbox,
            ThemeName::RosePine,
            ThemeName::Tokyonight,
            ThemeName::Catppuccin,
            ThemeName::Light,
            ThemeName::Terminal,
        ]);
        r
    }

    /// The next theme, in the order of `all`, wrapping around.
    pub fn next(self) -> (r: Self)
        ensures
            r == self.following(),
    {
        match self {
            ThemeName::Neo => ThemeName::OpenCode,
            ThemeName::OpenCode => ThemeName::Nord,
            ThemeName::Nord => ThemeName::Gruvbox,
            ThemeName::Gruvbox => ThemeName::RosePine,
            ThemeName::RosePine => ThemeName::Tokyonight,
            ThemeName::Tokyonight => ThemeName::Catppuccin,
            ThemeName::Catppuccin => ThemeName::Light,
            ThemeName::Light => ThemeName::Terminal,
            ThemeName::Terminal => ThemeName::Neo,
        }
    }
}

/// The palette table.
pub open spec fn theme_of(name: ThemeName) -> Theme {
    match name {
        ThemeName::Neo => Theme {
            name: "neo",
            primary: (0xa7u8, 0x8bu8, 0xfau8),
            accent: (0xe8u8, 0x79u8, 0xf9u8),
            success: (0x6eu8, 0xe7u8, 0xb7u8),
            error: (0xf8u8, 0x71u8, 0x71u8),
            warning: (0xfbu8, 0xbfu8, 0x24u8),
            info: (0x7du8, 0xd3u8, 0xfcu8),
            text: (0xedu8, 0xedu8, 0xedu8),
            muted: (0x8au8, 0x8au8, 0x94u8),
            border: (0x45u8, 0x45u8, 0x52u8),
            border_active: (0x5cu8, 0x5cu8, 0x6eu8),
            star_dim: (0x2bu8, 0x2bu8, 0x33u8),
            star_bright: (0x3fu8, 0x3fu8, 0x4du8),
            bg_panel: (0x20u8, 0x1eu8, 0x2au8),
            bg_selected: (0x33u8, 0x2fu8, 0x45u8),
            bg_element: (0x2au8, 0x27u8, 0x36u8),
            bg_menu: (0x26u8, 0x23u8, 0x30u8),
            backdrop: (0x0au8, 0x0au8, 0x0cu8),
            base: (0x00u8, 0x00u8, 0x00u8),
            light: false,
            stars: true,
            square: false,
        },
        ThemeName::OpenCode => Theme {
            name: "opencode",
            primary: (0xfau8, 0xb2u8, 0x83u8),
            accent: (0x9du8, 0x7cu8, 0xd8u8),
            success: (0x7fu8, 0xd8u8, 0x8fu8),
            error: (0xe0u8, 0x6cu8, 0x75u8),
            warning: (0xf5u8, 0xa7u8, 0x42u8),
            info: (0x56u8, 0xb6u8, 0xc2u8),
            text: (0xeeu8, 0xeeu8, 0xeeu8),
            muted: (0x80u8, 0x80u8, 0x80u8),
            border: (0x48u8, 0x48u8, 0x48u8),
            border_active: (0x60u8, 0x60u8, 0x60u8),
            star_dim: (0x2cu8, 0x2cu8, 0x2cu8),
            star_bright: (0x40u8, 0x40u8, 0x40u8),
            bg_panel: (0x24u8, 0x22u8, 0x22u8),
            bg_selected: (0x3au8, 0x35u8, 0x32u8),
            bg_element: (0x2eu8, 0x2bu8, 0x29u8),
            bg_menu: (0x2au8, 0x27u8, 0x26u8),
            backdrop: (0x0au8, 0x0au8, 0x0cu8),
            base: (0x00u8, 0x00u8, 0x00u8),
            light: false,
            stars: true,
            square: false,
        },
        ThemeName::Nord => Theme {
            name: "nord",
            primary: (0x88u8, 0xc0u8, 0xd0u8),
            accent: (0x8fu8, 0xbcu8, 0xbbu8),
            success: (0xa3u8, 0xbeu8, 0x8cu8),
            error: (0xbfu8, 0x61u8, 0x6au8),
            warning: (0xd0u8, 0x87u8, 0x70u8),
            info: (0x81u8, 0xa1u8, 0xc1u8),
            text: (0xecu8, 0xefu8, 0xf4u8),
            muted: (0x8bu8, 0x95u8, 0xa7u8),
            border: (0x43u8, 0x4cu8, 0x5eu8),
            border_active: (0x4cu8, 0x56u8, 0x6au8),
            star_dim: (0x28u8, 0x2eu8, 0x39u8),
            star_bright: (0x39u8, 0x41u8, 0x50u8),
            bg_panel: (0x24u8, 0x2au8, 0x33u8),
            bg_selected: (0x3bu8, 0x42u8, 0x52u8),
            bg_element: (0x2eu8, 0x35u8, 0x40u8),
            bg_menu: (0x2au8, 0x30u8, 0x3au8),
            backdrop: (0x0au8, 0x0au8, 0x0cu8),
            base: (0x00u8, 0x00u8, 0x00u8),
            light: false,
            stars: true,
            square: false,
        },
        ThemeName::Gruvbox => Theme {
            name: "gruvbox",
            primary: (0x83u8, 0xa5u8, 0x98u8),
            accent: (0x8eu8, 0xc0u8, 0x7cu8),
            success: (0xb8u8, 0xbbu8, 0x26u8),
            error: (0xfbu8, 0x49u8, 0x34u8),
            warning: (0xfeu8, 0x80u8, 0x19u8),
            info: (0xfau8, 0xbdu8, 0x2fu8),
            text: (0xebu8, 0xdbu8, 0xb2u8),
            muted: (0x92u8, 0x83u8, 0x74u8),
            border: (0x66u8, 0x5cu8, 0x54u8),
            border_active: (0x7cu8, 0x6fu8, 0x64u8),
            star_dim: (0x3bu8, 0x35u8, 0x30u8),
            star_bright: (0x55u8, 0x4du8, 0x46u8),
            bg_panel: (0x28u8, 0x24u8, 0x21u8),
            bg_selected: (0x3fu8, 0x38u8, 0x33u8),
            bg_element: (0x33u8, 0x2du8, 0x28u8),
            bg_menu: (0x2eu8, 0x29u8, 0x25u8),
            backdrop: (0x0au8, 0x0au8, 0x0cu8),
            base: (0x00u8, 0x00u8, 0x00u8),
            light: false,
            stars: true,
            square: false,
        },
        ThemeName::RosePine => Theme {
            name: "rosepine",
            primary: (0x9cu8, 0xcfu8, 0xd8u8),
            accent: (0xebu8, 0xbcu8, 0xbau8),
            success: (0x31u8, 0x74u8, 0x8fu8),
            error: (0xebu8, 0x6fu8, 0x92u8),
            warning: (0xf6u8, 0xc1u8, 0x77u8),
            info: (0xc4u8, 0xa7u8, 0xe7u8),
            text: (0xe0u8, 0xdeu8, 0xf4u8),
            muted: (0x6eu8, 0x6au8, 0x86u8),
            border: (0x40u8, 0x3du8, 0x52u8),
            border_active: (0x52u8, 0x4fu8, 0x67u8),
            star_dim: (0x25u8, 0x24u8, 0x31u8),
            star_bright: (0x35u8, 0x33u8, 0x45u8),
            bg_panel: (0x1fu8, 0x1du8, 0x28u8),
            bg_selected: (0x31u8, 0x2eu8, 0x40u8),
            bg_element: (0x2au8, 0x26u8, 0x36u8),
            bg_menu: (0x25u8, 0x22u8, 0x2fu8),
            backdrop: (0x0au8, 0x0au8, 0x0cu8),
            base: (0x00u8, 0x00u8, 0x00u8),
            light: false,
            stars: true,
            square: false,
        },
        ThemeName::Tokyonight => Theme {
            name: "tokyonight",
            primary: (0x82u8, 0xaau8, 0xffu8),
            accent: (0xc0u8, 0x99u8, 0xffu8),
            success: (0xc3u8, 0xe8u8, 0x8du8),
            error: (0xffu8, 0x75u8, 0x7fu8),
            warning: (0xffu8, 0x96u8, 0x6cu8),
            info: (0x82u8, 0xaau8, 0xffu8),
            text: (0xc8u8, 0xd3u8, 0xf5u8),
            muted: (0x82u8, 0x8bu8, 0xb8u8),
            border: (0x3bu8, 0x42u8, 0x64u8),
            border_active: (0x54u8, 0x5cu8, 0x7eu8),
            star_dim: (0x22u8, 0x27u8, 0x3bu8),
            star_bright: (0x31u8, 0x37u8, 0x53u8),
            bg_panel: (0x1bu8, 0x1fu8, 0x30u8),
            bg_selected: (0x2fu8, 0x33u8, 0x4au8),
            bg_element: (0x25u8, 0x29u8, 0x3cu8),
            bg_menu: (0x21u8, 0x25u8, 0x36u8),
            backdrop: (0x0au8, 0x0au8, 0x0cu8),
            base: (0x00u8, 0x00u8, 0x00u8),
            light: false,
            stars: true,
            square: false,
        },
        ThemeName::Catppuccin => Theme {
            name: "catppuccin",
            primary: (0x89u8, 0xb4u8, 0xfau8),
            accent: (0xf5u8, 0xc2u8, 0xe7u8),
            success: (0xa6u8, 0xe3u8, 0xa1u8),
            error: (0xf3u8, 0x8bu8, 0xa8u8),
            warning: (0xf9u8, 0xe2u8, 0xafu8),
            info: (0x94u8, 0xe2u8, 0xd5u8),
            text: (0xcdu8, 0xd6u8, 0xf4u8),
            muted: (0x93u8, 0x99u8, 0xb2u8),
            border: (0x31u8, 0x32u8, 0x44u8),
            border_active: (0x45u8, 0x47u8, 0x5au8),
            star_dim: (0x1du8, 0x1eu8, 0x28u8),
            star_bright: (0x29u8, 0x2au8, 0x39u8),
            bg_panel: (0x1eu8, 0x1eu8, 0x27u8),
            bg_selected: (0x31u8, 0x31u8, 0x40u8),
            bg_element: (0x28u8, 0x28u8, 0x34u8),
            bg_menu: (0x24u8, 0x24u8, 0x2du8),
            backdrop: (0x06u8, 0x09u8, 0x11u8),
            base: (0x00u8, 0x00u8, 0x00u8),
            light: false,
            stars: true,
            square: false,
        },
        ThemeName::Light => Theme {
            name: "light",
            primary: (0x4cu8, 0x60u8, 0xd4u8),
            accent: (0x9du8, 0x5cu8, 0xd8u8),
            success: (0x1au8, 0x7fu8, 0x37u8),
            error: (0xc6u8, 0x28u8, 0x28u8),
            warning: (0xb2u8, 0x6au8, 0x00u8),
            info: (0x02u8, 0x77u8, 0xbdu8),
            text: (0x2au8, 0x2cu8, 0x32u8),
            muted: (0x6eu8, 0x72u8, 0x7au8),
            border: (0xd4u8, 0xd4u8, 0xd0u8),
            border_active: (0xb0u8, 0xb4u8, 0xc0u8),
            star_dim: (0xc0u8, 0xc0u8, 0xbcu8),
            star_bright: (0xccu8, 0xccu8, 0xc8u8),
            bg_panel: (0xf0u8, 0xf0u8, 0xeeu8),
            bg_selected: (0xe2u8, 0xe6u8, 0xf6u8),
            bg_element: (0xeau8, 0xeau8, 0xe8u8),
            bg_menu: (0xe6u8, 0xe6u8, 0xe4u8),
            backdrop: (0xe6u8, 0xe6u8, 0xe4u8),
            base: (0xfau8, 0xfau8, 0xf8u8),
            light: true,
            stars: false,
            square: false,
        },
        ThemeName::Terminal => Theme {
            name: "terminal",
            primary: (0x53u8, 0xffu8, 0x9cu8),
            accent: (0xa8u8, 0xffu8, 0xc8u8),
            success: (0x53u8, 0xffu8, 0x9cu8),
            error: (0xffu8, 0x5cu8, 0x5cu8),
            warning: (0xe8u8, 0xd4u8, 0x5cu8),
            info: (0x5cu8, 0xd4u8, 0xe8u8),
            text: (0x2eu8, 0xe5u8, 0x74u8),
            muted: (0x1du8, 0x9au8, 0x52u8),
            border: (0x14u8, 0x66u8, 0x38u8),
            border_active: (0x1eu8, 0x8fu8, 0x50u8),
            star_dim: (0x0au8, 0x2au8, 0x16u8),
            star_bright: (0x12u8, 0x42u8, 0x24u8),
            bg_panel: (0x07u8, 0x1au8, 0x0eu8),
            bg_selected: (0x0du8, 0x2au8, 0x18u8),
            bg_element: (0x0au8, 0x20u8, 0x12u8),
            bg_menu: (0x09u8, 0x1cu8, 0x10u8),
            backdrop: (0x01u8, 0x05u8, 0x03u8),
            base: (0x03u8, 0x09u8, 0x05u8),
            light: false,
            stars: false,
            square: true,
        },
    }
}

/// The palette of a theme.
pub fn get(name: ThemeName) -> (r: Theme)
    ensures
        r == theme_of(name),
        r.name@ == name.name(),
{
    match name {
        ThemeName::Neo => Theme {
            name: "neo",
            primary: (0xa7u8, 0x8bu8, 0xfau8),
            accent: (0xe8u8, 0x79u8, 0xf9u8),
            success: (0x6eu8, 0xe7u8, 0xb7u8),
            error: (0xf8u8, 0x71u8, 0x71u8),
            warning: (0xfbu8, 0xbfu8, 0x24u8),
            info: (0x7du8, 0xd3u8, 0xfcu8),
            text: (0xedu8, 0xedu8, 0xedu8),
            muted: (0x8au8, 0x8au8, 0x94u8),
            border: (0x45u8, 0x45u8, 0x52u8),
            border_active: (0x5cu8, 0x5cu8, 0x6eu8),
            star_dim: (0x2bu8, 0x2bu8, 0x33u8),
            star_bright: (0x3fu8, 0x3fu8, 0x4du8),
            bg_panel: (0x20u8, 0x1eu8, 0x2au8),
            bg_selected: (0x33u8, 0x2fu8, 0x45u8),
            bg_element: (0x2au8, 0x27u8, 0x36u8),
            bg_menu: (0x26u8, 0x23u8, 0x30u8),
            backdrop: (0x0au8, 0x0au8, 0x0cu8),
            base: (0x00u8, 0x00u8, 0x00u8),
            light: false,
            stars: true,
            square: false,
        },
        ThemeName::OpenCode => Theme {
            name: "opencode",
            primary: (0xfau8, 0xb2u8, 0x83u8),
            accent: (0x9du8, 0x7cu8, 0xd8u8),
            success: (0x7fu8, 0xd8u8, 0x8fu8),
            error: (0xe0u8, 0x6cu8, 0x75u8),
            warning: (0xf5u8, 0xa7u8, 0x42u8),
            info: (0x56u8, 0xb6u8, 0xc2u8),
            text: (0xeeu8, 0xeeu8, 0xeeu8),
            muted: (0x80u8, 0x80u8, 0x80u8),
            border: (0x48u8, 0x48u8, 0x48u8),
            border_active: (0x60u8, 0x60u8, 0x60u8),
            star_dim: (0x2cu8, 0x2cu8, 0x2cu8),
            star_bright: (0x40u8, 0x40u8, 0x40u8),
            bg_panel: (0x24u8, 0x22u8, 0x22u8),
            bg_selected: (0x3au8, 0x35u8, 0x32u8),
            bg_element: (0x2eu8, 0x2bu8, 0x29u8),
            bg_menu: (0x2au8, 0x27u8, 0x26u8),
            backdrop: (0x0au8, 0x0au8, 0x0cu8),
            base: (0x00u8, 0x00u8, 0x00u8),
            light: false,
            stars: true,
            square: false,
        },
        ThemeName::Nord => Theme {
            name: "nord",
            primary: (0x88u8, 0xc0u8, 0xd0u8),
            accent: (0x8fu8, 0xbcu8, 0xbbu8),
            success: (0xa3u8, 0xbeu8, 0x8cu8),
            error: (0xbfu8, 0x61u8, 0x6au8),
            warning: (0xd0u8, 0x87u8, 0x70u8),
            info: (0x81u8, 0xa1u8, 0xc1u8),
            text: (0xecu8, 0xefu8, 0xf4u8),
            muted: (0x8bu8, 0x95u8, 0xa7u8),
            border: (0x43u8, 0x4cu8, 0x5eu8),
            border_active: (0x4cu8, 0x56u8, 0x6au8),
            star_dim: (0x28u8, 0x2eu8, 0x39u8),
            star_bright: (0x39u8, 0x41u8, 0x50u8),
            bg_panel: (0x24u8, 0x2au8, 0x33u8),
            bg_selected: (0x3bu8, 0x42u8, 0x52u8),
            bg_element: (0x2eu8, 0x35u8, 0x40u8),
            bg_menu: (0x2au8, 0x30u8, 0x3au8),
            backdrop: (0x0au8, 0x0au8, 0x0cu8),
            base: (0x00u8, 0x00u8, 0x00u8),
            light: false,
            stars: true,
            square: false,
        },
        ThemeName::Gruvbox => Theme {
            name: "gruvbox",
            primary: (0x83u8, 0xa5u8, 0x98u8),
            accent: (0x8eu8, 0xc0u8, 0x7cu8),
            success: (0xb8u8, 0xbbu8, 0x26u8),
            error: (0xfbu8, 0x49u8, 0x34u8),
            warning: (0xfeu8, 0x80u8, 0x19u8),
            info: (0xfau8, 0xbdu8, 0x2fu8),
            text: (0xebu8, 0xdbu8, 0xb2u8),
            muted: (0x92u8, 0x83u8, 0x74u8),
            border: (0x66u8, 0x5cu8, 0x54u8),
            border_active: (0x7cu8, 0x6fu8, 0x64u8),
            star_dim: (0x3bu8, 0x35u8, 0x30u8),
            star_bright: (0x55u8, 0x4du8, 0x46u8),
            bg_panel: (0x28u8, 0x24u8, 0x21u8),
            bg_selected: (0x3fu8, 0x38u8, 0x33u8),
            bg_element: (0x33u8, 0x2du8, 0x28u8),
            bg_menu: (0x2eu8, 0x29u8, 0x25u8),
            backdrop: (0x0au8, 0x0au8, 0x0cu8),
            base: (0x00u8, 0x00u8, 0x00u8),
            light: false,
            stars: true,
            square: false,
        },
        ThemeName::RosePine => Theme {
            name: "rosepine",
            primary: (0x9cu8, 0xcfu8, 0xd8u8),
            accent: (0xebu8, 0xbcu8, 0xbau8),
            success: (0x31u8, 0x74u8, 0x8fu8),
            error: (0xebu8, 0x6fu8, 0x92u8),
            warning: (0xf6u8, 0xc1u8, 0x77u8),
            info: (0xc4u8, 0xa7u8, 0xe7u8),
            text: (0xe0u8, 0xdeu8, 0xf4u8),
            muted: (0x6eu8, 0x6au8, 0x86u8),
            border: (0x40u8, 0x3du8, 0x52u8),
            border_active: (0x52u8, 0x4fu8, 0x67u8),
            star_dim: (0x25u8, 0x24u8, 0x31u8),
            star_bright: (0x35u8, 0x33u8, 0x45u8),
            bg_panel: (0x1fu8, 0x1du8, 0x28u8),
            bg_selected: (0x31u8, 0x2eu8, 0x40u8),
            bg_element: (0x2au8, 0x26u8, 0x36u8),
            bg_menu: (0x25u8, 0x22u8, 0x2fu8),
            backdrop: (0x0au8, 0x0au8, 0x0cu8),
            base: (0x00u8, 0x00u8, 0x00u8),
            light: false,
            stars: true,
            square: false,
        },
        ThemeName::Tokyonight => Theme {
            name: "tokyonight",
            primary: (0x82u8, 0xaau8, 0xffu8),
            accent: (0xc0u8, 0x99u8, 0xffu8),
            success: (0xc3u8, 0xe8u8, 0x8du8),
            error: (0xffu8, 0x75u8, 0x7fu8),
            warning: (0xffu8, 0x96u8, 0x6cu8),
            info: (0x82u8, 0xaau8, 0xffu8),
            text: (0xc8u8, 0xd3u8, 0xf5u8),
            muted: (0x82u8, 0x8bu8, 0xb8u8),
            border: (0x3bu8, 0x42u8, 0x64u8),
            border_active: (0x54u8, 0x5cu8, 0x7eu8),
            star_dim: (0x22u8, 0x27u8, 0x3bu8),
            star_bright: (0x31u8, 0x37u8, 0x53u8),
            bg_panel: (0x1bu8, 0x1fu8, 0x30u8),
            bg_selected: (0x2fu8, 0x33u8, 0x4au8),
            bg_element: (0x25u8, 0x29u8, 0x3cu8),
            bg_menu: (0x21u8, 0x25u8, 0x36u8),
            backdrop: (0x0au8, 0x0au8, 0x0cu8),
            base: (0x00u8, 0x00u8, 0x00u8),
            light: false,
            stars: true,
            square: false,
        },
        ThemeName::Catppuccin => Theme {
            name: "catppuccin",
            primary: (0x89u8, 0xb4u8, 0xfau8),
            accent: (0xf5u8, 0xc2u8, 0xe7u8),
            success: (0xa6u8, 0xe3u8, 0xa1u8),
            error: (0xf3u8, 0x8bu8, 0xa8u8),
            warning: (0xf9u8, 0xe2u8, 0xafu8),
            info: (0x94u8, 0xe2u8, 0xd5u8),
            text: (0xcdu8, 0xd6u8, 0xf4u8),
            muted: (0x93u8, 0x99u8, 0xb2u8),
            border: (0x31u8, 0x32u8, 0x44u8),
            border_active: (0x45u8, 0x47u8, 0x5au8),
            star_dim: (0x1du8, 0x1eu8, 0x28u8),
            star_bright: (0x29u8, 0x2au8, 0x39u8),
            bg_panel: (0x1eu8, 0x1eu8, 0x27u8),
            bg_selected: (0x31u8, 0x31u8, 0x40u8),
            bg_element: (0x28u8, 0x28u8, 0x34u8),
            bg_menu: (0x24u8, 0x24u8, 0x2du8),
            backdrop: (0x06u8, 0x09u8, 0x11u8),
            base: (0x00u8, 0x00u8, 0x00u8),
            light: false,
            stars: true,
            square: false,
        },
        ThemeName::Light => Theme {
            name: "light",
            primary: (0x4cu8, 0x60u8, 0xd4u8),
            accent: (0x9du8, 0x5cu8, 0xd8u8),
            success: (0x1au8, 0x7fu8, 0x37u8),
            error: (0xc6u8, 0x28u8, 0x28u8),
            warning: (0xb2u8, 0x6au8, 0x00u8),
            info: (0x02u8, 0x77u8, 0xbdu8),
            text: (0x2au8, 0x2cu8, 0x32u8),
            muted: (0x6eu8, 0x72u8, 0x7au8),
            border: (0xd4u8, 0xd4u8, 0xd0u8),
            border_active: (0xb0u8, 0xb4u8, 0xc0u8),
            star_dim: (0xc0u8, 0xc0u8, 0xbcu8),
            star_bright: (0xccu8, 0xccu8, 0xc8u8),
            bg_panel: (0xf0u8, 0xf0u8, 0xeeu8),
            bg_selected: (0xe2u8, 0xe6u8, 0xf6u8),
            bg_element: (0xeau8, 0xeau8, 0xe8u8),
            bg_menu: (0xe6u8, 0xe6u8, 0xe4u8),
            backdrop: (0xe6u8, 0xe6u8, 0xe4u8),
            base: (0xfau8, 0xfau8, 0xf8u8),
            light: true,
            stars: false,
            square: false,
        },
        ThemeName::Terminal => Theme {
            name: "terminal",
            primary: (0x53u8, 0xffu8, 0x9cu8),
            accent: (0xa8u8, 0xffu8, 0xc8u8),
            success: (0x53u8, 0xffu8, 0x9cu8),
            error: (0xffu8, 0x5cu8, 0x5cu8),
            warning: (0xe8u8, 0xd4u8, 0x5cu8),
            info: (0x5cu8, 0xd4u8, 0xe8u8),
            text: (0x2eu8, 0xe5u8, 0x74u8),
            muted: (0x1du8, 0x9au8, 0x52u8),
            border: (0x14u8, 0x66u8, 0x38u8),
            border_active: (0x1eu8, 0x8fu8, 0x50u8),
            star_dim: (0x0au8, 0x2au8, 0x16u8),
            star_bright: (0x12u8, 0x42u8, 0x24u8),
            bg_panel: (0x07u8, 0x1au8, 0x0eu8),
            bg_selected: (0x0du8, 0x2au8, 0x18u8),
            bg_element: (0x0au8, 0x20u8, 0x12u8),
            bg_menu: (0x09u8, 0x1cu8, 0x10u8),
            backdrop: (0x01u8, 0x05u8, 0x03u8),
            base: (0x03u8, 0x09u8, 0x05u8),
            light: false,
            stars: false,
            square: true,
        },
    }
}

/// Sum of the three channels (a rough luminance).
pub open spec fn lum(c: (u8, u8, u8)) -> int {
    c.0 + c.1 + c.2
}

/// In every textured theme both star levels are darker than the border,
/// and the bright stars are brighter than the dim ones.
pub proof fn law_starfield_dimmer_than_border(name: ThemeName)
    ensures
        theme_of(name).stars ==> lum(theme_of(name).star_bright) < lum(theme_of(name).border)
            && lum(theme_of(name).star_dim) < lum(theme_of(name).star_bright),
{
}

/// Body text stands out from muted text against the background: brighter in
/// dark themes, darker in light ones.
pub proof fn law_text_contrasts_more_than_muted(name: ThemeName)
    ensures
        theme_of(name).light ==> lum(theme_of(name).text) < lum(theme_of(name).muted),
        !theme_of(name).light ==> lum(theme_of(name).text) > lum(theme_of(name).muted),
{
}

/// The default theme is Neo's own violet: blue and red well above green.
pub proof fn law_default_is_violet()
    ensures
        ({
            let (r, g, b) = theme_of(ThemeName::Neo).primary;
            b > g + 60 && r > g + 20
        }),
{
}

/// Switching themes nine times returns to the start, and no theme repeats
/// on the way.
pub proof fn law_theme_cycle(t: ThemeName)
    ensures
        t.following().following().following().following().following().following().following().following().following() == t,
        t.following() != t,
        t.following().following() != t,
        t.following().following().following() != t,
        t.following().following().following().following() != t,
        t.following().following().following().following().following() != t,
        t.following().following().following().following().following().following() != t,
        t.following().following().following().following().following().following().following() != t,
        t.following().following().following().following().following().following().following().following() != t,
{
}


/// Every theme is found again by its name.
pub proof fn law_theme_names_parse(n: ThemeName)
    ensures
        ThemeName::named(name_key(n.name())) == Some(n),
{
    reveal_strlit("neo");
    reveal_strlit("default");
    reveal_strlit("opencode");
    reveal_strlit("nord");
    reveal_strlit("gruvbox");
    reveal_strlit("rosepine");
    reveal_strlit("rose-pine");
    reveal_strlit("tokyonight");
    reveal_strlit("tokyo-night");
    reveal_strlit("catppuccin");
    reveal_strlit("catppuccin-mocha");
    reveal_strlit("light");
    reveal_strlit("亮色");
    reveal_strlit("terminal");
    crate::appearance::lemma_plain_key(n.name());
}

/// Parsing a theme name ignores surrounding blanks and ASCII case:
/// `parse(s)` is `parse(s.trim().to_ascii_lowercase())`.
pub proof fn law_theme_parse_normalizes(s: Seq<char>)
    ensures
        ThemeName::named(name_key(s)) == ThemeName::named(name_key(name_key(s))),
{
    crate::appearance::law_name_key_idempotent(s);
}

} // verus!
