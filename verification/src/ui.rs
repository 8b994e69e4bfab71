//! Design tokens, colors and theme palettes, component descriptors, and
//! accessibility roles, independent of the rendering toolkit.
use vstd::prelude::*;
use crate::text::{ascii_upper, ascii_uppered, is_ascii_text, str_eq, to_uppercase, uppercase};

verus! {

/// Spacing scale in logical pixels.
#[derive(Debug, Clone, Copy, PartialEq, Eq)]
pub struct Spacing;

/// Border radius scale in logical pixels.
#[derive(Debug, Clone, Copy, PartialEq, Eq)]
pub struct Radius;

/// Border width tokens.
#[derive(Debug, Clone, Copy, PartialEq)]
pub struct BorderTokens;

/// Typography scale font sizes in points.
#[derive(Debug, Clone, Copy, PartialEq, Eq)]
pub struct Typography;

/// Elevation and z-index scale.
#[derive(Debug, Clone, Copy, PartialEq, Eq)]
pub struct Elevation;

impl Elevation {
    pub const BASE: i32 = 0;
    pub const DROPDOWN: i32 = 1000;
    pub const POPOVER: i32 = 1500;
    pub const MODAL_BACKDROP: i32 = 1999;
    pub const MODAL: i32 = 2000;
    pub const TOOLTIP: i32 = 3000;
    pub const TOAST: i32 = 4000;
}

/// Font weight definitions.
#[derive(Debug, Clone, Copy, PartialEq, Eq, Structural, Default)]
pub enum FontWeight {
    #[default]
    Regular,
    Medium,
    Semibold,
    Bold,
}

/// RGBA 32-bit color.
#[derive(Debug, Clone, Copy, PartialEq, Eq, Structural)]
pub struct Color {
    pub r: u8,
    pub g: u8,
    pub b: u8,
    pub a: u8,
}

/// The opaque color written `0xRRGGBB`.
pub open spec fn hex_color(h: u32) -> Color {
    Color {
        r: ((h / 65536) % 256) as u8,
        g: ((h / 256) % 256) as u8,
        b: (h % 256) as u8,
        a: 255,
    }
}

impl Color {
    pub fn rgba(r: u8, g: u8, b: u8, a: u8) -> (c: Self)
        ensures
            c == (Color { r, g, b, a }),
    {
        Color { r, g, b, a }
    }

    /// An opaque color.
    pub fn rgb(r: u8, g: u8, b: u8) -> (c: Self)
        ensures
            c == (Color { r, g, b, a: 255 }),
    {
        Color { r, g, b, a: 255 }
    }

    /// The opaque color written `0xRRGGBB`; higher bits are ignored.
    pub fn hex(hex: u32) -> (c: Self)
        ensures
            c == hex_color(hex),
    {
        let r = ((hex >> 16u32) & 0xffu32) as u8;
        let g = ((hex >> 8u32) & 0xffu32) as u8;
        let b = (hex & 0xffu32) as u8;
        assert(((hex >> 16u32) & 0xffu32) == (hex / 65536) % 256) by (bit_vector);
        assert(((hex >> 8u32) & 0xffu32) == (hex / 256) % 256) by (bit_vector);
        assert((hex & 0xffu32) == hex % 256) by (bit_vector);
        Color { r, g, b, a: 255 }
    }
}

/// Semantic color palette.
#[derive(Debug, Clone, Copy, PartialEq, Eq, Structural)]
pub struct ThemePalette {
    pub background: Color,
    pub surface: Color,
    pub surface_elevated: Color,
    pub border: Color,
    pub border_subtle: Color,
    pub text: Color,
    pub text_muted: Color,
    pub primary: Color,
    pub primary_hover: Color,
    pub success: Color,
    pub warning: Color,
    pub error: Color,
    pub focus_ring: Color,
}

pub open spec fn dark_palette() -> ThemePalette {
    ThemePalette {
        background: hex_color(0x18181b),
        surface: hex_color(0x27272a),
        surface_elevated: hex_color(0x3f3f46),
        border: hex_color(0x3f3f46),
        border_subtle: hex_color(0x27272a),
        text: hex_color(0xf4f4f5),
        text_muted: hex_color(0xa1a1aa),
        primary: hex_color(0x6366f1),
        primary_hover: hex_color(0x4f46e5),
        success: hex_color(0x22c55e),
        warning: hex_color(0xeab308),
        error: hex_color(0xef4444),
        focus_ring: hex_color(0x818cf8),
    }
}

pub open spec fn light_palette() -> ThemePalette {
    ThemePalette {
        background: hex_color(0xffffff),
        surface: hex_color(0xf4f4f5),
        surface_elevated: hex_color(0xe4e4e7),
        border: hex_color(0xd4d4d8),
        border_subtle: hex_color(0xe4e4e7),
        text: hex_color(0x09090b),
        text_muted: hex_color(0x71717a),
        primary: hex_color(0x4f46e5),
        primary_hover: hex_color(0x4338ca),
        success: hex_color(0x16a34a),
        warning: hex_color(0xca8a04),
        error: hex_color(0xdc2626),
        focus_ring: hex_color(0x6366f1),
    }
}

impl ThemePalette {
    pub fn dark() -> (p: Self)
        ensures
            p == dark_palette(),
    {
        ThemePalette {
            background: Color::hex(0x18181b),
            surface: Color::hex(0x27272a),
            surface_elevated: Color::hex(0x3f3f46),
            border: Color::hex(0x3f3f46),
            border_subtle: Color::hex(0x27272a),
            text: Color::hex(0xf4f4f5),
            text_muted: Color::hex(0xa1a1aa),
            primary: Color::hex(0x6366f1),
            primary_hover: Color::hex(0x4f46e5),
            success: Color::hex(0x22c55e),
            warning: Color::hex(0xeab308),
            error: Color::hex(0xef4444),
            focus_ring: Color::hex(0x818cf8),
        }
    }

    pub fn light() -> (p: Self)
        ensures
            p == light_palette(),
    {
        ThemePalette {
            background: Color::hex(0xffffff),
            surface: Color::hex(0xf4f4f5),
            surface_elevated: Color::hex(0xe4e4e7),
            border: Color::hex(0xd4d4d8),
            border_subtle: Color::hex(0xe4e4e7),
            text: Color::hex(0x09090b),
            text_muted: Color::hex(0x71717a),
            primary: Color::hex(0x4f46e5),
            primary_hover: Color::hex(0x4338ca),
            success: Color::hex(0x16a34a),
            warning: Color::hex(0xca8a04),
            error: Color::hex(0xdc2626),
            focus_ring: Color::hex(0x6366f1),
        }
    }
}

/// Colors of HTTP method badges.
#[derive(Debug, Clone, Copy, PartialEq, Eq)]
pub struct HttpMethodColors;

/// The badge color of a method name, compared uppercased.
pub open spec fn method_badge_color(m: Seq<char>) -> Color {
    if m == "GET"@ {
        hex_color(0x10b981)
    } else if m == "POST"@ {
        hex_color(0x3b82f6)
    } else if m == "PUT"@ {
        hex_color(0xf59e0b)
    } else if m == "PATCH"@ {
        hex_color(0x8b5cf6)
    } else if m == "DELETE"@ {
        hex_color(0xef4444)
    } else if m == "HEAD"@ {
        hex_color(0x64748b)
    } else if m == "OPTIONS"@ {
        hex_color(0x14b8a6)
    } else {
        hex_color(0x94a3b8)
    }
}

impl HttpMethodColors {
    pub fn color_for_method(method: &str) -> (c: Color)
        ensures
            c == method_badge_color(uppercase(method@)),
            is_ascii_text(method@) ==> c == method_badge_color(ascii_uppered(method@)),
    {
        let upper = to_uppercase(method);
        let m = upper.as_str();
        if str_eq(m, "GET") {
            Color::hex(0x10b981)
        } else if str_eq(m, "POST") {
            Color::hex(0x3b82f6)
        } else if str_eq(m, "PUT") {
            Color::hex(0xf59e0b)
        } else if str_eq(m, "PATCH") {
            Color::hex(0x8b5cf6)
        } else if str_eq(m, "DELETE") {
            Color::hex(0xef4444)
        } else if str_eq(m, "HEAD") {
            Color::hex(0x64748b)
        } else if str_eq(m, "OPTIONS") {
            Color::hex(0x14b8a6)
        } else {
            Color::hex(0x94a3b8)
        }
    }
}

/// Application theme mode setting.
#[derive(Debug, Clone, Copy, PartialEq, Eq, Structural, Default)]
pub enum ThemeMode {
    #[default]
    System,
    Dark,
    Light,
}

/// Theme switching and active palette resolution.
#[derive(Debug, Clone, Copy, PartialEq, Eq, Structural)]
pub struct ThemeRegistry {
    pub mode: ThemeMode,
    pub is_system_dark: bool,
}

/// The palette shown in a mode, the system's choice deciding `System`.
pub open spec fn palette_for(mode: ThemeMode, system_dark: bool) -> ThemePalette {
    match mode {
        ThemeMode::Dark => dark_palette(),
        ThemeMode::Light => light_palette(),
        ThemeMode::System => if system_dark {
            dark_palette()
        } else {
            light_palette()
        },
    }
}

impl ThemeRegistry {
    /// Follows the system, assumed dark until told otherwise.
    pub fn new() -> (r: Self)
        ensures
            r == (ThemeRegistry { mode: ThemeMode::System, is_system_dark: true }),
    {
        ThemeRegistry { mode: ThemeMode::System, is_system_dark: true }
    }

    pub fn set_mode(&mut self, mode: ThemeMode)
        ensures
            *final(self) == (ThemeRegistry { mode, ..*old(self) }),
    {
        self.mode = mode;
    }

    pub fn set_system_dark(&mut self, is_dark: bool)
        ensures
            *final(self) == (ThemeRegistry { is_system_dark: is_dark, ..*old(self) }),
    {
        self.is_system_dark = is_dark;
    }

    pub fn active_palette(&self) -> (p: ThemePalette)
        ensures
            p == palette_for(self.mode, self.is_system_dark),
    {
        match self.mode {
            ThemeMode::Dark => ThemePalette::dark(),
            ThemeMode::Light => ThemePalette::light(),
            ThemeMode::System => if self.is_system_dark {
                ThemePalette::dark()
            } else {
                ThemePalette::light()
            },
        }
    }
}

// ---------------------------------------------------------------------------
// Component descriptors
// ---------------------------------------------------------------------------

#[derive(Debug, Clone, Copy, PartialEq, Eq, Structural, Default)]
pub enum ButtonVariant {
    #[default]
    Primary,
    Secondary,
    Transparent,
    Danger,
}

#[derive(Debug, Clone, Copy, PartialEq, Eq, Structural, Default)]
pub enum ButtonSize {
    Small,
    #[default]
    Medium,
    Large,
}

#[derive(Debug, Clone, PartialEq)]
pub struct ButtonProps {
    pub label: String,
    pub icon: Option<String>,
    pub variant: ButtonVariant,
    pub size: ButtonSize,
    pub disabled: bool,
    pub loading: bool,
}

#[derive(Debug, Clone, PartialEq)]
pub struct TextInputProps {
    pub value: String,
    pub placeholder: String,
    pub is_password: bool,
    pub is_search: bool,
    pub clearable: bool,
    pub disabled: bool,
    pub error: Option<String>,
}

#[derive(Debug, Clone, PartialEq, Eq)]
pub struct ToggleProps {
    pub checked: bool,
    pub label: Option<String>,
    pub disabled: bool,
}

#[derive(Debug, Clone, PartialEq, Eq)]
pub struct CheckboxProps {
    pub checked: bool,
    pub label: String,
    pub disabled: bool,
}

#[derive(Debug, Clone, PartialEq, Eq)]
pub struct TabItem {
    pub id: String,
    pub title: String,
    pub is_active: bool,
    pub is_dirty: bool,
    pub is_pinned: bool,
    pub method_badge: Option<String>,
}

#[derive(Debug, Clone, Copy, PartialEq, Eq, Structural, Default)]
pub enum SplitOrientation {
    #[default]
    Horizontal,
    Vertical,
}

#[derive(Debug, Clone, PartialEq, Eq)]
pub enum TreeNodeType {
    Collection,
    Folder,
    Request { method: String },
}

/// A node of the sidebar tree, with its children.
#[derive(Debug, PartialEq, Eq)]
pub struct TreeNode {
    pub id: String,
    pub name: String,
    pub node_type: TreeNodeType,
    pub children: Vec<TreeNode>,
    pub is_expanded: bool,
    pub is_selected: bool,
}

#[derive(Debug, Clone, PartialEq)]
pub struct EmptyState {
    pub title: String,
    pub description: String,
    pub action_label: Option<String>,
}

#[derive(Debug, Clone, PartialEq)]
pub struct ErrorState {
    pub title: String,
    pub message: String,
    pub retry_label: Option<String>,
}

// ---------------------------------------------------------------------------
// Accessibility
// ---------------------------------------------------------------------------

#[derive(Debug, Clone, Copy, PartialEq, Eq, Structural)]
pub enum A11yRole {
    Button,
    Tab,
    TabPanel,
    TextField,
    Checkbox,
    Switch,
    TreeItem,
    Dialog,
    Alert,
}

/// For ASCII method names the badge color ignores case: raising the case of
/// a name that is already raised changes nothing, so a name and its
/// uppercased form get the same color.
pub proof fn law_badge_color_ignores_case(m: Seq<char>)
    requires
        is_ascii_text(m),
    ensures
        is_ascii_text(ascii_uppered(m)),
        ascii_uppered(ascii_uppered(m)) == ascii_uppered(m),
        method_badge_color(ascii_uppered(ascii_uppered(m))) == method_badge_color(ascii_uppered(m)),
{
    let u = ascii_uppered(m);
    assert forall|i: int| 0 <= i < u.len() implies (#[trigger] u[i] as u32) < 0x80 by {
        assert((m[i] as u32) < 0x80);
    }
    assert forall|i: int| 0 <= i < u.len() implies #[trigger] ascii_upper(u[i]) == u[i] by {
        let c = m[i];
        if 'a' <= c <= 'z' {
            assert(!('a' <= u[i] <= 'z'));
        }
    }
    assert(ascii_uppered(u) =~= u);
}
} // verus!
