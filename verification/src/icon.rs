//! Icons and buttons: which style class each kind uses and how an icon's
//! colour is written.
use crate::color::{color_text, push_hex, Color};
use vstd::prelude::*;
use vstd::string::*;

verus! {

/// The icons the interface draws.
#[derive(Debug, Clone, Copy, PartialEq, Eq, Structural)]
pub enum IconKind {
    Cross,
    Edit,
    SidebarOpen,
    SidebarClosed,
    TrashCan,
    CaretRight,
    ArrowHeadDown,
    Favicon,
    Search,
    Sort,
    Arrow,
    Settings,
    Ellipsis,
    LogOut,
    LogIn,
    AddAccount,
    ArrowRight,
    ArrowLeft,
    ArrowUp,
    ArrowDown,
    Plus,
    HamburgerMenu,
    Visible,
    NotVisible,
    InscribedCheck,
    FilledInscribedCheck,
}

/// The name of the style class of each icon in the icon style sheet.
pub open spec fn icon_style(k: IconKind) -> Seq<char> {
    match k {
        IconKind::Cross => "cross"@,
        IconKind::Edit => "edit"@,
        IconKind::SidebarOpen => "sidebar_left_open"@,
        IconKind::SidebarClosed => "sidebar_left_closed"@,
        IconKind::TrashCan => "trash_can"@,
        IconKind::CaretRight => "caret_right"@,
        IconKind::ArrowHeadDown => "arrow_head_down"@,
        IconKind::Favicon => "favicon"@,
        IconKind::Search => "search"@,
        IconKind::Sort => "sort"@,
        IconKind::Arrow => "arrow"@,
        IconKind::Settings => "settings"@,
        IconKind::Ellipsis => "ellipsis"@,
        IconKind::LogOut => "log_out"@,
        IconKind::LogIn => "log_in"@,
        IconKind::AddAccount => "add_account"@,
        IconKind::ArrowRight => "arrow_right"@,
        IconKind::ArrowLeft => "arrow_left"@,
        IconKind::ArrowUp => "arrow_up"@,
        IconKind::ArrowDown => "arrow_down"@,
        IconKind::Plus => "plus"@,
        IconKind::HamburgerMenu => "hamburger"@,
        IconKind::Visible => "visible"@,
        IconKind::NotVisible => "not_visible"@,
        IconKind::InscribedCheck => "inscribed_check"@,
        IconKind::FilledInscribedCheck => "filled_inscribed_check"@,
    }
}

impl IconKind {
    /// The name of this icon's class in the icon style sheet.
    pub fn into_class(self) -> (r: &'static str)
        ensures
            r@ == icon_style(self),
    {
        match self {
            IconKind::Cross => "cross",
            IconKind::Edit => "edit",
            IconKind::SidebarOpen => "sidebar_left_open",
            IconKind::SidebarClosed => "sidebar_left_closed",
            IconKind::TrashCan => "trash_can",
            IconKind::CaretRight => "caret_right",
            IconKind::ArrowHeadDown => "arrow_head_down",
            IconKind::Favicon => "favicon",
            IconKind::Search => "search",
            IconKind::Sort => "sort",
            IconKind::Arrow => "arrow",
            IconKind::Settings => "settings",
            IconKind::Ellipsis => "ellipsis",
            IconKind::LogOut => "log_out",
            IconKind::LogIn => "log_in",
            IconKind::AddAccount => "add_account",
            IconKind::ArrowRight => "arrow_right",
            IconKind::ArrowLeft => "arrow_left",
            IconKind::ArrowUp => "arrow_up",
            IconKind::ArrowDown => "arrow_down",
            IconKind::Plus => "plus",
            IconKind::HamburgerMenu => "hamburger",
            IconKind::Visible => "visible",
            IconKind::NotVisible => "not_visible",
            IconKind::InscribedCheck => "inscribed_check",
            IconKind::FilledInscribedCheck => "filled_inscribed_check",
        }
    }
}

/// The colour an icon is drawn in; white unless told otherwise.
#[derive(Debug, Clone, Copy, PartialEq, Eq, Structural)]
pub enum IconColor {
    White,
    Black,
    Accent,
    RGB(u8, u8, u8),
}

/// The CSS value of an icon colour.
pub open spec fn icon_color_text(c: IconColor) -> Seq<char> {
    match c {
        IconColor::White => "white"@,
        IconColor::Black => "black"@,
        IconColor::Accent => "var(--accent)"@,
        IconColor::RGB(r, g, b) => color_text(Color::RGB(r, g, b)),
    }
}

impl Default for IconColor {
    fn default() -> (r: IconColor)
        ensures
            r == IconColor::White,
    {
        IconColor::White
    }
}

impl IconColor {
    /// The CSS value of this colour: a name, the accent variable, or `#`
    /// and each channel in lower-case hex without leading zeros.
    pub fn to_string(&self) -> (r: String)
        ensures
            r@ == icon_color_text(*self),
    {
        match self {
            IconColor::White => "white".to_owned(),
            IconColor::Black => "black".to_owned(),
            IconColor::Accent => "var(--accent)".to_owned(),
            IconColor::RGB(r, g, b) => {
                let mut s = String::new();
                s.append("#");
                proof {
                    reveal_strlit("#");
                }
                push_hex(&mut s, *r);
                push_hex(&mut s, *g);
                push_hex(&mut s, *b);
                s
            },
        }
    }
}

/// What an icon is drawn with: its style class and its background.
#[derive(Debug, Clone, PartialEq, Eq)]
pub struct IconStyle {
    pub class: &'static str,
    pub background: String,
}

/// The class and background of an icon of `kind` drawn in `color`.
#[allow(non_snake_case)]
pub fn Icon(kind: IconKind, color: IconColor) -> (r: IconStyle)
    ensures
        r.class@ == icon_style(kind),
        r.background@ == icon_color_text(color),
{
    IconStyle { class: kind.into_class(), background: color.to_string() }
}

/// How a button reacts to the pointer: darker, unless told lighter.
#[derive(Debug, Clone, Copy, PartialEq, Eq, Structural)]
pub enum ButtonHover {
    Darken,
    Lighten,
}

impl Default for ButtonHover {
    fn default() -> (r: ButtonHover)
        ensures
            r == ButtonHover::Darken,
    {
        ButtonHover::Darken
    }
}

impl ButtonHover {
    /// The name of the hover class in the button style sheet.
    pub fn into_class(self) -> (r: &'static str)
        ensures
            r@ == (match self {
                ButtonHover::Darken => "darken"@,
                ButtonHover::Lighten => "lighten"@,
            }),
    {
        match self {
            ButtonHover::Darken => "darken",
            ButtonHover::Lighten => "lighten",
        }
    }
}

} // verus!
