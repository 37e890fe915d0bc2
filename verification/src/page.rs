//! The page layout: a sidebar whose edge can be dragged, the content beside
//! it, and the accent colour the page is painted in.
use crate::color::{color_text, Color};
use vstd::prelude::*;
use vstd::string::*;

verus! {

/// The narrowest the sidebar can be dragged, in pixels.
pub const SIDEBAR_MIN_WIDTH: usize = 280;

/// What dragging the sidebar's edge to a pointer position does.
#[derive(Debug, Clone, Copy, PartialEq, Eq, Structural)]
pub enum ResizeStep {
    /// The sidebar follows the pointer to this width at once, without a
    /// transition.
    Follow(usize),
    /// The pointer is too close to the window's edge: the sidebar keeps its
    /// width and animates again.
    Hold,
}

/// The step for a drag to the horizontal position `client_x`. The position
/// is read as a `usize`, so a negative one wraps around to a large width.
pub open spec fn resize_step_of(client_x: i32) -> ResizeStep {
    if (client_x as usize) > SIDEBAR_MIN_WIDTH {
        ResizeStep::Follow(client_x as usize)
    } else {
        ResizeStep::Hold
    }
}

/// Decides what a drag of the sidebar's edge to `client_x` does.
pub fn resize_step(client_x: i32) -> (r: ResizeStep)
    ensures
        r == resize_step_of(client_x),
{
    let x = client_x as usize;
    if x > SIDEBAR_MIN_WIDTH {
        ResizeStep::Follow(x)
    } else {
        ResizeStep::Hold
    }
}

/// The style of a page: the CSS variable `--accent` set to its colour.
pub open spec fn page_style(accent: Color) -> Seq<char> {
    "--accent: "@ + color_text(accent) + ";"@
}

/// Writes the style of a page painted in `accent`.
pub fn page_css_vars(accent: Color) -> (r: String)
    ensures
        r@ == page_style(accent),
{
    let mut s = String::new();
    proof {
        reveal_strlit("--accent: ");
        reveal_strlit(";");
    }
    s.append("--accent: ");
    let c = accent.to_string();
    s.append(c.as_str());
    s.append(";");
    proof {
        assert(s@ =~= page_style(accent));
    }
    s
}

/// What the page knows of its sidebar: whether it is shown, whether it
/// hides by itself, and how wide it is.
#[derive(Debug, Clone, Copy, PartialEq, Eq, Structural)]
pub struct SidebarProps {
    pub is_shown: bool,
    pub auto_hide: bool,
    pub width: usize,
}

impl Default for SidebarProps {
    /// Hidden, not hiding by itself, 400 pixels wide.
    fn default() -> (r: SidebarProps)
        ensures
            r == (SidebarProps { is_shown: false, auto_hide: false, width: 400 }),
    {
        SidebarProps { is_shown: false, auto_hide: false, width: 400 }
    }
}

/// How a page is laid out: whether the sidebar is in view, whether the
/// content takes the full width, whether the page hides its sidebar by
/// itself, and where the resize bar stands.
#[derive(Debug, Clone, Copy, PartialEq, Eq, Structural)]
pub struct PageLayout {
    pub sidebar_in_view: bool,
    pub content_full_width: bool,
    pub auto_hide: bool,
    pub resize_position: usize,
}

/// The layout of a page with the sidebar `sidebar`, if it has one: a page
/// without a sidebar shows its content over the full width.
pub fn page_layout(sidebar: Option<SidebarProps>) -> (r: PageLayout)
    ensures
        r == (match sidebar {
            Some(s) => PageLayout {
                sidebar_in_view: s.is_shown,
                content_full_width: !s.is_shown,
                auto_hide: s.auto_hide,
                resize_position: s.width,
            },
            None => PageLayout {
                sidebar_in_view: false,
                content_full_width: true,
                auto_hide: false,
                resize_position: 0,
            },
        }),
{
    match sidebar {
        Some(s) => PageLayout {
            sidebar_in_view: s.is_shown,
            content_full_width: !s.is_shown,
            auto_hide: s.auto_hide,
            resize_position: s.width,
        },
        None => PageLayout { sidebar_in_view: false, content_full_width: true, auto_hide: false, resize_position: 0 },
    }
}

/// The border of the about dialog: two pixels in the accent colour, or
/// none without one.
pub fn about_border_style(accent: Option<&str>) -> (r: String)
    ensures
        r@ == (match accent {
            Some(a) => "border: 2px solid "@ + a@ + ";"@,
            None => Seq::<char>::empty(),
        }),
{
    proof {
        reveal_strlit("border: 2px solid ");
        reveal_strlit(";");
    }
    let mut s = String::new();
    match accent {
        Some(a) => {
            s.append("border: 2px solid ");
            s.append(a);
            s.append(";");
        },
        None => {},
    }
    s
}

/// The background of the about dialog's buttons: the accent colour, or
/// none without one.
pub fn about_button_style(accent: Option<&str>) -> (r: String)
    ensures
        r@ == (match accent {
            Some(a) => "background: "@ + a@ + ";"@,
            None => Seq::<char>::empty(),
        }),
{
    proof {
        reveal_strlit("background: ");
        reveal_strlit(";");
    }
    let mut s = String::new();
    match accent {
        Some(a) => {
            s.append("background: ");
            s.append(a);
            s.append(";");
        },
        None => {},
    }
    s
}

/// The picture on the navbar's sidebar button: one that closes the sidebar
/// while it is shown, one that opens it otherwise.
pub fn sidebar_icon(show_sidebar: bool) -> (r: &'static str)
    ensures
        r@ == (if show_sidebar {
            "/icons/sidebar-left-closed-svgrepo-com-white.svg"@
        } else {
            "/icons/sidebar-left-svgrepo-com-white.svg"@
        }),
{
    if show_sidebar {
        "/icons/sidebar-left-closed-svgrepo-com-white.svg"
    } else {
        "/icons/sidebar-left-svgrepo-com-white.svg"
    }
}

} // verus!
