//! Forms, inputs and menus: the plain data they carry and the choices they
//! make about how they are drawn.
use crate::icon::IconKind;
use vstd::prelude::*;

verus! {

/// A request to change the user name, confirmed with the password.
#[derive(Debug, Clone, PartialEq, Eq)]
pub struct FormData {
    pub new_username: String,
    pub password: String,
}

/// The user name in the path of a user's pages.
#[derive(Debug, Clone, PartialEq, Eq)]
pub struct UserName {
    pub id: String,
}

/// Extra attributes for an input, as name and value.
#[derive(Debug, Clone, Default)]
pub struct InputAttributes {
    pub attrs: Vec<(String, String)>,
}

impl InputAttributes {
    /// The attributes, in the order they were given.
    pub fn into_attrs(self) -> (r: Vec<(String, String)>)
        ensures
            r@ == self.attrs@,
    {
        self.attrs
    }
}

/// How a text field aligns its text: numbers to the end.
pub fn text_align(type_: &str) -> (r: &'static str)
    ensures
        r@ == (if type_@ == "number"@ { "end"@ } else { "unset"@ }),
{
    if type_.to_owned() == "number".to_owned() {
        "end"
    } else {
        "unset"
    }
}

/// The button that opens a menu: an icon, an ellipsis unless told
/// otherwise, and extra attributes.
#[derive(Debug, Clone)]
pub struct MenuButton {
    pub icon: IconKind,
    pub attrs: Vec<(String, String)>,
}

impl Default for MenuButton {
    fn default() -> (r: MenuButton)
        ensures
            r.icon == IconKind::Ellipsis,
            r.attrs@.len() == 0,
    {
        MenuButton { icon: IconKind::Ellipsis, attrs: Vec::new() }
    }
}

/// An entry of a menu: an optional icon, a label and extra attributes.
#[derive(Debug, Clone, Default)]
pub struct MenuEntrySlot {
    pub icon: Option<IconKind>,
    pub label: String,
    pub attrs: Vec<(String, String)>,
}

/// How a menu entry is drawn.
#[derive(Debug, Clone, Copy, PartialEq, Eq, Structural)]
pub enum MenuEntryLayout {
    /// The children it was given, as they are.
    Children,
    /// A button that links to a page.
    Link,
    /// A plain button.
    Plain,
}

/// Children win over a link, a link over a plain button.
pub fn menu_entry_layout(has_children: bool, has_href: bool) -> (r: MenuEntryLayout)
    ensures
        r == (if has_children {
            MenuEntryLayout::Children
        } else if has_href {
            MenuEntryLayout::Link
        } else {
            MenuEntryLayout::Plain
        }),
{
    if has_children {
        MenuEntryLayout::Children
    } else if has_href {
        MenuEntryLayout::Link
    } else {
        MenuEntryLayout::Plain
    }
}

/// Whether an entry shows its icon and label: only when it has an icon.
pub fn shows_label(slot: &MenuEntrySlot) -> (r: bool)
    ensures
        r == slot.icon.is_some(),
{
    slot.icon.is_some()
}

/// The element that separates groups of menu entries: a rule.
#[allow(non_snake_case)]
pub fn MenuBreak() -> (r: &'static str)
    ensures
        r@ == "hr"@,
{
    "hr"
}

} // verus!
