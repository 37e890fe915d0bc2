//! The sort and search bar over the list: what its keys do, when searching
//! starts and stops, and which way its arrow points.
use crate::sort::{reversed, SortMethod};
use vstd::prelude::*;

verus! {

/// What a key pressed in the search input does.
#[derive(Debug, Clone, Copy, PartialEq, Eq, Structural)]
pub struct SearchKeyResponse {
    /// The search text and the input are emptied.
    pub clear_search: bool,
    /// The input loses the focus.
    pub blur: bool,
    /// The key is handed on to the list's own key handler.
    pub forward: bool,
}

/// The response to the key `key` in the search input, where the input is
/// on the page or not: Escape empties the search and leaves the input,
/// Enter leaves it, and every key is handed on.
pub fn search_input_key(key: &str, has_input: bool) -> (r: SearchKeyResponse)
    ensures
        r == (SearchKeyResponse {
            clear_search: has_input && key@ == "Escape"@,
            blur: has_input && (key@ == "Escape"@ || key@ == "Enter"@),
            forward: true,
        }),
{
    let k = key.to_owned();
    let escape = k == "Escape".to_owned();
    let enter = k == "Enter".to_owned();
    SearchKeyResponse { clear_search: has_input && escape, blur: has_input && (escape || enter), forward: true }
}

/// Whether a key pressed anywhere on the page opens the search: `/` does.
pub fn key_opens_search(key: &str) -> (r: bool)
    ensures
        r == (key@ == "/"@),
{
    key.to_owned() == "/".to_owned()
}

/// Whether the search stays open when its input loses the focus: only
/// while something is typed in it.
pub fn stays_searching(input_value: &str) -> (r: bool)
    ensures
        r == (input_value@.len() > 0),
{
    !input_value.is_empty()
}

/// The arrow of the button that reverses the order: down for a reversed
/// order, up otherwise.
pub fn sort_arrow(m: SortMethod) -> (r: &'static str)
    ensures
        r@ == (if reversed(m) { "fa-solid fa-arrow-down"@ } else { "fa-solid fa-arrow-up"@ }),
{
    if m.is_reversed() {
        "fa-solid fa-arrow-down"
    } else {
        "fa-solid fa-arrow-up"
    }
}

} // verus!
