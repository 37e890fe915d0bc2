//! The context menu of an element in the list: a link to edit it, a row
//! that marks a phase a success, and a row that deletes it.
use crate::color::hex_char;
use crate::message::ServerFnError;
use vstd::prelude::*;
use vstd::string::*;

verus! {

/// The last `n` hex digits of `v` in lower case, the most significant
/// first, with leading zeros.
pub open spec fn hex_digits(v: nat, n: nat) -> Seq<char>
    decreases n,
{
    if n == 0 {
        Seq::empty()
    } else {
        hex_digits(v / 16, (n - 1) as nat).push(hex_char(v % 16))
    }
}

/// The hyphenated text of the UUID with the bits `id`: its 32 hex digits
/// in groups of 8, 4, 4, 4 and 12.
pub open spec fn hyphenated(id: u128) -> Seq<char> {
    let d = hex_digits(id as nat, 32);
    d.subrange(0, 8) + "-"@ + d.subrange(8, 12) + "-"@ + d.subrange(12, 16) + "-"@ + d.subrange(16, 20) + "-"@
        + d.subrange(20, 32)
}

/// Calls `uuid::Uuid::from_u128(id)` and writes the UUID with
/// `to_string`. The crate reads the bits big-endian and writes a UUID as
/// its lower-case hyphenated form: two hex digits per byte, with hyphens
/// after the 8th, 12th, 16th and 20th digit. The contract claims that text.
#[verifier::external_body]
fn uuid_text(id: u128) -> (r: String)
    ensures
        r@ == hyphenated(id),
{
    uuid::Uuid::from_u128(id).to_string()
}

/// The link that edits the element `key`: `edit/` and its UUID.
pub fn edit_href(key: u128) -> (r: String)
    ensures
        r@ == "edit/"@ + hyphenated(key),
{
    proof {
        reveal_strlit("edit/");
    }
    let mut s = String::new();
    s.append("edit/");
    let id = uuid_text(key);
    s.append(id.as_str());
    s
}

/// The text of the row that marks a phase: it undoes a mark that is set.
pub fn success_label(is_success: bool) -> (r: &'static str)
    ensures
        r@ == (if is_success { "Unmark Success"@ } else { "Mark Success"@ }),
{
    if is_success {
        "Unmark Success"
    } else {
        "Mark Success"
    }
}

/// The rows of the menu: editing, marking success for a phase only, and
/// deleting.
#[derive(Debug, Clone, Copy, PartialEq, Eq, Structural)]
pub enum MenuRow {
    Edit,
    ToggleSuccess,
    Delete,
}

/// The rows shown for an element that is a phase or not.
pub fn menu_rows(is_phase: bool) -> (r: Vec<MenuRow>)
    ensures
        r@ == (if is_phase {
            seq![MenuRow::Edit, MenuRow::ToggleSuccess, MenuRow::Delete]
        } else {
            seq![MenuRow::Edit, MenuRow::Delete]
        }),
{
    if is_phase {
        vec![MenuRow::Edit, MenuRow::ToggleSuccess, MenuRow::Delete]
    } else {
        vec![MenuRow::Edit, MenuRow::Delete]
    }
}

/// What follows a request to delete an element.
#[derive(Debug, Clone, PartialEq, Eq)]
pub enum DeleteFollowUp {
    /// Nothing has come back yet.
    Wait,
    /// The server archived it: go back to the start page.
    Navigate(&'static str),
    /// The server refused: show its error.
    ShowError(ServerFnError),
}

/// What to do once the answer to a delete request is `answer`, if one came.
pub fn after_delete(answer: Option<Result<(), ServerFnError>>) -> (r: DeleteFollowUp)
    ensures
        match answer {
            None => r == DeleteFollowUp::Wait,
            Some(Ok(())) => r matches DeleteFollowUp::Navigate(p) && p@ == "/"@,
            Some(Err(e)) => r == DeleteFollowUp::ShowError(e),
        },
{
    match answer {
        None => DeleteFollowUp::Wait,
        Some(Ok(())) => DeleteFollowUp::Navigate("/"),
        Some(Err(e)) => DeleteFollowUp::ShowError(e),
    }
}

} // verus!
