//! The confirmation dialog: its buttons settle a question that code is
//! waiting on.
use vstd::prelude::*;

verus! {

/// How the dialog was closed.
#[derive(Debug, Clone, Copy, PartialEq, Eq, Structural)]
pub enum Reason {
    Background,
    CancelButton,
    OkButton,
}

/// The state of a question: whether someone waits on it, whether it is
/// settled and whether it was confirmed.
#[derive(Debug, Default, Clone, Copy, PartialEq, Eq, Structural)]
pub struct ConfirmHandlerState {
    pub waiting: bool,
    pub completed: bool,
    pub confirm: bool,
}

/// A question put to the user.
#[derive(Debug, Default, Clone, Copy, PartialEq, Eq, Structural)]
pub struct ConfirmHandler {
    pub state: ConfirmHandlerState,
}

impl ConfirmHandler {
    /// Settles the question as confirmed. Returns whether someone was
    /// waiting and must be woken.
    pub fn confirm(&mut self) -> (wake: bool)
        ensures
            wake == old(self).state.waiting,
            final(self).state == (ConfirmHandlerState { waiting: false, completed: true, confirm: true }),
    {
        self.state.confirm = true;
        self.state.completed = true;
        let wake = self.state.waiting;
        self.state.waiting = false;
        wake
    }

    /// Settles the question as not confirmed, unless it was confirmed
    /// before. Returns whether someone was waiting and must be woken.
    pub fn cancel(&mut self) -> (wake: bool)
        ensures
            wake == old(self).state.waiting,
            final(self).state == (ConfirmHandlerState { waiting: false, completed: true, confirm: old(self).state.confirm }),
    {
        self.state.completed = true;
        let wake = self.state.waiting;
        self.state.waiting = false;
        wake
    }

    /// Asks for the answer: `Some` once the question is settled; `None`
    /// until then, and the asker is registered to be woken.
    pub fn poll(&mut self) -> (r: Option<bool>)
        ensures
            r == answer(old(self).state),
            old(self).state.completed ==> *final(self) == *old(self),
            !old(self).state.completed ==> final(self).state == (ConfirmHandlerState { waiting: true, ..old(self).state }),
    {
        if self.state.completed {
            Some(self.state.confirm)
        } else {
            self.state.waiting = true;
            None
        }
    }

    /// What a way of closing the dialog does: the OK button confirms, the
    /// others cancel. Returns whether someone must be woken.
    pub fn on_event(&mut self, reason: Reason) -> (wake: bool)
        ensures
            wake == old(self).state.waiting,
            final(self).state == after_event(old(self).state, reason),
    {
        match reason {
            Reason::Background => self.cancel(),
            Reason::CancelButton => self.cancel(),
            Reason::OkButton => self.confirm(),
        }
    }
}

/// The state after the dialog was closed for `reason`.
pub open spec fn after_event(s: ConfirmHandlerState, reason: Reason) -> ConfirmHandlerState {
    ConfirmHandlerState { waiting: false, completed: true, confirm: reason is OkButton || s.confirm }
}

/// What asking for the answer gives in state `s`.
pub open spec fn answer(s: ConfirmHandlerState) -> Option<bool> {
    if s.completed {
        Some(s.confirm)
    } else {
        None
    }
}

/// An open question that was not confirmed is answered by the way its
/// dialog is closed: yes for the OK button, no otherwise; asking again
/// gives the same answer, and closing it again changes nothing.
pub proof fn lemma_answer(s: ConfirmHandlerState, reason: Reason, again: Reason)
    requires
        !s.confirm,
    ensures
        answer(after_event(s, reason)) == Some(reason is OkButton),
        after_event(s, reason).completed,
        !(reason is OkButton) ==> answer(after_event(after_event(s, reason), again)) == Some(again is OkButton),
        reason is OkButton ==> answer(after_event(after_event(s, reason), again)) == Some(true),
{
}

/// The answer to a question whose dialog was dismissed.
#[derive(Debug, Default, Clone, Copy, PartialEq, Eq, Structural)]
pub struct Canceled {}

} // verus!
