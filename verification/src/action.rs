//! The progress-reporting widget's state and message text: an action moves
//! from in-progress to success or error, and each state has a colored,
//! indented message line. Writing the line to a terminal, and overwriting the
//! previous one, is the caller's.

use vstd::prelude::*;
use vstd::string::StringExecFns;

use crate::style::{bold, bold_seq, cyan, cyan_seq, green, green_seq, red, red_seq, reset,
    reset_seq};

verus! {

/// Action state.
#[derive(Debug, Clone, Copy, PartialEq, Eq, Structural)]
pub enum State {
    /// The action is in progress.
    InProgress,
    /// The action was a success.
    Success,
    /// The action was an error.
    Error,
}

/// Action progress reporter.
pub struct Action {
    /// The current state of the action.
    pub state: State,
    /// Verb for the in-progress action.
    pub actioning_verb: String,
    /// Verb for the completed action.
    pub actioned_verb: String,
    /// Details for the action.
    pub detail: String,
    /// The number of characters to indent the action by.
    pub indent: usize,
    /// Should the action overwrite the previous line when printing.
    pub should_overwrite: bool,
}

/// `n` spaces.
pub open spec fn indent_spaces(n: nat) -> Seq<char> {
    Seq::new(n, |i: int| ' ')
}

/// The message line of an action in the given state: the indent, then the
/// bolded, colored verb — cyan and ongoing while in progress, green and done
/// on success, red and ongoing with a trailing `failed` on error — and the
/// detail.
pub open spec fn action_message_spec(
    state: State,
    indent: nat,
    actioning_verb: Seq<char>,
    actioned_verb: Seq<char>,
    detail: Seq<char>,
) -> Seq<char> {
    match state {
        State::InProgress => indent_spaces(indent) + cyan_seq() + bold_seq() + actioning_verb
            + reset_seq() + " "@ + detail,
        State::Success => indent_spaces(indent) + green_seq() + bold_seq() + actioned_verb
            + reset_seq() + " "@ + detail,
        State::Error => indent_spaces(indent) + red_seq() + bold_seq() + actioning_verb
            + reset_seq() + " "@ + detail + " "@ + red_seq() + bold_seq() + "failed"@
            + reset_seq(),
    }
}

/// `n` spaces, as a string.
pub fn spaces(n: usize) -> (r: String)
    ensures
        r@ == indent_spaces(n as nat),
{
    let mut s = String::new();
    let mut i: usize = 0;
    proof {
        reveal_strlit(" ");
        assert(s@ =~= indent_spaces(0));
    }
    while i < n
        invariant
            i <= n,
            s@ == indent_spaces(i as nat),
        decreases n - i,
    {
        s.append(" ");
        proof {
            reveal_strlit(" ");
            assert(s@ =~= indent_spaces(i as nat + 1));
        }
        i = i + 1;
    }
    s
}

impl Action {
    /// Create a new in-progress action. Reporting it is the caller's: a
    /// terminal front end prints the in-progress line as soon as the action
    /// exists.
    pub fn new(actioning_verb: String, actioned_verb: String, detail: String, indent: usize) -> (r:
        Action)
        ensures
            r.state == State::InProgress,
            r.actioning_verb@ == actioning_verb@,
            r.actioned_verb@ == actioned_verb@,
            r.detail@ == detail@,
            r.indent == indent,
            r.should_overwrite == false,
    {
        Action {
            state: State::InProgress,
            actioning_verb,
            actioned_verb,
            detail,
            indent,
            should_overwrite: false,
        }
    }

    /// Update the state of the action; everything else is kept.
    pub fn set_state(&mut self, state: State)
        ensures
            final(self).state == state,
            final(self).actioning_verb == old(self).actioning_verb,
            final(self).actioned_verb == old(self).actioned_verb,
            final(self).detail == old(self).detail,
            final(self).indent == old(self).indent,
            final(self).should_overwrite == old(self).should_overwrite,
    {
        self.state = state;
    }

    /// Set the action to not overwrite the previous line.
    pub fn dont_overwrite(&mut self)
        ensures
            final(self).should_overwrite == false,
            final(self).state == old(self).state,
            final(self).actioning_verb == old(self).actioning_verb,
            final(self).actioned_verb == old(self).actioned_verb,
            final(self).detail == old(self).detail,
            final(self).indent == old(self).indent,
    {
        self.should_overwrite = false;
    }

    /// Record that the action's line was written: the next print overwrites
    /// it.
    pub fn mark_printed(&mut self)
        ensures
            final(self).should_overwrite == true,
            final(self).state == old(self).state,
            final(self).actioning_verb == old(self).actioning_verb,
            final(self).actioned_verb == old(self).actioned_verb,
            final(self).detail == old(self).detail,
            final(self).indent == old(self).indent,
    {
        self.should_overwrite = true;
    }

    /// The message line for this action in the given state, per
    /// [`action_message_spec`].
    pub fn message_string(&self, state: State) -> (r: String)
        ensures
            r@ == action_message_spec(
                state,
                self.indent as nat,
                self.actioning_verb@,
                self.actioned_verb@,
                self.detail@,
            ),
    {
        let indent = spaces(self.indent);
        match state {
            State::InProgress => indent.concat(cyan()).concat(bold()).concat(
                self.actioning_verb.as_str(),
            ).concat(reset()).concat(" ").concat(self.detail.as_str()),
            State::Success => indent.concat(green()).concat(bold()).concat(
                self.actioned_verb.as_str(),
            ).concat(reset()).concat(" ").concat(self.detail.as_str()),
            State::Error => indent.concat(red()).concat(bold()).concat(
                self.actioning_verb.as_str(),
            ).concat(reset()).concat(" ").concat(self.detail.as_str()).concat(" ").concat(
                red(),
            ).concat(bold()).concat("failed").concat(reset()),
        }
    }
}

/// Extension trait to update an action's state from an outcome.
pub trait ActionResult: Sized {
    /// Use self to update the action: success or error by the outcome.
    fn bind_result(self, action: &mut Action) -> Self;

    /// Use self to error the action: only a failed outcome changes it.
    fn bind_error(self, action: &mut Action) -> Self;
}

impl<T, E> ActionResult for Result<T, E> {
    fn bind_result(self, action: &mut Action) -> Self {
        match &self {
            Ok(_) => action.set_state(State::Success),
            Err(_) => action.set_state(State::Error),
        }
        self
    }

    fn bind_error(self, action: &mut Action) -> Self {
        if self.is_err() {
            action.set_state(State::Error);
        }
        self
    }
}

impl<T> ActionResult for Option<T> {
    fn bind_result(self, action: &mut Action) -> Self {
        match &self {
            Some(_) => action.set_state(State::Success),
            None => action.set_state(State::Error),
        }
        self
    }

    fn bind_error(self, action: &mut Action) -> Self {
        if self.is_none() {
            action.set_state(State::Error);
        }
        self
    }
}

} // verus!
