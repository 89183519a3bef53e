use vstd::prelude::*;

verus! {

/// What the user answered for the entry on show.
#[derive(Debug, PartialEq, Eq, Structural, Clone, Copy)]
pub enum ReviewCommand {
    /// Go on to the next entry.
    Next,
    /// Flip the flag of the entry on show and save.
    Toggle,
    /// End the review.
    Quit,
    /// Anything else.
    Unknown,
}

/// Where a review stands: on an entry of the queue, by position, or finished.
#[derive(Debug, PartialEq, Eq, Structural, Clone, Copy)]
pub enum ReviewState {
    Presenting(usize),
    Done,
}

/// What the runner of a review does after a step.
#[derive(Debug, PartialEq, Eq, Structural, Clone, Copy)]
pub enum ReviewAction {
    /// Show the entry at this position of the queue and read an answer.
    Present(usize),
    /// Flip and save the entry at this position, then show it again.
    ToggleAndPresent(usize),
    /// Report the answer as unrecognised, then show the same entry again.
    Reject(usize),
    /// Stop.
    Finish,
}

/// The command that an answer names: `n`, `t` or `q`, and nothing else.
pub open spec fn command_of(input: Seq<char>) -> ReviewCommand {
    if input == seq!['n'] {
        ReviewCommand::Next
    } else if input == seq!['t'] {
        ReviewCommand::Toggle
    } else if input == seq!['q'] {
        ReviewCommand::Quit
    } else {
        ReviewCommand::Unknown
    }
}

/// The state in which a review of `len` entries opens.
pub open spec fn start_state(len: nat) -> ReviewState {
    if len == 0 {
        ReviewState::Done
    } else {
        ReviewState::Presenting(0)
    }
}

/// The action that goes with a state: show its entry, or stop.
pub open spec fn action_of(s: ReviewState) -> ReviewAction {
    match s {
        ReviewState::Presenting(i) => ReviewAction::Present(i),
        ReviewState::Done => ReviewAction::Finish,
    }
}

/// A state that fits a queue of `len` entries.
pub open spec fn state_fits(s: ReviewState, len: nat) -> bool {
    match s {
        ReviewState::Presenting(i) => i < len,
        ReviewState::Done => true,
    }
}

/// One transition of a review of `len` entries.
pub open spec fn transition(s: ReviewState, c: ReviewCommand, len: nat) -> (ReviewState, ReviewAction) {
    match s {
        ReviewState::Done => (ReviewState::Done, ReviewAction::Finish),
        ReviewState::Presenting(i) => match c {
            ReviewCommand::Next => if i + 1 < len {
                (ReviewState::Presenting((i + 1) as usize), ReviewAction::Present((i + 1) as usize))
            } else {
                (ReviewState::Done, ReviewAction::Finish)
            },
            ReviewCommand::Toggle => (ReviewState::Presenting(i), ReviewAction::ToggleAndPresent(i)),
            ReviewCommand::Quit => (ReviewState::Done, ReviewAction::Finish),
            ReviewCommand::Unknown => (ReviewState::Presenting(i), ReviewAction::Reject(i)),
        },
    }
}

/// Reads an answer, already stripped of surrounding white space.
pub fn parse_command(input: &str) -> (r: ReviewCommand)
    ensures
        r == command_of(input@),
{
    proof {
        reveal_strlit("n");
    }
    if input.unicode_len() != 1 {
        assert(input@ != seq!['n'] && input@ != seq!['t'] && input@ != seq!['q']);
        return ReviewCommand::Unknown;
    }
    let c = input.get_char(0);
    if c == 'n' {
        assert(input@ =~= seq!['n']);
        ReviewCommand::Next
    } else if c == 't' {
        assert(input@ =~= seq!['t']);
        ReviewCommand::Toggle
    } else if c == 'q' {
        assert(input@ =~= seq!['q']);
        ReviewCommand::Quit
    } else {
        assert(input@ != seq!['n'] && input@ != seq!['t'] && input@ != seq!['q']) by {
            assert(input@[0] == c);
        }
        ReviewCommand::Unknown
    }
}

/// Opens a review of `len` entries: on the first, or finished when there is none.
pub fn start(len: usize) -> (r: (ReviewState, ReviewAction))
    ensures
        r.0 == start_state(len as nat),
        r.1 == action_of(r.0),
        state_fits(r.0, len as nat),
{
    if len == 0 {
        (ReviewState::Done, ReviewAction::Finish)
    } else {
        (ReviewState::Presenting(0), ReviewAction::Present(0))
    }
}

/// Takes one answer in a review of `len` entries.
pub fn step(s: ReviewState, c: ReviewCommand, len: usize) -> (r: (ReviewState, ReviewAction))
    requires
        state_fits(s, len as nat),
    ensures
        r == transition(s, c, len as nat),
        state_fits(r.0, len as nat),
{
    match s {
        ReviewState::Done => (ReviewState::Done, ReviewAction::Finish),
        ReviewState::Presenting(i) => match c {
            ReviewCommand::Next => if i + 1 < len {
                (ReviewState::Presenting(i + 1), ReviewAction::Present(i + 1))
            } else {
                (ReviewState::Done, ReviewAction::Finish)
            },
            ReviewCommand::Toggle => (ReviewState::Presenting(i), ReviewAction::ToggleAndPresent(i)),
            ReviewCommand::Quit => (ReviewState::Done, ReviewAction::Finish),
            ReviewCommand::Unknown => (ReviewState::Presenting(i), ReviewAction::Reject(i)),
        },
    }
}

} // verus!
