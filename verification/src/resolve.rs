//! The interactive resolution protocol for one conflicting artist pair, as
//! a finite state machine over operator input lines: the first menu offers
//! keeping both artists, merging under either name, or entering a new name;
//! entering a name asks for confirmation with accept, re-enter and dismiss.
//! Invalid input never advances the machine, so the driver simply
//! re-prompts.

use vstd::prelude::*;

use crate::conflict::spec_merge_artists;
use crate::index::{MusicIndex, partitioned};
use crate::text::{parse_selection, spec_selection};

verus! {

/// How one conflicting pair ends up resolved.
#[derive(Clone, Debug, PartialEq)]
pub enum Outcome {
    /// Keep both artists as they are.
    Unchanged,
    /// Merge both under the first artist's name.
    MergeFirst,
    /// Merge both under the second artist's name.
    MergeSecond,
    /// Merge both under an operator-entered name.
    Renamed { name: String },
}

/// The resolution protocol's state between two operator inputs.
#[derive(Clone, Debug, PartialEq)]
pub enum ResolveState {
    /// The outer menu: do nothing, merge using first, merge using second,
    /// enter a new name.
    Prompt,
    /// Waiting for free-text name entry.
    AskName,
    /// The entered name awaits confirmation: accept, re-enter, dismiss.
    ConfirmName { name: String },
    /// The pair is settled.
    Done { outcome: Outcome },
}

pub enum OutcomeView {
    Unchanged,
    MergeFirst,
    MergeSecond,
    Renamed(Seq<char>),
}

pub enum ResolveStateView {
    Prompt,
    AskName,
    ConfirmName(Seq<char>),
    Done(OutcomeView),
}

impl View for Outcome {
    type V = OutcomeView;

    open spec fn view(&self) -> OutcomeView {
        match self {
            Outcome::Unchanged => OutcomeView::Unchanged,
            Outcome::MergeFirst => OutcomeView::MergeFirst,
            Outcome::MergeSecond => OutcomeView::MergeSecond,
            Outcome::Renamed { name } => OutcomeView::Renamed(name@),
        }
    }
}

impl View for ResolveState {
    type V = ResolveStateView;

    open spec fn view(&self) -> ResolveStateView {
        match self {
            ResolveState::Prompt => ResolveStateView::Prompt,
            ResolveState::AskName => ResolveStateView::AskName,
            ResolveState::ConfirmName { name } => ResolveStateView::ConfirmName(name@),
            ResolveState::Done { outcome } => ResolveStateView::Done(outcome@),
        }
    }
}

/// The transition relation of the resolution protocol: what one operator
/// input line does in each state. A selection that does not parse, or is
/// out of range, leaves the state unchanged.
pub open spec fn spec_resolve_step(s: ResolveStateView, input: Seq<char>) -> ResolveStateView {
    match s {
        ResolveStateView::Prompt => match spec_selection(input, 4) {
            Some(v) => if v == 0 {
                ResolveStateView::Done(OutcomeView::Unchanged)
            } else if v == 1 {
                ResolveStateView::Done(OutcomeView::MergeFirst)
            } else if v == 2 {
                ResolveStateView::Done(OutcomeView::MergeSecond)
            } else {
                ResolveStateView::AskName
            },
            None => ResolveStateView::Prompt,
        },
        ResolveStateView::AskName => ResolveStateView::ConfirmName(input),
        ResolveStateView::ConfirmName(name) => match spec_selection(input, 3) {
            Some(v) => if v == 0 {
                ResolveStateView::Done(OutcomeView::Renamed(name))
            } else if v == 1 {
                ResolveStateView::AskName
            } else {
                ResolveStateView::Done(OutcomeView::Unchanged)
            },
            None => ResolveStateView::ConfirmName(name),
        },
        ResolveStateView::Done(o) => ResolveStateView::Done(o),
    }
}

/// Executable transition of the resolution protocol on one input line.
pub fn resolve_step(state: ResolveState, input: &str) -> (next: ResolveState)
    ensures
        next@ == spec_resolve_step(state@, input@),
{
    match state {
        ResolveState::Prompt => {
            match parse_selection(input, 4) {
                Some(v) => {
                    if v == 0 {
                        ResolveState::Done { outcome: Outcome::Unchanged }
                    } else if v == 1 {
                        ResolveState::Done { outcome: Outcome::MergeFirst }
                    } else if v == 2 {
                        ResolveState::Done { outcome: Outcome::MergeSecond }
                    } else {
                        ResolveState::AskName
                    }
                },
                None => ResolveState::Prompt,
            }
        },
        ResolveState::AskName => {
            ResolveState::ConfirmName { name: input.to_owned() }
        },
        ResolveState::ConfirmName { name } => {
            match parse_selection(input, 3) {
                Some(v) => {
                    if v == 0 {
                        ResolveState::Done { outcome: Outcome::Renamed { name } }
                    } else if v == 1 {
                        ResolveState::AskName
                    } else {
                        ResolveState::Done { outcome: Outcome::Unchanged }
                    }
                },
                None => ResolveState::ConfirmName { name },
            }
        },
        ResolveState::Done { outcome } => ResolveState::Done { outcome },
    }
}

impl MusicIndex {
    /// Apply a settled resolution to the conflicting artists at positions
    /// `i < j`: merges combine both album lists under the chosen name and
    /// drop the second artist; keeping both changes nothing. The song list
    /// and the unknown bucket are untouched and the partition invariant is
    /// preserved.
    pub fn apply_resolution(&mut self, i: usize, j: usize, outcome: Outcome)
        requires
            i < j < old(self)@.artists.len(),
            partitioned(old(self)@),
        ensures
            partitioned(final(self)@),
            final(self)@.songs == old(self)@.songs,
            final(self)@.unknown == old(self)@.unknown,
            final(self)@.artists == match outcome@ {
                OutcomeView::Unchanged => old(self)@.artists,
                OutcomeView::MergeFirst => spec_merge_artists(
                    old(self)@.artists,
                    i as int,
                    j as int,
                    old(self)@.artists[i as int].name,
                ),
                OutcomeView::MergeSecond => spec_merge_artists(
                    old(self)@.artists,
                    i as int,
                    j as int,
                    old(self)@.artists[j as int].name,
                ),
                OutcomeView::Renamed(n) => spec_merge_artists(
                    old(self)@.artists,
                    i as int,
                    j as int,
                    n,
                ),
            },
    {
        match outcome {
            Outcome::Unchanged => {},
            Outcome::MergeFirst => {
                let name = self.artists[i].name.clone();
                self.merge_artists(i, j, name);
            },
            Outcome::MergeSecond => {
                let name = self.artists[j].name.clone();
                self.merge_artists(i, j, name);
            },
            Outcome::Renamed { name } => {
                self.merge_artists(i, j, name);
            },
        }
    }
}

} // verus!
