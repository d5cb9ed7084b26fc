//! Objectives: the chords that a level asks for, and when a cluster meets one.

use crate::chord::Chord;
use crate::note::Note;
use vstd::prelude::*;

verus! {

/// A chord that is to be built: of the kind `filter`, or of any kind where
/// there is no filter.
#[derive(Clone, Copy, PartialEq, Eq, Debug, Structural)]
pub struct Objective {
    pub filter: Option<Chord>,
    pub is_complete: bool,
    pub is_hovered: bool,
}

/// Whether a filter lets a recognized chord pass: no chord never passes, any
/// chord passes where there is no filter, and otherwise only the kind that
/// the filter names.
pub open spec fn passes(filter: Option<Chord>, found: Option<(Note, Chord)>) -> bool {
    match found {
        Some((_, kind)) => match filter {
            Some(wanted) => wanted == kind,
            None => true,
        },
        None => false,
    }
}

impl Objective {
    /// An objective that is not complete yet.
    pub fn new(filter: Option<Chord>) -> (objective: Objective)
        ensures
            objective == (Objective { filter, is_complete: false, is_hovered: false }),
    {
        Objective { filter, is_complete: false, is_hovered: false }
    }

    /// Whether the chord recognized in a cluster is one that this objective
    /// asks for.
    pub fn accepts(&self, found: Option<(Note, Chord)>) -> (met: bool)
        ensures
            met == passes(self.filter, found),
    {
        match found {
            Some((_, kind)) => match self.filter {
                Some(wanted) => wanted == kind,
                None => true,
            },
            None => false,
        }
    }

    /// Whether the objective lights up for the notes that sound: it is not
    /// complete, and they form a chord that it asks for.
    pub fn is_excited(&self, found: Option<(Note, Chord)>) -> (excited: bool)
        ensures
            excited == (!self.is_complete && passes(self.filter, found)),
    {
        !self.is_complete && self.accepts(found)
    }

    /// A cluster is dropped on the objective. Where the objective is not
    /// complete and the cluster forms a chord that it asks for, it becomes
    /// complete and the answer is `true`; otherwise nothing changes.
    pub fn offer(&mut self, found: Option<(Note, Chord)>) -> (completed: bool)
        ensures
            completed == (!old(self).is_complete && passes(old(self).filter, found)),
            final(self).filter == old(self).filter,
            final(self).is_hovered == old(self).is_hovered,
            final(self).is_complete == (old(self).is_complete || completed),
    {
        if !self.is_complete && self.accepts(found) {
            self.is_complete = true;
            true
        } else {
            false
        }
    }

    /// The cluster that completed the objective is taken away again: the
    /// objective is open once more.
    pub fn release(&mut self)
        ensures
            *final(self) == (Objective { is_complete: false, ..*old(self) }),
    {
        self.is_complete = false;
    }

    /// The text shown for the objective: the name of the kind it asks for,
    /// or nothing where it asks for any chord.
    pub fn label(&self) -> (text: &'static str)
        ensures
            text@ == match self.filter {
                Some(kind) => kind.spec_nice_name(),
                None => ""@,
            },
    {
        match self.filter {
            Some(kind) => kind.nice_name(),
            None => "",
        }
    }
}

/// Whether a level is won: every one of its objectives is complete.
pub fn all_complete(objectives: &[Objective]) -> (won: bool)
    ensures
        won == forall|i: int| 0 <= i < objectives@.len() ==> (#[trigger] objectives@[i]).is_complete,
{
    let mut i: usize = 0;
    while i < objectives.len()
        invariant
            0 <= i <= objectives@.len(),
            forall|j: int| 0 <= j < i ==> (#[trigger] objectives@[j]).is_complete,
        decreases objectives@.len() - i,
    {
        if !objectives[i].is_complete {
            return false;
        }
        i += 1;
    }
    true
}

} // verus!
