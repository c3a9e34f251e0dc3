//! The selection navigator: a cursor over the participant row and the event
//! column, moved by pure functions of the current selection and the two list
//! lengths.

use vstd::prelude::*;

verus! {

/// What is currently highlighted.
#[derive(Clone, Copy, PartialEq, Eq, Structural, Debug)]
pub enum Selection {
    Empty,
    Participant(usize),
    Event(usize),
}

impl Default for Selection {
    fn default() -> (r: Self)
        ensures
            r == Selection::Empty,
    {
        Selection::Empty
    }
}

impl Selection {
    /// The selected index, if any, is in range for the lists it points into.
    pub open spec fn valid(self, participant_count: usize, event_count: usize) -> bool {
        match self {
            Selection::Empty => true,
            Selection::Participant(idx) => idx < participant_count,
            Selection::Event(idx) => idx < event_count,
        }
    }

    pub open spec fn spec_cycle(self, participant_count: usize, event_count: usize) -> Self {
        match self {
            Selection::Empty => if participant_count > 0 {
                Selection::Participant(0)
            } else if event_count > 0 {
                Selection::Event(0)
            } else {
                Selection::Empty
            },
            Selection::Participant(idx) => if idx + 1 < participant_count {
                Selection::Participant((idx + 1) as usize)
            } else if event_count > 0 {
                Selection::Event(0)
            } else if participant_count > 0 {
                Selection::Participant(0)
            } else {
                Selection::Empty
            },
            Selection::Event(idx) => if idx + 1 < event_count {
                Selection::Event((idx + 1) as usize)
            } else if participant_count > 0 {
                Selection::Participant(0)
            } else if event_count > 0 {
                Selection::Event(0)
            } else {
                Selection::Empty
            },
        }
    }

    /// Advances through participants, then events, wrapping around.
    pub fn cycle(self, participant_count: usize, event_count: usize) -> (r: Self)
        ensures
            r == self.spec_cycle(participant_count, event_count),
            r.valid(participant_count, event_count),
    {
        match self {
            Selection::Empty => {
                if participant_count > 0 {
                    Selection::Participant(0)
                } else if event_count > 0 {
                    Selection::Event(0)
                } else {
                    Selection::Empty
                }
            },
            Selection::Participant(idx) => {
                if idx < usize::MAX && idx + 1 < participant_count {
                    Selection::Participant(idx + 1)
                } else if event_count > 0 {
                    Selection::Event(0)
                } else if participant_count > 0 {
                    Selection::Participant(0)
                } else {
                    Selection::Empty
                }
            },
            Selection::Event(idx) => {
                if idx < usize::MAX && idx + 1 < event_count {
                    Selection::Event(idx + 1)
                } else if participant_count > 0 {
                    Selection::Participant(0)
                } else if event_count > 0 {
                    Selection::Event(0)
                } else {
                    Selection::Empty
                }
            },
        }
    }

    pub open spec fn spec_cycle_back(self, participant_count: usize, event_count: usize) -> Self {
        match self {
            Selection::Empty => if event_count > 0 {
                Selection::Event((event_count - 1) as usize)
            } else if participant_count > 0 {
                Selection::Participant((participant_count - 1) as usize)
            } else {
                Selection::Empty
            },
            Selection::Participant(idx) => if idx > 0 {
                Selection::Participant((idx - 1) as usize)
            } else if event_count > 0 {
                Selection::Event((event_count - 1) as usize)
            } else if participant_count > 0 {
                Selection::Participant((participant_count - 1) as usize)
            } else {
                Selection::Empty
            },
            Selection::Event(idx) => if idx > 0 {
                Selection::Event((idx - 1) as usize)
            } else if participant_count > 0 {
                Selection::Participant((participant_count - 1) as usize)
            } else if event_count > 0 {
                Selection::Event((event_count - 1) as usize)
            } else {
                Selection::Empty
            },
        }
    }

    /// Steps backwards through events, then participants, wrapping around.
    pub fn cycle_back(self, participant_count: usize, event_count: usize) -> (r: Self)
        ensures
            r == self.spec_cycle_back(participant_count, event_count),
            self.valid(participant_count, event_count) ==> r.valid(
                participant_count,
                event_count,
            ),
    {
        match self {
            Selection::Empty => {
                if event_count > 0 {
                    Selection::Event(event_count - 1)
                } else if participant_count > 0 {
                    Selection::Participant(participant_count - 1)
                } else {
                    Selection::Empty
                }
            },
            Selection::Participant(idx) => {
                if idx > 0 {
                    Selection::Participant(idx - 1)
                } else if event_count > 0 {
                    Selection::Event(event_count - 1)
                } else if participant_count > 0 {
                    Selection::Participant(participant_count - 1)
                } else {
                    Selection::Empty
                }
            },
            Selection::Event(idx) => {
                if idx > 0 {
                    Selection::Event(idx - 1)
                } else if participant_count > 0 {
                    Selection::Participant(participant_count - 1)
                } else if event_count > 0 {
                    Selection::Event(event_count - 1)
                } else {
                    Selection::Empty
                }
            },
        }
    }

    pub open spec fn spec_next_event(self, event_count: usize, participant_count: usize) -> Self {
        match self {
            Selection::Event(idx) => if idx + 1 < event_count {
                Selection::Event((idx + 1) as usize)
            } else if participant_count > 0 {
                Selection::Participant(0)
            } else if event_count > 0 {
                Selection::Event(0)
            } else {
                Selection::Empty
            },
            _ => if event_count > 0 {
                Selection::Event(0)
            } else if participant_count > 0 {
                Selection::Participant(0)
            } else {
                Selection::Empty
            },
        }
    }

    /// Advances to the next event, wrapping into the participant row.
    pub fn next_event(self, event_count: usize, participant_count: usize) -> (r: Self)
        ensures
            r == self.spec_next_event(event_count, participant_count),
            r.valid(participant_count, event_count),
    {
        match self {
            Selection::Event(idx) => {
                if idx < usize::MAX && idx + 1 < event_count {
                    Selection::Event(idx + 1)
                } else if participant_count > 0 {
                    Selection::Participant(0)
                } else if event_count > 0 {
                    Selection::Event(0)
                } else {
                    Selection::Empty
                }
            },
            _ => {
                if event_count > 0 {
                    Selection::Event(0)
                } else if participant_count > 0 {
                    Selection::Participant(0)
                } else {
                    Selection::Empty
                }
            },
        }
    }

    pub open spec fn spec_prev_event(self, event_count: usize, participant_count: usize) -> Self {
        match self {
            Selection::Event(idx) => if idx > 0 {
                Selection::Event((idx - 1) as usize)
            } else if participant_count > 0 {
                Selection::Participant((participant_count - 1) as usize)
            } else if event_count > 0 {
                Selection::Event((event_count - 1) as usize)
            } else {
                Selection::Empty
            },
            _ => if event_count > 0 {
                Selection::Event((event_count - 1) as usize)
            } else if participant_count > 0 {
                Selection::Participant((participant_count - 1) as usize)
            } else {
                Selection::Empty
            },
        }
    }

    /// Steps to the previous event, wrapping into the participant row.
    pub fn prev_event(self, event_count: usize, participant_count: usize) -> (r: Self)
        ensures
            r == self.spec_prev_event(event_count, participant_count),
            self.valid(participant_count, event_count) ==> r.valid(
                participant_count,
                event_count,
            ),
    {
        match self {
            Selection::Event(idx) => {
                if idx > 0 {
                    Selection::Event(idx - 1)
                } else if participant_count > 0 {
                    Selection::Participant(participant_count - 1)
                } else if event_count > 0 {
                    Selection::Event(event_count - 1)
                } else {
                    Selection::Empty
                }
            },
            _ => {
                if event_count > 0 {
                    Selection::Event(event_count - 1)
                } else if participant_count > 0 {
                    Selection::Participant(participant_count - 1)
                } else {
                    Selection::Empty
                }
            },
        }
    }

    pub open spec fn spec_next_participant(
        self,
        participant_count: usize,
        event_count: usize,
    ) -> Self {
        match self {
            Selection::Participant(idx) => if idx + 1 < participant_count {
                Selection::Participant((idx + 1) as usize)
            } else if event_count > 0 {
                Selection::Event(0)
            } else if participant_count > 0 {
                Selection::Participant(0)
            } else {
                Selection::Empty
            },
            _ => if participant_count > 0 {
                Selection::Participant(0)
            } else if event_count > 0 {
                Selection::Event(0)
            } else {
                Selection::Empty
            },
        }
    }

    /// Advances to the next participant, wrapping into the event column.
    pub fn next_participant(self, participant_count: usize, event_count: usize) -> (r: Self)
        ensures
            r == self.spec_next_participant(participant_count, event_count),
            r.valid(participant_count, event_count),
    {
        match self {
            Selection::Participant(idx) => {
                if idx < usize::MAX && idx + 1 < participant_count {
                    Selection::Participant(idx + 1)
                } else if event_count > 0 {
                    Selection::Event(0)
                } else if participant_count > 0 {
                    Selection::Participant(0)
                } else {
                    Selection::Empty
                }
            },
            _ => {
                if participant_count > 0 {
                    Selection::Participant(0)
                } else if event_count > 0 {
                    Selection::Event(0)
                } else {
                    Selection::Empty
                }
            },
        }
    }

    pub open spec fn spec_prev_participant(
        self,
        participant_count: usize,
        event_count: usize,
    ) -> Self {
        match self {
            Selection::Participant(idx) => if idx > 0 {
                Selection::Participant((idx - 1) as usize)
            } else if event_count > 0 {
                Selection::Event((event_count - 1) as usize)
            } else if participant_count > 0 {
                Selection::Participant((participant_count - 1) as usize)
            } else {
                Selection::Empty
            },
            _ => if participant_count > 0 {
                Selection::Participant((participant_count - 1) as usize)
            } else if event_count > 0 {
                Selection::Event((event_count - 1) as usize)
            } else {
                Selection::Empty
            },
        }
    }

    /// Steps to the previous participant, wrapping into the event column.
    pub fn prev_participant(self, participant_count: usize, event_count: usize) -> (r: Self)
        ensures
            r == self.spec_prev_participant(participant_count, event_count),
            self.valid(participant_count, event_count) ==> r.valid(
                participant_count,
                event_count,
            ),
    {
        match self {
            Selection::Participant(idx) => {
                if idx > 0 {
                    Selection::Participant(idx - 1)
                } else if event_count > 0 {
                    Selection::Event(event_count - 1)
                } else if participant_count > 0 {
                    Selection::Participant(participant_count - 1)
                } else {
                    Selection::Empty
                }
            },
            _ => {
                if participant_count > 0 {
                    Selection::Participant(participant_count - 1)
                } else if event_count > 0 {
                    Selection::Event(event_count - 1)
                } else {
                    Selection::Empty
                }
            },
        }
    }

    pub open spec fn spec_right(self, participant_count: usize) -> Self {
        match self {
            Selection::Participant(idx) => if idx + 1 < participant_count {
                Selection::Participant((idx + 1) as usize)
            } else {
                self
            },
            Selection::Empty => if participant_count > 0 {
                Selection::Participant(0)
            } else {
                self
            },
            Selection::Event(_) => self,
        }
    }

    /// Moves one participant to the right, clamped at the last one.
    pub fn right(self, participant_count: usize) -> (r: Self)
        ensures
            r == self.spec_right(participant_count),
            self.valid(participant_count, usize::MAX) ==> r.valid(participant_count, usize::MAX),
    {
        match self {
            Selection::Participant(idx) => {
                if idx < usize::MAX && idx + 1 < participant_count {
                    Selection::Participant(idx + 1)
                } else {
                    self
                }
            },
            Selection::Empty => {
                if participant_count > 0 {
                    Selection::Participant(0)
                } else {
                    self
                }
            },
            Selection::Event(_) => self,
        }
    }

    pub open spec fn spec_left(self, participant_count: usize) -> Self {
        match self {
            Selection::Participant(idx) => if idx > 0 {
                Selection::Participant((idx - 1) as usize)
            } else {
                self
            },
            Selection::Empty => if participant_count > 0 {
                Selection::Participant(0)
            } else {
                self
            },
            Selection::Event(_) => self,
        }
    }

    /// Moves one participant to the left, clamped at the first one.
    pub fn left(self, participant_count: usize) -> (r: Self)
        ensures
            r == self.spec_left(participant_count),
            self.valid(participant_count, usize::MAX) ==> r.valid(participant_count, usize::MAX),
    {
        match self {
            Selection::Participant(idx) => {
                if idx > 0 {
                    Selection::Participant(idx - 1)
                } else {
                    self
                }
            },
            Selection::Empty => {
                if participant_count > 0 {
                    Selection::Participant(0)
                } else {
                    self
                }
            },
            Selection::Event(_) => self,
        }
    }

    pub open spec fn spec_down(self, participant_count: usize, event_count: usize) -> Self {
        match self {
            Selection::Event(idx) => if idx + 1 < event_count {
                Selection::Event((idx + 1) as usize)
            } else {
                self
            },
            _ => if event_count > 0 {
                Selection::Event(0)
            } else {
                self
            },
        }
    }

    /// Moves down: into the event column, then event by event, clamped at the
    /// last event.
    pub fn down(self, participant_count: usize, event_count: usize) -> (r: Self)
        ensures
            r == self.spec_down(participant_count, event_count),
            self.valid(participant_count, event_count) ==> r.valid(participant_count, event_count),
    {
        match self {
            Selection::Event(idx) => {
                if idx < usize::MAX && idx + 1 < event_count {
                    Selection::Event(idx + 1)
                } else {
                    self
                }
            },
            _ => {
                if event_count > 0 {
                    Selection::Event(0)
                } else {
                    self
                }
            },
        }
    }

    pub open spec fn spec_up(self, participant_count: usize) -> Self {
        match self {
            Selection::Event(idx) => if idx > 0 {
                Selection::Event((idx - 1) as usize)
            } else if participant_count > 0 {
                Selection::Participant(0)
            } else {
                Selection::Empty
            },
            _ => self,
        }
    }

    /// Moves up: event by event, then from the first event into the
    /// participant row.
    pub fn up(self, participant_count: usize) -> (r: Self)
        ensures
            r == self.spec_up(participant_count),
            self.valid(participant_count, usize::MAX) ==> r.valid(participant_count, usize::MAX),
    {
        match self {
            Selection::Event(idx) => {
                if idx > 0 {
                    Selection::Event(idx - 1)
                } else if participant_count > 0 {
                    Selection::Participant(0)
                } else {
                    Selection::Empty
                }
            },
            _ => self,
        }
    }
}

} // verus!
