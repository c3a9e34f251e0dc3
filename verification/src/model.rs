//! The diagram data model: participants, events, and their ghost views.

use vstd::prelude::*;

verus! {

/// Where a note sits relative to the participant(s) it annotates.
#[derive(Clone, Copy, PartialEq, Eq, Structural, Debug)]
pub enum NotePosition {
    Right,
    Left,
    Over,
}

impl NotePosition {
    /// The keyword this position uses in the textual format.
    pub open spec fn keyword(self) -> Seq<char> {
        match self {
            NotePosition::Right => "right of"@,
            NotePosition::Left => "left of"@,
            NotePosition::Over => "over"@,
        }
    }

    /// Keyword used when serializing a note at this position.
    pub fn as_str(&self) -> (r: &'static str)
        ensures
            r@ == self.keyword(),
    {
        match self {
            NotePosition::Right => "right of",
            NotePosition::Left => "left of",
            NotePosition::Over => "over",
        }
    }

    /// The position after this one in the selector's cyclic order.
    pub fn next(self) -> (r: Self)
        ensures
            r == self.spec_next(),
    {
        match self {
            NotePosition::Right => NotePosition::Left,
            NotePosition::Left => NotePosition::Over,
            NotePosition::Over => NotePosition::Right,
        }
    }

    pub open spec fn spec_next(self) -> Self {
        match self {
            NotePosition::Right => NotePosition::Left,
            NotePosition::Left => NotePosition::Over,
            NotePosition::Over => NotePosition::Right,
        }
    }

    /// The position before this one in the selector's cyclic order.
    pub fn prev(self) -> (r: Self)
        ensures
            r == self.spec_prev(),
    {
        match self {
            NotePosition::Right => NotePosition::Over,
            NotePosition::Left => NotePosition::Right,
            NotePosition::Over => NotePosition::Left,
        }
    }

    pub open spec fn spec_prev(self) -> Self {
        match self {
            NotePosition::Right => NotePosition::Over,
            NotePosition::Left => NotePosition::Right,
            NotePosition::Over => NotePosition::Left,
        }
    }
}

impl Default for NotePosition {
    fn default() -> (r: Self)
        ensures
            r == NotePosition::Right,
    {
        NotePosition::Right
    }
}

/// A named actor, identified by its position in the participant sequence.
#[derive(Clone, Debug)]
pub struct Participant(pub String);

impl View for Participant {
    type V = Seq<char>;

    open spec fn view(&self) -> Seq<char> {
        self.0@
    }
}

/// How a message arrow is drawn.
#[derive(Clone, Copy, PartialEq, Eq, Structural, Debug)]
pub enum MessageKind {
    Sync,
    Async,
}

/// One entry of the time-ordered event sequence.
#[derive(Clone, Debug)]
pub enum Event {
    Message { from: usize, to: usize, text: String },
    Note {
        position: NotePosition,
        participant_start: usize,
        participant_end: usize,
        text: String,
    },
}

/// The mathematical value of an [`Event`].
#[verifier::ext_equal]
pub enum EventView {
    Message { from: usize, to: usize, text: Seq<char> },
    Note {
        position: NotePosition,
        participant_start: usize,
        participant_end: usize,
        text: Seq<char>,
    },
}

impl View for Event {
    type V = EventView;

    open spec fn view(&self) -> EventView {
        match *self {
            Event::Message { from, to, text } => EventView::Message { from, to, text: text@ },
            Event::Note { position, participant_start, participant_end, text } => {
                EventView::Note { position, participant_start, participant_end, text: text@ }
            },
        }
    }
}

impl DeepView for Event {
    type V = EventView;

    open spec fn deep_view(&self) -> EventView {
        self.view()
    }
}

impl EventView {
    /// Every participant index this event stores is below `n`.
    pub open spec fn wf(self, n: nat) -> bool {
        match self {
            EventView::Message { from, to, .. } => from < n && to < n,
            EventView::Note { participant_start, participant_end, .. } => {
                participant_start < n && participant_end < n
            },
        }
    }

    /// Whether some index field of this event equals `idx`.
    pub open spec fn references(self, idx: usize) -> bool {
        match self {
            EventView::Message { from, to, .. } => from == idx || to == idx,
            EventView::Note { participant_start, participant_end, .. } => {
                participant_start == idx || participant_end == idx
            },
        }
    }
}

/// The mathematical value of a diagram: participant names in order, events in order.
#[verifier::ext_equal]
pub struct DiagramView {
    pub participants: Seq<Seq<char>>,
    pub events: Seq<EventView>,
}

impl DiagramView {
    /// Referential integrity: every index stored in any event is in range.
    pub open spec fn wf(self) -> bool {
        forall|i: int|
            0 <= i < self.events.len() ==> (#[trigger] self.events[i]).wf(self.participants.len())
    }
}

} // verus!
