//! Geometry for drawing a diagram in a character grid: one column per
//! participant, one row band per message.

use vstd::prelude::*;

use crate::diagram::SequenceDiagram;
use crate::model::{Event, EventView};

verus! {

/// Where one participant's column sits.
#[derive(Clone, Debug)]
pub struct ParticipantLayout {
    pub index: usize,
    pub name: String,
    pub x: u16,
}

/// The mathematical value of a [`ParticipantLayout`].
#[verifier::ext_equal]
pub struct ParticipantLayoutView {
    pub index: usize,
    pub name: Seq<char>,
    pub x: u16,
}

impl DeepView for ParticipantLayout {
    type V = ParticipantLayoutView;

    open spec fn deep_view(&self) -> ParticipantLayoutView {
        ParticipantLayoutView { index: self.index, name: self.name@, x: self.x }
    }
}

/// Where one message's arrow sits.
#[derive(Clone, Debug)]
pub struct MessageLayout {
    pub from_x: u16,
    pub to_x: u16,
    pub y: u16,
    pub text: String,
}

/// The mathematical value of a [`MessageLayout`].
#[verifier::ext_equal]
pub struct MessageLayoutView {
    pub from_x: u16,
    pub to_x: u16,
    pub y: u16,
    pub text: Seq<char>,
}

impl DeepView for MessageLayout {
    type V = MessageLayoutView;

    open spec fn deep_view(&self) -> MessageLayoutView {
        MessageLayoutView { from_x: self.from_x, to_x: self.to_x, y: self.y, text: self.text@ }
    }
}

/// Vertical start of the first message band.
pub const LAYOUT_HEADER_HEIGHT: u16 = 3;

/// Vertical spacing of the message bands.
pub const LAYOUT_MESSAGE_SPACING: u16 = 4;

/// The horizontal spacing between participant columns.
pub open spec fn spec_spacing(participant_count: nat, term_width: u16) -> int {
    let c: int = if participant_count == 0 {
        1
    } else {
        participant_count as int
    };
    term_width as int / (c + 1)
}

/// The column of participant `i`.
pub open spec fn spec_column(participant_count: nat, term_width: u16, i: int) -> int {
    spec_spacing(participant_count, term_width) * (i + 1)
}

/// The message events of a diagram, in order, as (from, to, text) triples.
pub open spec fn message_triples(events: Seq<EventView>) -> Seq<(usize, usize, Seq<char>)> {
    events.filter_map(
        |e: EventView|
            match e {
                EventView::Message { from, to, text } => Some((from, to, text)),
                EventView::Note { .. } => None,
            },
    )
}

/// The whole computed geometry of one diagram at one terminal width.
pub struct SequenceLayout {
    pub width: u16,
    pub height: u16,
    pub participants: Vec<ParticipantLayout>,
    pub messages: Vec<MessageLayout>,
}

impl SequenceLayout {
    /// Lays out the diagram: participant columns evenly spaced across the
    /// width, message bands stacked downwards in event order (notes take no
    /// band of their own here).
    pub fn compute(diagram: &SequenceDiagram, term_width: u16) -> (r: Self)
        requires
            diagram@.wf(),
            diagram@.participants.len() + 1 <= u16::MAX,
            LAYOUT_HEADER_HEIGHT + LAYOUT_MESSAGE_SPACING * diagram@.events.len() + 2
                <= u16::MAX,
        ensures
            r.width == term_width,
            r.participants.deep_view().len() == diagram@.participants.len(),
            forall|i: int|
                0 <= i < diagram@.participants.len() ==> #[trigger] r.participants.deep_view()[i]
                    =~= (ParticipantLayoutView {
                    index: i as usize,
                    name: diagram@.participants[i],
                    x: spec_column(diagram@.participants.len(), term_width, i) as u16,
                }),
            r.messages.deep_view().len() == message_triples(diagram@.events).len(),
            forall|k: int|
                0 <= k < message_triples(diagram@.events).len()
                    ==> #[trigger] r.messages.deep_view()[k] =~= (MessageLayoutView {
                    from_x: spec_column(
                        diagram@.participants.len(),
                        term_width,
                        message_triples(diagram@.events)[k].0 as int,
                    ) as u16,
                    to_x: spec_column(
                        diagram@.participants.len(),
                        term_width,
                        message_triples(diagram@.events)[k].1 as int,
                    ) as u16,
                    y: (LAYOUT_HEADER_HEIGHT + LAYOUT_MESSAGE_SPACING * k) as u16,
                    text: message_triples(diagram@.events)[k].2,
                }),
            r.height == LAYOUT_HEADER_HEIGHT + LAYOUT_MESSAGE_SPACING * message_triples(
                diagram@.events,
            ).len() + 2,
    {
        let ghost pn: nat = diagram@.participants.len();
        let n = diagram.participants.len();
        let count: u16 = if n == 0 {
            1
        } else {
            n as u16
        };
        let spacing: u16 = term_width / (count + 1);
        proof {
            assert(spacing == spec_spacing(pn, term_width));
            vstd::arithmetic::div_mod::lemma_fundamental_div_mod(
                term_width as int,
                count as int + 1,
            );
            assert(spacing as int * (count as int + 1) <= term_width as int) by (nonlinear_arith)
                requires
                    term_width as int == (count as int + 1) * (spacing as int) + term_width as int
                        % (count as int + 1),
                    0 <= term_width as int % (count as int + 1),
            ;
        }
        let mut participants: Vec<ParticipantLayout> = Vec::new();
        let mut i: usize = 0;
        while i < n
            invariant
                i <= n,
                n == diagram@.participants.len(),
                pn == diagram@.participants.len(),
                count as int == (if pn == 0 { 1int } else { pn as int }),
                spacing == spec_spacing(pn, term_width),
                spacing as int * (count as int + 1) <= term_width as int,
                participants.deep_view().len() == i,
                forall|j: int|
                    0 <= j < i ==> #[trigger] participants.deep_view()[j]
                        =~= (ParticipantLayoutView {
                        index: j as usize,
                        name: diagram@.participants[j],
                        x: spec_column(pn, term_width, j) as u16,
                    }),
            decreases n - i,
        {
            proof {
                assert(spacing as int * (i as int + 1) <= spacing as int * (count as int + 1))
                    by (nonlinear_arith)
                    requires
                        0 <= spacing as int,
                        i as int + 1 <= count as int + 1,
                ;
            }
            let x: u16 = spacing * (i as u16 + 1);
            let name = diagram.participants[i].clone();
            let entry = ParticipantLayout { index: i, name, x };
            proof {
                crate::diagram::lemma_deep_push(participants@, entry);
            }
            participants.push(entry);
            i = i + 1;
        }
        let ghost f = |e: EventView|
            match e {
                EventView::Message { from, to, text } => Some((from, to, text)),
                EventView::Note { .. } => None,
            };
        let mut messages: Vec<MessageLayout> = Vec::new();
        let mut current_y: u16 = LAYOUT_HEADER_HEIGHT;
        let m = diagram.events.len();
        let mut j: usize = 0;
        while j < m
            invariant
                j <= m,
                m == diagram@.events.len(),
                pn == diagram@.participants.len(),
                n == diagram@.participants.len(),
                n == participants.len(),
                diagram@.wf(),
                spacing == spec_spacing(pn, term_width),
                f == (|e: EventView|
                    match e {
                        EventView::Message { from, to, text } => Some((from, to, text)),
                        EventView::Note { .. } => None,
                    }),
                LAYOUT_HEADER_HEIGHT + LAYOUT_MESSAGE_SPACING * diagram@.events.len() + 2
                    <= u16::MAX,
                participants.deep_view().len() == pn,
                forall|q: int|
                    0 <= q < pn ==> #[trigger] participants.deep_view()[q]
                        =~= (ParticipantLayoutView {
                        index: q as usize,
                        name: diagram@.participants[q],
                        x: spec_column(pn, term_width, q) as u16,
                    }),
                messages.deep_view().len() == diagram@.events.take(j as int).filter_map(f).len(),
                messages.deep_view().len() <= j,
                current_y == LAYOUT_HEADER_HEIGHT + LAYOUT_MESSAGE_SPACING * messages.deep_view().len(),
                forall|k: int|
                    0 <= k < messages.deep_view().len() ==> #[trigger] messages.deep_view()[k]
                        =~= (MessageLayoutView {
                        from_x: spec_column(
                            pn,
                            term_width,
                            diagram@.events.take(j as int).filter_map(f)[k].0 as int,
                        ) as u16,
                        to_x: spec_column(
                            pn,
                            term_width,
                            diagram@.events.take(j as int).filter_map(f)[k].1 as int,
                        ) as u16,
                        y: (LAYOUT_HEADER_HEIGHT + LAYOUT_MESSAGE_SPACING * k) as u16,
                        text: diagram@.events.take(j as int).filter_map(f)[k].2,
                    }),
            decreases m - j,
        {
            let ghost before = diagram@.events.take(j as int).filter_map(f);
            match &diagram.events[j] {
                Event::Message { from, to, text } => {
                    proof {
                        assert(diagram@.events[j as int].wf(pn));
                    }
                    let from_x = participants[*from].x;
                    let to_x = participants[*to].x;
                    proof {
                        assert(participants.deep_view()[*from as int].x == spec_column(
                            pn,
                            term_width,
                            *from as int,
                        ) as u16);
                        assert(participants.deep_view()[*to as int].x == spec_column(
                            pn,
                            term_width,
                            *to as int,
                        ) as u16);
                        assert(from_x == participants@[*from as int].deep_view().x);
                        assert(to_x == participants@[*to as int].deep_view().x);
                    }
                    let entry = MessageLayout {
                        from_x,
                        to_x,
                        y: current_y,
                        text: text.clone(),
                    };
                    proof {
                        crate::diagram::lemma_deep_push(messages@, entry);
                        assert(before.len() <= j);
                        assert(LAYOUT_MESSAGE_SPACING * (before.len() + 1) <= LAYOUT_MESSAGE_SPACING
                            * diagram@.events.len()) by (nonlinear_arith)
                            requires
                                before.len() + 1 <= diagram@.events.len(),
                                0 <= LAYOUT_MESSAGE_SPACING,
                        ;
                    }
                    messages.push(entry);
                    current_y = current_y + LAYOUT_MESSAGE_SPACING;
                },
                Event::Note { .. } => {},
            }
            proof {
                diagram@.events.lemma_filter_map_take_succ(f, j as int);
                let after = diagram@.events.take(j + 1).filter_map(f);
                match f(diagram@.events[j as int]) {
                    Some(t) => {
                        assert(after =~= before + seq![t]);
                        assert forall|k: int| 0 <= k < before.len() implies after[k]
                            == before[k] by {}
                        assert(after[after.len() - 1] == t);
                    },
                    None => {
                        assert(after =~= before);
                    },
                }
                assert forall|k: int| 0 <= k < messages.deep_view().len() implies #[trigger] messages
                    .deep_view()[k] =~= (MessageLayoutView {
                    from_x: spec_column(pn, term_width, after[k].0 as int) as u16,
                    to_x: spec_column(pn, term_width, after[k].1 as int) as u16,
                    y: (LAYOUT_HEADER_HEIGHT + LAYOUT_MESSAGE_SPACING * k) as u16,
                    text: after[k].2,
                }) by {
                    if k < before.len() {
                        assert(after[k] == before[k]);
                    }
                }
            }
            j = j + 1;
        }
        proof {
            assert(diagram@.events.take(m as int) =~= diagram@.events);
        }
        let height = current_y + 2;
        SequenceLayout { width: term_width, height, participants, messages }
    }
}

} // verus!
