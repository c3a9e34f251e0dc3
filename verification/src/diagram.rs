//! The diagram store: ordered participants and events, with structural
//! mutation operations that keep every stored participant index valid.

use vstd::prelude::*;

use crate::model::{DiagramView, Event, EventView, NotePosition};

verus! {

/// The element-wise deep view of a sequence of viewable values.
pub open spec fn deep<T: DeepView>(s: Seq<T>) -> Seq<T::V> {
    Seq::new(s.len(), |i: int| s[i].deep_view())
}

pub proof fn lemma_deep_push<T: DeepView>(s: Seq<T>, x: T)
    ensures
        deep(s.push(x)) =~= deep(s).push(x.deep_view()),
{
}

pub proof fn lemma_deep_insert<T: DeepView>(s: Seq<T>, i: int, x: T)
    requires
        0 <= i <= s.len(),
    ensures
        deep(s.insert(i, x)) =~= deep(s).insert(i, x.deep_view()),
{
}

pub proof fn lemma_deep_remove<T: DeepView>(s: Seq<T>, i: int)
    requires
        0 <= i < s.len(),
    ensures
        deep(s.remove(i)) =~= deep(s).remove(i),
{
}

pub proof fn lemma_deep_update<T: DeepView>(s: Seq<T>, i: int, x: T)
    requires
        0 <= i < s.len(),
    ensures
        deep(s.update(i, x)) =~= deep(s).update(i, x.deep_view()),
{
}

impl EventView {
    /// This event with every index above `idx` decremented by one.
    pub open spec fn shifted_down(self, idx: usize) -> EventView {
        match self {
            EventView::Message { from, to, text } => EventView::Message {
                from: if from > idx { (from - 1) as usize } else { from },
                to: if to > idx { (to - 1) as usize } else { to },
                text,
            },
            EventView::Note { position, participant_start, participant_end, text } => EventView::Note {
                position,
                participant_start: if participant_start > idx {
                    (participant_start - 1) as usize
                } else {
                    participant_start
                },
                participant_end: if participant_end > idx {
                    (participant_end - 1) as usize
                } else {
                    participant_end
                },
                text,
            },
        }
    }

    /// This event with index `a` rewritten to `b` and vice versa.
    pub open spec fn swapped(self, a: usize, b: usize) -> EventView {
        match self {
            EventView::Message { from, to, text } => EventView::Message {
                from: swap_index(from, a, b),
                to: swap_index(to, a, b),
                text,
            },
            EventView::Note { position, participant_start, participant_end, text } => EventView::Note {
                position,
                participant_start: swap_index(participant_start, a, b),
                participant_end: swap_index(participant_end, a, b),
                text,
            },
        }
    }
}

/// `a` becomes `b`, `b` becomes `a`, anything else is unchanged.
pub open spec fn swap_index(j: usize, a: usize, b: usize) -> usize {
    if j == a {
        b
    } else if j == b {
        a
    } else {
        j
    }
}

/// Where `insert_message`/`insert_note` place a new event: right after
/// `after_index`, clamped to the current event count.
pub open spec fn insertion_point(after_index: usize, len: nat) -> int {
    if after_index + 1 <= len {
        after_index + 1
    } else {
        len as int
    }
}

impl DiagramView {
    pub open spec fn empty() -> DiagramView {
        DiagramView { participants: Seq::empty(), events: Seq::empty() }
    }

    pub open spec fn after_add_participant(self, name: Seq<char>) -> DiagramView {
        DiagramView { participants: self.participants.push(name), events: self.events }
    }

    pub open spec fn after_add_message(self, from: usize, to: usize, text: Seq<char>) -> DiagramView {
        if from < self.participants.len() && to < self.participants.len() {
            DiagramView {
                participants: self.participants,
                events: self.events.push(EventView::Message { from, to, text }),
            }
        } else {
            self
        }
    }

    pub open spec fn after_insert_message(
        self,
        after_index: usize,
        from: usize,
        to: usize,
        text: Seq<char>,
    ) -> DiagramView {
        if from < self.participants.len() && to < self.participants.len() {
            DiagramView {
                participants: self.participants,
                events: self.events.insert(
                    insertion_point(after_index, self.events.len()),
                    EventView::Message { from, to, text },
                ),
            }
        } else {
            self
        }
    }

    pub open spec fn after_add_note(
        self,
        position: NotePosition,
        participant_start: usize,
        participant_end: usize,
        text: Seq<char>,
    ) -> DiagramView {
        if participant_start < self.participants.len() && participant_end
            < self.participants.len() {
            DiagramView {
                participants: self.participants,
                events: self.events.push(
                    EventView::Note { position, participant_start, participant_end, text },
                ),
            }
        } else {
            self
        }
    }

    pub open spec fn after_insert_note(
        self,
        after_index: usize,
        position: NotePosition,
        participant_start: usize,
        participant_end: usize,
        text: Seq<char>,
    ) -> DiagramView {
        if participant_start < self.participants.len() && participant_end
            < self.participants.len() {
            DiagramView {
                participants: self.participants,
                events: self.events.insert(
                    insertion_point(after_index, self.events.len()),
                    EventView::Note { position, participant_start, participant_end, text },
                ),
            }
        } else {
            self
        }
    }

    pub open spec fn after_remove_event(self, idx: usize) -> DiagramView {
        if idx < self.events.len() {
            DiagramView { participants: self.participants, events: self.events.remove(idx as int) }
        } else {
            self
        }
    }

    pub open spec fn after_swap_participants(self, a: usize, b: usize) -> DiagramView {
        if a < self.participants.len() && b < self.participants.len() {
            DiagramView {
                participants: self.participants.update(a as int, self.participants[b as int])
                    .update(b as int, self.participants[a as int]),
                events: self.events.map_values(|e: EventView| e.swapped(a, b)),
            }
        } else {
            self
        }
    }

    pub open spec fn after_point_left(self, idx: usize) -> DiagramView {
        if idx < self.events.len() {
            match self.events[idx as int] {
                EventView::Message { from, to, text } => {
                    if from < to {
                        DiagramView {
                            participants: self.participants,
                            events: self.events.update(
                                idx as int,
                                EventView::Message { from: to, to: from, text },
                            ),
                        }
                    } else {
                        self
                    }
                },
                EventView::Note { .. } => self,
            }
        } else {
            self
        }
    }

    pub open spec fn after_point_right(self, idx: usize) -> DiagramView {
        if idx < self.events.len() {
            match self.events[idx as int] {
                EventView::Message { from, to, text } => {
                    if from > to {
                        DiagramView {
                            participants: self.participants,
                            events: self.events.update(
                                idx as int,
                                EventView::Message { from: to, to: from, text },
                            ),
                        }
                    } else {
                        self
                    }
                },
                EventView::Note { .. } => self,
            }
        } else {
            self
        }
    }

    pub open spec fn after_pop_event(self) -> DiagramView {
        if self.events.len() > 0 {
            DiagramView { participants: self.participants, events: self.events.drop_last() }
        } else {
            self
        }
    }

    pub open spec fn after_swap_events(self, a: usize, b: usize) -> DiagramView {
        if a < self.events.len() && b < self.events.len() {
            DiagramView {
                participants: self.participants,
                events: self.events.update(a as int, self.events[b as int]).update(
                    b as int,
                    self.events[a as int],
                ),
            }
        } else {
            self
        }
    }

    pub open spec fn after_rename_participant(self, idx: usize, name: Seq<char>) -> DiagramView {
        if idx < self.participants.len() {
            DiagramView {
                participants: self.participants.update(idx as int, name),
                events: self.events,
            }
        } else {
            self
        }
    }

    pub open spec fn after_prepend_message(self, from: usize, to: usize, text: Seq<char>) -> DiagramView {
        if from < self.participants.len() && to < self.participants.len() {
            DiagramView {
                participants: self.participants,
                events: self.events.insert(0, EventView::Message { from, to, text }),
            }
        } else {
            self
        }
    }

    pub open spec fn after_prepend_note(
        self,
        position: NotePosition,
        participant_start: usize,
        participant_end: usize,
        text: Seq<char>,
    ) -> DiagramView {
        if participant_start < self.participants.len() && participant_end
            < self.participants.len() {
            DiagramView {
                participants: self.participants,
                events: self.events.insert(
                    0,
                    EventView::Note { position, participant_start, participant_end, text },
                ),
            }
        } else {
            self
        }
    }

    pub open spec fn after_update_message(self, idx: usize, from: usize, to: usize, text: Seq<char>) -> DiagramView {
        if idx < self.events.len() && (self.events[idx as int] is Message) && from
            < self.participants.len() && to < self.participants.len() {
            DiagramView {
                participants: self.participants,
                events: self.events.update(idx as int, EventView::Message { from, to, text }),
            }
        } else {
            self
        }
    }

    pub open spec fn after_update_note(
        self,
        idx: usize,
        position: NotePosition,
        participant_start: usize,
        participant_end: usize,
        text: Seq<char>,
    ) -> DiagramView {
        if idx < self.events.len() && (self.events[idx as int] is Note) && participant_start
            < self.participants.len() && participant_end < self.participants.len() {
            DiagramView {
                participants: self.participants,
                events: self.events.update(
                    idx as int,
                    EventView::Note { position, participant_start, participant_end, text },
                ),
            }
        } else {
            self
        }
    }

    /// Removal cascade for one event: dropped when it references `idx`,
    /// otherwise kept with its indices above `idx` shifted down.
    pub open spec fn cascade_step(idx: usize) -> spec_fn(EventView) -> Option<EventView> {
        |e: EventView|
            if e.references(idx) {
                Option::<EventView>::None
            } else {
                Option::Some(e.shifted_down(idx))
            }
    }

    pub open spec fn after_remove_participant(self, idx: usize) -> DiagramView {
        if idx < self.participants.len() {
            DiagramView {
                participants: self.participants.remove(idx as int),
                events: self.events.filter_map(Self::cascade_step(idx)),
            }
        } else {
            self
        }
    }
}

/// Every event that survives the removal cascade for `idx` is well formed
/// against the one-smaller participant count.
pub proof fn lemma_cascade_preserves_wf(events: Seq<EventView>, idx: usize, n: nat)
    requires
        idx < n,
        forall|i: int| 0 <= i < events.len() ==> (#[trigger] events[i]).wf(n),
    ensures
        forall|i: int|
            0 <= i < events.filter_map(DiagramView::cascade_step(idx)).len() ==> (
            #[trigger] events.filter_map(DiagramView::cascade_step(idx))[i]).wf((n - 1) as nat),
{
    let f = DiagramView::cascade_step(idx);
    let out = events.filter_map(f);
    assert forall|i: int| 0 <= i < out.len() implies (#[trigger] out[i]).wf((n - 1) as nat) by {
        assert(out.contains(out[i]));
        events.lemma_filter_map_contains(f, out[i]);
        let t = choose|t: EventView| #[trigger] events.contains(t) && f(t) == Some(out[i]);
        let j = choose|j: int| 0 <= j < events.len() && events[j] == t;
        assert(events[j].wf(n));
    }
}

proof fn lemma_cascade_is_filter_then_shift(es: Seq<EventView>, idx: usize)
    ensures
        es.filter_map(DiagramView::cascade_step(idx)) =~= es.filter(
            |e: EventView| !e.references(idx),
        ).map_values(|e: EventView| e.shifted_down(idx)),
    decreases es.len(),
{
    reveal(Seq::filter);
    let f = DiagramView::cascade_step(idx);
    let p = |e: EventView| !e.references(idx);
    let m = |e: EventView| e.shifted_down(idx);
    if es.len() == 0 {
        assert(es.filter_map(f) =~= es.filter(p).map_values(m));
    } else {
        let rest = es.drop_last();
        let last = es.last();
        lemma_cascade_is_filter_then_shift(rest, idx);
        if p(last) {
            assert(es.filter(p).map_values(m) =~= rest.filter(p).map_values(m) + seq![m(last)]);
        }
    }
}

/// Removing participant `idx` removes exactly the events that reference it on
/// any index field, and every surviving event keeps its fields except that
/// indices greater than `idx` are decremented by one.
pub proof fn lemma_removal_cascade(d: DiagramView, idx: usize)
    requires
        idx < d.participants.len(),
    ensures
        d.after_remove_participant(idx).participants =~= d.participants.remove(idx as int),
        d.after_remove_participant(idx).events =~= d.events.filter(
            |e: EventView| !e.references(idx),
        ).map_values(|e: EventView| e.shifted_down(idx)),
{
    lemma_cascade_is_filter_then_shift(d.events, idx);
}

/// The diagram store.
#[derive(Clone, Debug)]
pub struct SequenceDiagram {
    pub participants: Vec<String>,
    pub events: Vec<Event>,
}

impl View for SequenceDiagram {
    type V = DiagramView;

    open spec fn view(&self) -> DiagramView {
        DiagramView { participants: self.participants.deep_view(), events: self.events.deep_view() }
    }
}

impl Default for SequenceDiagram {
    fn default() -> (r: Self)
        ensures
            r@ =~= DiagramView::empty(),
    {
        SequenceDiagram { participants: Vec::new(), events: Vec::new() }
    }
}

impl SequenceDiagram {
    /// A diagram with no participants and no events.
    pub fn new() -> (r: Self)
        ensures
            r@ =~= DiagramView::empty(),
    {
        SequenceDiagram { participants: Vec::new(), events: Vec::new() }
    }

    pub fn participant_count(&self) -> (n: usize)
        ensures
            n == self@.participants.len(),
    {
        self.participants.len()
    }

    pub fn event_count(&self) -> (n: usize)
        ensures
            n == self@.events.len(),
    {
        self.events.len()
    }

    /// Appends a participant; duplicate display names are legal.
    pub fn add_participant(&mut self, name: String)
        ensures
            final(self)@ =~= old(self)@.after_add_participant(name@),
            old(self)@.wf() ==> final(self)@.wf(),
    {
        proof {
            lemma_deep_push(self.participants@, name);
        }
        self.participants.push(name);
        proof {
            if old(self)@.wf() {
                assert forall|i: int| 0 <= i < self@.events.len() implies (
                #[trigger] self@.events[i]).wf(self@.participants.len()) by {
                    assert(self@.events[i] == old(self)@.events[i]);
                    assert(old(self)@.events[i].wf(old(self)@.participants.len()));
                }
            }
        }
    }

    /// Appends a message event when both indices are in range; no-op otherwise.
    pub fn add_message(&mut self, from: usize, to: usize, text: String)
        ensures
            final(self)@ =~= old(self)@.after_add_message(from, to, text@),
            old(self)@.wf() ==> final(self)@.wf(),
    {
        if from < self.participants.len() && to < self.participants.len() {
            let ev = Event::Message { from, to, text };
            proof {
                lemma_deep_push(self.events@, ev);
            }
            self.events.push(ev);
        }
    }

    /// Inserts a message event immediately after `after_index` (clamped to the
    /// event count) when both indices are in range; no-op otherwise.
    pub fn insert_message(&mut self, after_index: usize, from: usize, to: usize, text: String)
        ensures
            final(self)@ =~= old(self)@.after_insert_message(after_index, from, to, text@),
            old(self)@.wf() ==> final(self)@.wf(),
    {
        if from < self.participants.len() && to < self.participants.len() {
            let insert_at = if after_index >= self.events.len() {
                self.events.len()
            } else {
                after_index + 1
            };
            let ev = Event::Message { from, to, text };
            proof {
                lemma_deep_insert(self.events@, insert_at as int, ev);
                old(self)@.events.insert_ensures(insert_at as int, ev@);
            }
            self.events.insert(insert_at, ev);
        }
    }

    /// Appends a note event when both participant indices are in range.
    pub fn add_note(
        &mut self,
        position: NotePosition,
        participant_start: usize,
        participant_end: usize,
        text: String,
    )
        ensures
            final(self)@ =~= old(self)@.after_add_note(
                position,
                participant_start,
                participant_end,
                text@,
            ),
            old(self)@.wf() ==> final(self)@.wf(),
    {
        if participant_start < self.participants.len() && participant_end
            < self.participants.len() {
            let ev = Event::Note { position, participant_start, participant_end, text };
            proof {
                lemma_deep_push(self.events@, ev);
            }
            self.events.push(ev);
        }
    }

    /// Inserts a note event immediately after `after_index` (clamped to the
    /// event count) when both participant indices are in range.
    pub fn insert_note(
        &mut self,
        after_index: usize,
        position: NotePosition,
        participant_start: usize,
        participant_end: usize,
        text: String,
    )
        ensures
            final(self)@ =~= old(self)@.after_insert_note(
                after_index,
                position,
                participant_start,
                participant_end,
                text@,
            ),
            old(self)@.wf() ==> final(self)@.wf(),
    {
        if participant_start < self.participants.len() && participant_end
            < self.participants.len() {
            let insert_at = if after_index >= self.events.len() {
                self.events.len()
            } else {
                after_index + 1
            };
            let ev = Event::Note { position, participant_start, participant_end, text };
            proof {
                lemma_deep_insert(self.events@, insert_at as int, ev);
                old(self)@.events.insert_ensures(insert_at as int, ev@);
            }
            self.events.insert(insert_at, ev);
        }
    }

    /// Deletes the event at `idx`; no-op when out of range.
    pub fn remove_event(&mut self, idx: usize)
        ensures
            final(self)@ =~= old(self)@.after_remove_event(idx),
            old(self)@.wf() ==> final(self)@.wf(),
    {
        if idx < self.events.len() {
            proof {
                lemma_deep_remove(self.events@, idx as int);
            }
            self.events.remove(idx);
        }
    }

    /// Removes the last event, if there is one.
    pub fn pop_event(&mut self)
        ensures
            final(self)@ =~= old(self)@.after_pop_event(),
            old(self)@.wf() ==> final(self)@.wf(),
    {
        if self.events.len() > 0 {
            proof {
                lemma_deep_remove(self.events@, self.events@.len() - 1);
                assert(self.events.deep_view().remove(self.events@.len() - 1) =~= self
                    .events
                    .deep_view()
                    .drop_last());
            }
            let _ = self.events.pop();
            proof {
                assert(self@.events =~= old(self)@.events.drop_last());
            }
        }
    }

    /// Exchanges the events at `a` and `b`; no-op when either is out of
    /// range.
    pub fn swap_events(&mut self, a: usize, b: usize)
        ensures
            final(self)@ =~= old(self)@.after_swap_events(a, b),
            old(self)@.wf() ==> final(self)@.wf(),
    {
        if a >= self.events.len() || b >= self.events.len() || a == b {
            return;
        }
        let lo = if a < b {
            a
        } else {
            b
        };
        let hi = if a < b {
            b
        } else {
            a
        };
        proof {
            lemma_deep_remove(self.events@, hi as int);
        }
        let ev_hi = self.events.remove(hi);
        proof {
            lemma_deep_remove(self.events@, lo as int);
        }
        let ev_lo = self.events.remove(lo);
        proof {
            lemma_deep_insert(self.events@, lo as int, ev_hi);
        }
        self.events.insert(lo, ev_hi);
        proof {
            lemma_deep_insert(self.events@, hi as int, ev_lo);
        }
        self.events.insert(hi, ev_lo);
        proof {
            assert(self.events.deep_view() =~= old(self)@.events.update(
                a as int,
                old(self)@.events[b as int],
            ).update(b as int, old(self)@.events[a as int]));
        }
    }

    /// Overwrites the name of the participant at `idx`; no-op when out of
    /// range.
    pub fn rename_participant(&mut self, idx: usize, name: String)
        ensures
            final(self)@ =~= old(self)@.after_rename_participant(idx, name@),
            old(self)@.wf() ==> final(self)@.wf(),
    {
        if idx < self.participants.len() {
            proof {
                lemma_deep_update(self.participants@, idx as int, name);
            }
            self.participants[idx] = name;
        }
    }

    /// Inserts a message event before every other event when both indices
    /// are in range; no-op otherwise.
    pub fn prepend_message(&mut self, from: usize, to: usize, text: String)
        ensures
            final(self)@ =~= old(self)@.after_prepend_message(from, to, text@),
            old(self)@.wf() ==> final(self)@.wf(),
    {
        if from < self.participants.len() && to < self.participants.len() {
            let ev = Event::Message { from, to, text };
            proof {
                lemma_deep_insert(self.events@, 0, ev);
                old(self)@.events.insert_ensures(0, ev@);
            }
            self.events.insert(0, ev);
        }
    }

    /// Inserts a note event before every other event when both participant
    /// indices are in range; no-op otherwise.
    pub fn prepend_note(
        &mut self,
        position: NotePosition,
        participant_start: usize,
        participant_end: usize,
        text: String,
    )
        ensures
            final(self)@ =~= old(self)@.after_prepend_note(
                position,
                participant_start,
                participant_end,
                text@,
            ),
            old(self)@.wf() ==> final(self)@.wf(),
    {
        if participant_start < self.participants.len() && participant_end
            < self.participants.len() {
            let ev = Event::Note { position, participant_start, participant_end, text };
            proof {
                lemma_deep_insert(self.events@, 0, ev);
                old(self)@.events.insert_ensures(0, ev@);
            }
            self.events.insert(0, ev);
        }
    }

    /// Empties both lists.
    pub fn clear(&mut self)
        ensures
            final(self)@ =~= DiagramView::empty(),
            final(self)@.wf(),
    {
        self.participants.clear();
        self.events.clear();
    }

    /// Overwrites the message event at `idx` in place; no-op unless `idx`
    /// holds a message and both indices are in range.
    pub fn update_message(&mut self, idx: usize, from: usize, to: usize, text: String)
        ensures
            final(self)@ =~= old(self)@.after_update_message(idx, from, to, text@),
            old(self)@.wf() ==> final(self)@.wf(),
    {
        if idx < self.events.len() && from < self.participants.len() && to
            < self.participants.len() {
            let is_message = matches!(&self.events[idx], Event::Message { .. });
            if is_message {
                let ev = Event::Message { from, to, text };
                proof {
                    lemma_deep_update(self.events@, idx as int, ev);
                }
                self.events[idx] = ev;
            }
        }
    }

    /// Overwrites the note event at `idx` in place; no-op unless `idx` holds
    /// a note and both participant indices are in range.
    pub fn update_note(
        &mut self,
        idx: usize,
        position: NotePosition,
        participant_start: usize,
        participant_end: usize,
        text: String,
    )
        ensures
            final(self)@ =~= old(self)@.after_update_note(
                idx,
                position,
                participant_start,
                participant_end,
                text@,
            ),
            old(self)@.wf() ==> final(self)@.wf(),
    {
        if idx < self.events.len() && participant_start < self.participants.len()
            && participant_end < self.participants.len() {
            let is_note = matches!(&self.events[idx], Event::Note { .. });
            if is_note {
                let ev = Event::Note { position, participant_start, participant_end, text };
                proof {
                    lemma_deep_update(self.events@, idx as int, ev);
                }
                self.events[idx] = ev;
            }
        }
    }

    /// Swaps the participants at `a` and `b` and rewrites every event index
    /// equal to one of them to the other, so each event keeps pointing at the
    /// same participant identity. No-op when either index is out of range.
    pub fn swap_participants(&mut self, a: usize, b: usize)
        ensures
            final(self)@ =~= old(self)@.after_swap_participants(a, b),
            old(self)@.wf() ==> final(self)@.wf(),
    {
        if a >= self.participants.len() || b >= self.participants.len() {
            return;
        }
        let pa = self.participants[a].clone();
        let pb = self.participants[b].clone();
        self.participants[a] = pb;
        self.participants[b] = pa;
        proof {
            lemma_deep_update(old(self).participants@, a as int, self.participants@[a as int]);
            lemma_deep_update(
                old(self).participants@.update(a as int, self.participants@[a as int]),
                b as int,
                self.participants@[b as int],
            );
            assert(self.participants.deep_view() =~= old(self)@.participants.update(
                a as int,
                old(self)@.participants[b as int],
            ).update(b as int, old(self)@.participants[a as int]));
        }
        let ghost parts: Seq<Seq<char>> = self.participants.deep_view();
        let ghost orig: Seq<EventView> = self.events.deep_view();
        let n = self.events.len();
        let mut i: usize = 0;
        while i < n
            invariant
                i <= n,
                n == self.events.len(),
                self.participants.deep_view() == parts,
                forall|j: int|
                    0 <= j < i ==> self.events.deep_view()[j] == (#[trigger] orig[j]).swapped(a, b),
                forall|j: int| i <= j < n ==> self.events.deep_view()[j] == orig[j],
            decreases n - i,
        {
            match &mut self.events[i] {
                Event::Message { from, to, .. } => {
                    if *from == a {
                        *from = b;
                    } else if *from == b {
                        *from = a;
                    }
                    if *to == a {
                        *to = b;
                    } else if *to == b {
                        *to = a;
                    }
                },
                Event::Note { participant_start, participant_end, .. } => {
                    if *participant_start == a {
                        *participant_start = b;
                    } else if *participant_start == b {
                        *participant_start = a;
                    }
                    if *participant_end == a {
                        *participant_end = b;
                    } else if *participant_end == b {
                        *participant_end = a;
                    }
                },
            }
            i = i + 1;
        }
        proof {
            assert(self.events.deep_view() =~= orig.map_values(|e: EventView| e.swapped(a, b)));
        }
    }

    /// For a message event, swaps `from`/`to` so the arrow points left
    /// (`from > to`); no-op for notes, self-messages, or out-of-range `idx`.
    pub fn point_event_left(&mut self, idx: usize)
        ensures
            final(self)@ =~= old(self)@.after_point_left(idx),
            old(self)@.wf() ==> final(self)@.wf(),
    {
        if idx < self.events.len() {
            match &mut self.events[idx] {
                Event::Message { from, to, .. } => {
                    if *from < *to {
                        let tmp = *from;
                        *from = *to;
                        *to = tmp;
                    }
                },
                Event::Note { .. } => {},
            }
        }
        proof {
            assert(final(self)@.events =~= old(self)@.after_point_left(idx).events);
        }
    }

    /// For a message event, swaps `from`/`to` so the arrow points right
    /// (`from < to`); no-op for notes, self-messages, or out-of-range `idx`.
    pub fn point_event_right(&mut self, idx: usize)
        ensures
            final(self)@ =~= old(self)@.after_point_right(idx),
            old(self)@.wf() ==> final(self)@.wf(),
    {
        if idx < self.events.len() {
            match &mut self.events[idx] {
                Event::Message { from, to, .. } => {
                    if *from > *to {
                        let tmp = *from;
                        *from = *to;
                        *to = tmp;
                    }
                },
                Event::Note { .. } => {},
            }
        }
        proof {
            assert(final(self)@.events =~= old(self)@.after_point_right(idx).events);
        }
    }

    /// Removes the participant at `idx`, deletes every event that references
    /// it, and shifts every surviving index above `idx` down by one, all
    /// against the same `idx`. No-op when `idx` is out of range.
    pub fn remove_participant(&mut self, idx: usize)
        ensures
            final(self)@ =~= old(self)@.after_remove_participant(idx),
            old(self)@.wf() ==> final(self)@.wf(),
    {
        if idx >= self.participants.len() {
            return;
        }
        proof {
            lemma_deep_remove(self.participants@, idx as int);
        }
        self.participants.remove(idx);
        let ghost parts: Seq<Seq<char>> = self.participants.deep_view();
        let ghost orig: Seq<EventView> = self.events.deep_view();
        let ghost f = DiagramView::cascade_step(idx);
        let mut kept: Vec<Event> = Vec::new();
        let n = self.events.len();
        let mut i: usize = 0;
        while i < n
            invariant
                i <= n,
                n == self.events.len(),
                self.participants.deep_view() == parts,
                self.events.deep_view() == orig,
                f == DiagramView::cascade_step(idx),
                kept.deep_view() =~= orig.take(i as int).filter_map(f),
            decreases n - i,
        {
            let ghost kept_before: Seq<EventView> = kept.deep_view();
            match &self.events[i] {
                Event::Message { from, to, text } => {
                    if *from != idx && *to != idx {
                        let nf = if *from > idx {
                            *from - 1
                        } else {
                            *from
                        };
                        let nt = if *to > idx {
                            *to - 1
                        } else {
                            *to
                        };
                        let ev = Event::Message { from: nf, to: nt, text: text.clone() };
                        proof {
                            lemma_deep_push(kept@, ev);
                        }
                        kept.push(ev);
                    }
                },
                Event::Note { position, participant_start, participant_end, text } => {
                    if *participant_start != idx && *participant_end != idx {
                        let ns = if *participant_start > idx {
                            *participant_start - 1
                        } else {
                            *participant_start
                        };
                        let ne = if *participant_end > idx {
                            *participant_end - 1
                        } else {
                            *participant_end
                        };
                        let ev = Event::Note {
                            position: *position,
                            participant_start: ns,
                            participant_end: ne,
                            text: text.clone(),
                        };
                        proof {
                            lemma_deep_push(kept@, ev);
                        }
                        kept.push(ev);
                    }
                },
            }
            proof {
                orig.lemma_filter_map_take_succ(f, i as int);
                assert(kept.deep_view() =~= orig.take(i + 1).filter_map(f));
            }
            i = i + 1;
        }
        proof {
            assert(orig.take(n as int) =~= orig);
            if old(self)@.wf() {
                assert(orig =~= old(self)@.events);
                lemma_cascade_preserves_wf(orig, idx, old(self)@.participants.len());
            }
        }
        self.events = kept;
    }
}

} // verus!
