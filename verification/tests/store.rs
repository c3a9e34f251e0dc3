use tuigram::diagram::SequenceDiagram;
use tuigram::model::{Event, NotePosition};

fn message_fields(e: &Event) -> (usize, usize, String) {
    match e {
        Event::Message { from, to, text } => (*from, *to, text.clone()),
        Event::Note { .. } => panic!("expected a message"),
    }
}

fn note_fields(e: &Event) -> (NotePosition, usize, usize, String) {
    match e {
        Event::Note {
            position,
            participant_start,
            participant_end,
            text,
        } => (*position, *participant_start, *participant_end, text.clone()),
        Event::Message { .. } => panic!("expected a note"),
    }
}

#[test]
fn test_removal_cascade() {
    let mut d = SequenceDiagram::new();
    d.add_participant("A".to_string());
    d.add_participant("B".to_string());
    d.add_participant("C".to_string());
    d.add_message(0, 2, "keep-shift".to_string());
    d.add_message(0, 1, "drop".to_string());
    d.add_message(1, 2, "drop-too".to_string());
    d.add_note(NotePosition::Over, 0, 2, "keep-note".to_string());
    d.remove_participant(1);
    assert_eq!(d.participants, vec!["A", "C"]);
    assert_eq!(d.events.len(), 2);
    assert_eq!(message_fields(&d.events[0]), (0, 1, "keep-shift".to_string()));
    assert_eq!(
        note_fields(&d.events[1]),
        (NotePosition::Over, 0, 1, "keep-note".to_string())
    );
}

#[test]
fn test_index_integrity_after_ops() {
    let mut d = SequenceDiagram::new();
    d.add_participant("A".to_string());
    d.add_participant("B".to_string());
    d.add_participant("C".to_string());
    d.add_message(0, 1, "x".to_string());
    d.add_note(NotePosition::Right, 2, 2, "y".to_string());
    d.swap_participants(0, 2);
    d.remove_participant(0);
    d.add_message(0, 1, "z".to_string());
    d.remove_event(0);
    for e in &d.events {
        match e {
            Event::Message { from, to, .. } => {
                assert!(*from < d.participants.len());
                assert!(*to < d.participants.len());
            }
            Event::Note {
                participant_start,
                participant_end,
                ..
            } => {
                assert!(*participant_start < d.participants.len());
                assert!(*participant_end < d.participants.len());
            }
        }
    }
}

#[test]
fn test_swap_preserves_association() {
    let mut d = SequenceDiagram::new();
    d.add_participant("A".to_string());
    d.add_participant("B".to_string());
    d.add_message(0, 1, "hi".to_string());
    d.swap_participants(0, 1);
    assert_eq!(d.participants, vec!["B", "A"]);
    assert_eq!(message_fields(&d.events[0]), (1, 0, "hi".to_string()));
}

#[test]
fn test_out_of_range_ops_are_noops() {
    let mut d = SequenceDiagram::new();
    d.add_participant("A".to_string());
    d.add_message(0, 1, "invalid to".to_string());
    d.add_message(1, 0, "invalid from".to_string());
    d.add_note(NotePosition::Right, 0, 3, "invalid end".to_string());
    d.remove_event(5);
    d.remove_participant(7);
    d.swap_participants(0, 4);
    assert_eq!(d.participants, vec!["A"]);
    assert_eq!(d.events.len(), 0);
}

#[test]
fn test_insert_message_positions() {
    let mut d = SequenceDiagram::new();
    d.add_participant("A".to_string());
    d.add_participant("B".to_string());
    d.add_message(0, 1, "first".to_string());
    d.add_message(0, 1, "last".to_string());
    d.insert_message(0, 0, 1, "second".to_string());
    assert_eq!(message_fields(&d.events[1]), (0, 1, "second".to_string()));
    // an after-index beyond the end appends
    d.insert_message(99, 1, 0, "tail".to_string());
    assert_eq!(message_fields(&d.events[3]), (1, 0, "tail".to_string()));
    assert_eq!(d.events.len(), 4);
}

#[test]
fn test_insert_note_positions() {
    let mut d = SequenceDiagram::new();
    d.add_participant("A".to_string());
    d.add_message(0, 0, "m".to_string());
    d.insert_note(0, NotePosition::Left, 0, 0, "after first".to_string());
    assert_eq!(
        note_fields(&d.events[1]),
        (NotePosition::Left, 0, 0, "after first".to_string())
    );
}

#[test]
fn test_point_event_left_and_right() {
    let mut d = SequenceDiagram::new();
    d.add_participant("A".to_string());
    d.add_participant("B".to_string());
    d.add_message(0, 1, "fwd".to_string());
    d.point_event_left(0);
    assert_eq!(message_fields(&d.events[0]), (1, 0, "fwd".to_string()));
    // already pointing left: no-op
    d.point_event_left(0);
    assert_eq!(message_fields(&d.events[0]), (1, 0, "fwd".to_string()));
    d.point_event_right(0);
    assert_eq!(message_fields(&d.events[0]), (0, 1, "fwd".to_string()));
    d.point_event_right(0);
    assert_eq!(message_fields(&d.events[0]), (0, 1, "fwd".to_string()));
}

#[test]
fn test_point_self_message_is_noop() {
    let mut d = SequenceDiagram::new();
    d.add_participant("A".to_string());
    d.add_message(0, 0, "self".to_string());
    d.point_event_left(0);
    d.point_event_right(0);
    assert_eq!(message_fields(&d.events[0]), (0, 0, "self".to_string()));
}

#[test]
fn test_swap_events_and_pop() {
    let mut d = SequenceDiagram::new();
    d.add_participant("A".to_string());
    d.add_message(0, 0, "one".to_string());
    d.add_message(0, 0, "two".to_string());
    d.swap_events(0, 1);
    assert_eq!(message_fields(&d.events[0]), (0, 0, "two".to_string()));
    d.pop_event();
    assert_eq!(d.events.len(), 1);
    assert_eq!(message_fields(&d.events[0]), (0, 0, "two".to_string()));
}

#[test]
fn test_rename_and_update() {
    let mut d = SequenceDiagram::new();
    d.add_participant("Old".to_string());
    d.add_participant("Other".to_string());
    d.add_message(0, 1, "text".to_string());
    d.rename_participant(0, "New".to_string());
    assert_eq!(d.participants, vec!["New", "Other"]);
    d.update_message(0, 1, 0, "edited".to_string());
    assert_eq!(message_fields(&d.events[0]), (1, 0, "edited".to_string()));
    d.add_note(NotePosition::Right, 0, 0, "n".to_string());
    d.update_note(1, NotePosition::Over, 0, 1, "spanning".to_string());
    assert_eq!(
        note_fields(&d.events[1]),
        (NotePosition::Over, 0, 1, "spanning".to_string())
    );
}

#[test]
fn test_duplicate_names_allowed() {
    let mut d = SequenceDiagram::new();
    d.add_participant("Twin".to_string());
    d.add_participant("Twin".to_string());
    assert_eq!(d.participant_count(), 2);
}
