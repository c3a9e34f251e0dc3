use tuigram::diagram::SequenceDiagram;
use tuigram::editor::{EditorMode, EditorState};
use tuigram::model::Event;
use tuigram::selection::Selection;
use tuigram::workflow::{handle_key, Effect, KeyInput};

fn type_text(d: &mut SequenceDiagram, e: &mut EditorState, text: &str) {
    for c in text.chars() {
        handle_key(d, e, KeyInput::Char(c));
    }
}

#[test]
fn test_add_participant_flow() {
    let mut d = SequenceDiagram::new();
    let mut e = EditorState::new();
    handle_key(&mut d, &mut e, KeyInput::Char('p'));
    assert_eq!(e.mode, EditorMode::InputParticipant);
    type_text(&mut d, &mut e, "  User  ");
    handle_key(&mut d, &mut e, KeyInput::Enter);
    assert_eq!(d.participants, vec!["User"]);
    assert_eq!(e.mode, EditorMode::Normal);
}

#[test]
fn test_empty_participant_input_cancels() {
    let mut d = SequenceDiagram::new();
    let mut e = EditorState::new();
    handle_key(&mut d, &mut e, KeyInput::Char('p'));
    type_text(&mut d, &mut e, "   ");
    handle_key(&mut d, &mut e, KeyInput::Enter);
    assert_eq!(d.participant_count(), 0);
    assert_eq!(e.mode, EditorMode::Normal);
}

#[test]
fn test_insert_message_flow() {
    let mut d = SequenceDiagram::new();
    let mut e = EditorState::new();
    d.add_participant("A".to_string());
    d.add_participant("B".to_string());
    handle_key(&mut d, &mut e, KeyInput::Char('m'));
    assert_eq!(e.mode, EditorMode::SelectFrom);
    handle_key(&mut d, &mut e, KeyInput::Enter); // from = 0
    assert_eq!(e.mode, EditorMode::SelectTo);
    handle_key(&mut d, &mut e, KeyInput::Down); // to selector -> 1
    handle_key(&mut d, &mut e, KeyInput::Enter); // to = 1
    assert_eq!(e.mode, EditorMode::InputMessage);
    type_text(&mut d, &mut e, "Hello");
    handle_key(&mut d, &mut e, KeyInput::Enter);
    assert_eq!(d.events.len(), 1);
    match &d.events[0] {
        Event::Message { from, to, text } => {
            assert_eq!((*from, *to), (0, 1));
            assert_eq!(text, "Hello");
        }
        Event::Note { .. } => panic!("expected a message"),
    }
    assert_eq!(e.selection, Selection::Event(0));
    assert_eq!(e.mode, EditorMode::Normal);
}

#[test]
fn test_message_flow_needs_two_participants() {
    let mut d = SequenceDiagram::new();
    let mut e = EditorState::new();
    d.add_participant("A".to_string());
    handle_key(&mut d, &mut e, KeyInput::Char('m'));
    assert_eq!(e.mode, EditorMode::Normal);
}

#[test]
fn test_backspace_edits_buffer() {
    let mut d = SequenceDiagram::new();
    let mut e = EditorState::new();
    handle_key(&mut d, &mut e, KeyInput::Char('p'));
    type_text(&mut d, &mut e, "Ab");
    handle_key(&mut d, &mut e, KeyInput::Backspace);
    type_text(&mut d, &mut e, "nna");
    handle_key(&mut d, &mut e, KeyInput::Enter);
    assert_eq!(d.participants, vec!["Anna"]);
}

#[test]
fn test_escape_cancels_input() {
    let mut d = SequenceDiagram::new();
    let mut e = EditorState::new();
    handle_key(&mut d, &mut e, KeyInput::Char('p'));
    type_text(&mut d, &mut e, "ignored");
    handle_key(&mut d, &mut e, KeyInput::Esc);
    assert_eq!(d.participant_count(), 0);
    assert_eq!(e.mode, EditorMode::Normal);
}

#[test]
fn test_delete_clamps_participant_selection() {
    let mut d = SequenceDiagram::new();
    let mut e = EditorState::new();
    d.add_participant("A".to_string());
    d.add_participant("B".to_string());
    d.add_participant("C".to_string());
    e.selection = Selection::Participant(2);
    handle_key(&mut d, &mut e, KeyInput::Char('d'));
    assert_eq!(d.participants, vec!["A", "B"]);
    assert_eq!(e.selection, Selection::Participant(1));
}

#[test]
fn test_delete_last_participant_clears_selection() {
    let mut d = SequenceDiagram::new();
    let mut e = EditorState::new();
    d.add_participant("A".to_string());
    e.selection = Selection::Participant(0);
    handle_key(&mut d, &mut e, KeyInput::Char('d'));
    assert_eq!(d.participant_count(), 0);
    assert_eq!(e.selection, Selection::Empty);
}

#[test]
fn test_delete_with_no_selection_pops_last_event() {
    let mut d = SequenceDiagram::new();
    let mut e = EditorState::new();
    d.add_participant("A".to_string());
    d.add_message(0, 0, "one".to_string());
    d.add_message(0, 0, "two".to_string());
    handle_key(&mut d, &mut e, KeyInput::Char('d'));
    assert_eq!(d.events.len(), 1);
}

#[test]
fn test_rename_flow() {
    let mut d = SequenceDiagram::new();
    let mut e = EditorState::new();
    d.add_participant("Old".to_string());
    e.selection = Selection::Participant(0);
    handle_key(&mut d, &mut e, KeyInput::Enter);
    assert_eq!(e.mode, EditorMode::RenameParticipant);
    assert_eq!(e.input_buffer, "Old");
    handle_key(&mut d, &mut e, KeyInput::Backspace);
    handle_key(&mut d, &mut e, KeyInput::Backspace);
    handle_key(&mut d, &mut e, KeyInput::Backspace);
    type_text(&mut d, &mut e, "New");
    handle_key(&mut d, &mut e, KeyInput::Enter);
    assert_eq!(d.participants, vec!["New"]);
}

#[test]
fn test_confirm_clear_flow() {
    let mut d = SequenceDiagram::new();
    let mut e = EditorState::new();
    d.add_participant("A".to_string());
    d.add_message(0, 0, "x".to_string());
    handle_key(&mut d, &mut e, KeyInput::Char('C'));
    assert_eq!(e.mode, EditorMode::ConfirmClear);
    handle_key(&mut d, &mut e, KeyInput::Char('n'));
    assert_eq!(d.participant_count(), 1);
    handle_key(&mut d, &mut e, KeyInput::Char('C'));
    handle_key(&mut d, &mut e, KeyInput::Char('y'));
    assert_eq!(d.participant_count(), 0);
    assert_eq!(d.event_count(), 0);
}

#[test]
fn test_export_and_quit_effects() {
    let mut d = SequenceDiagram::new();
    let mut e = EditorState::new();
    assert_eq!(handle_key(&mut d, &mut e, KeyInput::Char('E')), Effect::Export);
    assert_eq!(handle_key(&mut d, &mut e, KeyInput::Ctrl('c')), Effect::Quit);
    assert_eq!(handle_key(&mut d, &mut e, KeyInput::Char('x')), Effect::Nothing);
}

#[test]
fn test_move_participant_keeps_selection() {
    let mut d = SequenceDiagram::new();
    let mut e = EditorState::new();
    d.add_participant("A".to_string());
    d.add_participant("B".to_string());
    d.add_message(0, 1, "hi".to_string());
    e.selection = Selection::Participant(0);
    handle_key(&mut d, &mut e, KeyInput::Char('L'));
    assert_eq!(d.participants, vec!["B", "A"]);
    assert_eq!(e.selection, Selection::Participant(1));
    match &d.events[0] {
        Event::Message { from, to, .. } => assert_eq!((*from, *to), (1, 0)),
        Event::Note { .. } => panic!("expected a message"),
    }
}

#[test]
fn test_move_event_down_and_up() {
    let mut d = SequenceDiagram::new();
    let mut e = EditorState::new();
    d.add_participant("A".to_string());
    d.add_message(0, 0, "one".to_string());
    d.add_message(0, 0, "two".to_string());
    e.selection = Selection::Event(0);
    handle_key(&mut d, &mut e, KeyInput::Char('J'));
    assert_eq!(e.selection, Selection::Event(1));
    match &d.events[0] {
        Event::Message { text, .. } => assert_eq!(text, "two"),
        Event::Note { .. } => panic!("expected a message"),
    }
    handle_key(&mut d, &mut e, KeyInput::Char('K'));
    assert_eq!(e.selection, Selection::Event(0));
    match &d.events[0] {
        Event::Message { text, .. } => assert_eq!(text, "one"),
        Event::Note { .. } => panic!("expected a message"),
    }
}

#[test]
fn test_help_toggle() {
    let mut d = SequenceDiagram::new();
    let mut e = EditorState::new();
    handle_key(&mut d, &mut e, KeyInput::Char('?'));
    assert_eq!(e.mode, EditorMode::Help);
    handle_key(&mut d, &mut e, KeyInput::Char('?'));
    assert_eq!(e.mode, EditorMode::Normal);
}

#[test]
fn test_up_restores_last_participant_column() {
    let mut d = SequenceDiagram::new();
    let mut e = EditorState::new();
    d.add_participant("A".to_string());
    d.add_participant("B".to_string());
    d.add_message(0, 1, "hi".to_string());
    e.selection = Selection::Participant(1);
    handle_key(&mut d, &mut e, KeyInput::Down);
    assert_eq!(e.selection, Selection::Event(0));
    handle_key(&mut d, &mut e, KeyInput::Up);
    assert_eq!(e.selection, Selection::Participant(1));
}

#[test]
fn test_insert_note_before_selected() {
    let mut d = SequenceDiagram::new();
    let mut e = EditorState::new();
    d.add_participant("A".to_string());
    d.add_message(0, 0, "existing".to_string());
    e.selection = Selection::Event(0);
    handle_key(&mut d, &mut e, KeyInput::Char('N'));
    assert_eq!(e.mode, EditorMode::SelectNoteParticipant);
    handle_key(&mut d, &mut e, KeyInput::Enter); // participant 0
    assert_eq!(e.mode, EditorMode::SelectNotePosition);
    handle_key(&mut d, &mut e, KeyInput::Enter); // right of
    assert_eq!(e.mode, EditorMode::InputNoteText);
    type_text(&mut d, &mut e, "first!");
    handle_key(&mut d, &mut e, KeyInput::Enter);
    assert_eq!(d.events.len(), 2);
    match &d.events[0] {
        Event::Note { text, .. } => assert_eq!(text, "first!"),
        Event::Message { .. } => panic!("expected the note first"),
    }
    assert_eq!(e.selection, Selection::Event(0));
}

#[test]
fn test_insert_note_over_two_participants() {
    let mut d = SequenceDiagram::new();
    let mut e = EditorState::new();
    d.add_participant("A".to_string());
    d.add_participant("B".to_string());
    handle_key(&mut d, &mut e, KeyInput::Char('n'));
    handle_key(&mut d, &mut e, KeyInput::Enter); // start = 0
    handle_key(&mut d, &mut e, KeyInput::Down); // Right -> Left
    handle_key(&mut d, &mut e, KeyInput::Down); // Left -> Over
    handle_key(&mut d, &mut e, KeyInput::Enter); // position = Over
    assert_eq!(e.mode, EditorMode::SelectNoteEndParticipant);
    handle_key(&mut d, &mut e, KeyInput::Down); // end selector -> 1
    handle_key(&mut d, &mut e, KeyInput::Enter); // end = 1
    type_text(&mut d, &mut e, "span");
    handle_key(&mut d, &mut e, KeyInput::Enter);
    match &d.events[0] {
        Event::Note {
            participant_start,
            participant_end,
            text,
            ..
        } => {
            assert_eq!((*participant_start, *participant_end), (0, 1));
            assert_eq!(text, "span");
        }
        Event::Message { .. } => panic!("expected a note"),
    }
}

#[test]
fn test_edit_message_text() {
    let mut d = SequenceDiagram::new();
    let mut e = EditorState::new();
    d.add_participant("A".to_string());
    d.add_participant("B".to_string());
    d.add_message(0, 1, "old".to_string());
    e.selection = Selection::Event(0);
    handle_key(&mut d, &mut e, KeyInput::Char('r'));
    assert_eq!(e.mode, EditorMode::EditMessage);
    assert_eq!(e.input_buffer, "old");
    for _ in 0..3 {
        handle_key(&mut d, &mut e, KeyInput::Backspace);
    }
    type_text(&mut d, &mut e, "new");
    handle_key(&mut d, &mut e, KeyInput::Enter);
    match &d.events[0] {
        Event::Message { from, to, text } => {
            assert_eq!((*from, *to), (0, 1));
            assert_eq!(text, "new");
        }
        Event::Note { .. } => panic!("expected a message"),
    }
    assert_eq!(d.events.len(), 1);
}

#[test]
fn test_edit_message_endpoints() {
    let mut d = SequenceDiagram::new();
    let mut e = EditorState::new();
    d.add_participant("A".to_string());
    d.add_participant("B".to_string());
    d.add_message(0, 1, "msg".to_string());
    e.selection = Selection::Event(0);
    handle_key(&mut d, &mut e, KeyInput::Enter);
    assert_eq!(e.mode, EditorMode::EditSelectFrom);
    handle_key(&mut d, &mut e, KeyInput::Down); // from -> 1
    handle_key(&mut d, &mut e, KeyInput::Enter);
    assert_eq!(e.mode, EditorMode::EditSelectTo);
    handle_key(&mut d, &mut e, KeyInput::Up); // to 1 -> 0
    handle_key(&mut d, &mut e, KeyInput::Enter);
    assert_eq!(e.mode, EditorMode::EditMessage);
    handle_key(&mut d, &mut e, KeyInput::Enter);
    match &d.events[0] {
        Event::Message { from, to, text } => {
            assert_eq!((*from, *to), (1, 0));
            assert_eq!(text, "msg");
        }
        Event::Note { .. } => panic!("expected a message"),
    }
}

#[test]
fn test_digit_selects_participant() {
    let mut d = SequenceDiagram::new();
    let mut e = EditorState::new();
    d.add_participant("A".to_string());
    d.add_participant("B".to_string());
    handle_key(&mut d, &mut e, KeyInput::Char('m'));
    handle_key(&mut d, &mut e, KeyInput::Char('2'));
    assert_eq!(e.selected_index, 1);
    handle_key(&mut d, &mut e, KeyInput::Char('9')); // out of range: unchanged
    assert_eq!(e.selected_index, 1);
}

#[test]
fn test_selector_wraps_around() {
    let mut d = SequenceDiagram::new();
    let mut e = EditorState::new();
    d.add_participant("A".to_string());
    d.add_participant("B".to_string());
    handle_key(&mut d, &mut e, KeyInput::Char('m'));
    assert_eq!(e.selected_index, 0);
    handle_key(&mut d, &mut e, KeyInput::Up);
    assert_eq!(e.selected_index, 1);
    handle_key(&mut d, &mut e, KeyInput::Down);
    assert_eq!(e.selected_index, 0);
}
