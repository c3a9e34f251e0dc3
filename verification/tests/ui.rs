use tuigram::diagram::SequenceDiagram;
use tuigram::editor::{EditorMode, EditorState};
use tuigram::layout::SequenceLayout;
use tuigram::model::NotePosition;
use tuigram::scroll::ScrollState;
use tuigram::selection::Selection;

#[test]
fn test_cycle_walks_participants_then_events() {
    let sel = Selection::Empty;
    let sel = sel.cycle(2, 1);
    assert_eq!(sel, Selection::Participant(0));
    let sel = sel.cycle(2, 1);
    assert_eq!(sel, Selection::Participant(1));
    let sel = sel.cycle(2, 1);
    assert_eq!(sel, Selection::Event(0));
    let sel = sel.cycle(2, 1);
    assert_eq!(sel, Selection::Participant(0));
}

#[test]
fn test_cycle_back_walks_in_reverse() {
    let sel = Selection::Empty;
    let sel = sel.cycle_back(2, 2);
    assert_eq!(sel, Selection::Event(1));
    let sel = sel.cycle_back(2, 2);
    assert_eq!(sel, Selection::Event(0));
    let sel = sel.cycle_back(2, 2);
    assert_eq!(sel, Selection::Participant(1));
    let sel = sel.cycle_back(2, 2);
    assert_eq!(sel, Selection::Participant(0));
}

#[test]
fn test_cycle_on_empty_lists() {
    assert_eq!(Selection::Empty.cycle(0, 0), Selection::Empty);
    assert_eq!(Selection::Empty.cycle_back(0, 0), Selection::Empty);
    assert_eq!(Selection::Empty.next_event(0, 0), Selection::Empty);
    assert_eq!(Selection::Empty.prev_participant(0, 0), Selection::Empty);
}

#[test]
fn test_next_and_prev_event() {
    assert_eq!(Selection::Event(0).next_event(3, 1), Selection::Event(1));
    assert_eq!(Selection::Event(2).next_event(3, 1), Selection::Participant(0));
    assert_eq!(Selection::Event(1).prev_event(3, 1), Selection::Event(0));
    assert_eq!(Selection::Event(0).prev_event(3, 2), Selection::Participant(1));
    assert_eq!(Selection::Empty.next_event(3, 1), Selection::Event(0));
}

#[test]
fn test_next_and_prev_participant() {
    assert_eq!(Selection::Participant(0).next_participant(2, 0), Selection::Participant(1));
    assert_eq!(Selection::Participant(1).next_participant(2, 1), Selection::Event(0));
    assert_eq!(Selection::Participant(1).prev_participant(2, 0), Selection::Participant(0));
    assert_eq!(Selection::Participant(0).prev_participant(2, 1), Selection::Event(0));
}

#[test]
fn test_horizontal_movement_clamps() {
    assert_eq!(Selection::Participant(0).left(3), Selection::Participant(0));
    assert_eq!(Selection::Participant(2).right(3), Selection::Participant(2));
    assert_eq!(Selection::Participant(1).right(3), Selection::Participant(2));
    assert_eq!(Selection::Empty.right(3), Selection::Participant(0));
    assert_eq!(Selection::Event(0).right(3), Selection::Event(0));
}

#[test]
fn test_vertical_movement_crosses_rows() {
    assert_eq!(Selection::Participant(1).down(3, 2), Selection::Event(0));
    assert_eq!(Selection::Event(1).down(3, 2), Selection::Event(1));
    assert_eq!(Selection::Event(1).up(3), Selection::Event(0));
    assert_eq!(Selection::Event(0).up(3), Selection::Participant(0));
    assert_eq!(Selection::Empty.down(3, 0), Selection::Empty);
}

#[test]
fn test_editor_reset_keeps_selection() {
    let mut e = EditorState::new();
    e.mode = EditorMode::InputMessage;
    e.input_buffer = "half-typed".to_string();
    e.message_from = Some(1);
    e.selection = Selection::Event(2);
    e.last_participant_index = Some(1);
    e.reset();
    assert_eq!(e.mode, EditorMode::Normal);
    assert_eq!(e.input_buffer, "");
    assert_eq!(e.message_from, None);
    assert_eq!(e.selection, Selection::Event(2));
    assert_eq!(e.last_participant_index, Some(1));
}

#[test]
fn test_editor_selection_accessors() {
    let mut e = EditorState::new();
    e.select_participant(3);
    assert_eq!(e.selected_participant(), Some(3));
    assert_eq!(e.selected_event(), None);
    e.select_event(5);
    assert_eq!(e.selected_event(), Some(5));
    assert_eq!(e.selected_participant(), None);
    e.clear_selection();
    assert_eq!(e.selection, Selection::Empty);
}

#[test]
fn test_status_message_expires() {
    let mut e = EditorState::new();
    e.set_status("saved".to_string(), 5000);
    assert_eq!(e.get_status(5000), Some("saved"));
    assert_eq!(e.get_status(5999), Some("saved"));
    assert_eq!(e.get_status(6000), None);
    e.set_status("again".to_string(), 7000);
    e.clear_status();
    assert_eq!(e.get_status(7000), None);
}

#[test]
fn test_mode_predicates() {
    assert!(EditorMode::SelectFrom.is_selecting_participant());
    assert!(EditorMode::EditNoteEndParticipant.is_selecting_participant());
    assert!(!EditorMode::Normal.is_selecting_participant());
    assert!(EditorMode::SelectFrom.is_selecting_from());
    assert!(!EditorMode::SelectTo.is_selecting_from());
    assert!(EditorMode::InputNoteText.is_text_input());
    assert!(!EditorMode::SelectNotePosition.is_text_input());
    assert!(EditorMode::SelectNotePosition.is_selecting_note_position());
}

#[test]
fn test_note_position_cycle_and_keyword() {
    assert_eq!(NotePosition::Right.next(), NotePosition::Left);
    assert_eq!(NotePosition::Left.next(), NotePosition::Over);
    assert_eq!(NotePosition::Over.next(), NotePosition::Right);
    assert_eq!(NotePosition::Left.prev(), NotePosition::Right);
    assert_eq!(NotePosition::Right.as_str(), "right of");
    assert_eq!(NotePosition::Left.as_str(), "left of");
    assert_eq!(NotePosition::Over.as_str(), "over");
    assert_eq!(NotePosition::default(), NotePosition::Right);
}

#[test]
fn test_scroll_follows_selection() {
    let mut s = ScrollState::new();
    s.set_viewport(14); // 14 - 5 = 9 rows -> capacity 3
    assert_eq!(s.capacity(), 3);
    s.ensure_visible(5);
    assert_eq!(s.offset, 3); // 5 - (3 - 1)
    s.ensure_visible(4); // already visible: unchanged
    assert_eq!(s.offset, 3);
    s.ensure_visible(1); // scrolling up
    assert_eq!(s.offset, 1);
    let (start, end) = s.visible_range(10);
    assert_eq!((start, end), (1, 4));
    let (_, end) = s.visible_range(2);
    assert_eq!(end, 2);
    assert!(s.needs_scroll(4));
    assert!(!s.needs_scroll(3));
}

#[test]
fn test_scroll_zero_capacity_is_inert() {
    let mut s = ScrollState::new();
    s.set_viewport(4); // under the reserved height -> capacity 0
    assert_eq!(s.capacity(), 0);
    s.ensure_visible(7);
    assert_eq!(s.offset, 0);
}

#[test]
fn test_layout_columns_and_rows() {
    let mut d = SequenceDiagram::new();
    d.add_participant("A".to_string());
    d.add_participant("B".to_string());
    d.add_message(0, 1, "hi".to_string());
    d.add_note(NotePosition::Right, 0, 0, "n".to_string());
    d.add_message(1, 0, "back".to_string());
    let l = SequenceLayout::compute(&d, 90);
    assert_eq!(l.width, 90);
    assert_eq!(l.participants.len(), 2);
    // spacing = 90 / 3 = 30
    assert_eq!(l.participants[0].x, 30);
    assert_eq!(l.participants[1].x, 60);
    assert_eq!(l.participants[0].name, "A");
    assert_eq!(l.participants[0].index, 0);
    // notes take no message band
    assert_eq!(l.messages.len(), 2);
    assert_eq!(l.messages[0].from_x, 30);
    assert_eq!(l.messages[0].to_x, 60);
    assert_eq!(l.messages[0].y, 3);
    assert_eq!(l.messages[1].y, 7);
    assert_eq!(l.messages[1].text, "back");
    assert_eq!(l.height, 3 + 8 + 2);
}

#[test]
fn test_layout_empty_diagram() {
    let d = SequenceDiagram::new();
    let l = SequenceLayout::compute(&d, 40);
    assert_eq!(l.participants.len(), 0);
    assert_eq!(l.messages.len(), 0);
    assert_eq!(l.height, 5);
}
