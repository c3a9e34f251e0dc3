use tuigram::codec::ParseError;
use tuigram::diagram::SequenceDiagram;
use tuigram::model::{Event, NotePosition};

#[test]
fn test_roundtrip() {
    let mut diagram = SequenceDiagram::new();
    diagram.add_participant("Alice".to_string());
    diagram.add_participant("Bob".to_string());
    diagram.add_message(0, 1, "Hello".to_string());
    diagram.add_message(1, 0, "Hi there".to_string());

    let mermaid = diagram.to_mermaid();
    let parsed = SequenceDiagram::from_mermaid(&mermaid).unwrap();

    assert_eq!(parsed.participants, diagram.participants);
    assert_eq!(parsed.events.len(), diagram.events.len());
}

#[test]
fn test_from_mermaid_basic() {
    let input = "sequenceDiagram
    participant Alice
    participant Bob
    Alice->>Bob: Hello
    Bob->>Alice: Hi";
    let diagram = SequenceDiagram::from_mermaid(input).unwrap();
    assert_eq!(diagram.participants, vec!["Alice", "Bob"]);
    assert_eq!(diagram.events.len(), 2);
}

#[test]
fn test_from_mermaid_auto_participants() {
    let input = "sequenceDiagram
    Alice->>Bob: Hello";
    let diagram = SequenceDiagram::from_mermaid(input).unwrap();
    assert_eq!(diagram.participants, vec!["Alice", "Bob"]);
}

#[test]
fn test_invalid_header() {
    let input = "Alice->>Bob: Hello";
    let result = SequenceDiagram::from_mermaid(input);
    assert!(result.is_err());
}

#[test]
fn test_note_right() {
    let input = "sequenceDiagram
    participant Alice
    Note right of Alice: This is a note";
    let diagram = SequenceDiagram::from_mermaid(input).unwrap();
    assert_eq!(diagram.events.len(), 1);
    if let Event::Note {
        position,
        participant_start,
        text,
        ..
    } = &diagram.events[0]
    {
        assert_eq!(*position, NotePosition::Right);
        assert_eq!(*participant_start, 0);
        assert_eq!(text, "This is a note");
    } else {
        panic!("Expected Note event");
    }
}

#[test]
fn test_note_over_multiple() {
    let input = "sequenceDiagram
    participant Alice
    participant Bob
    Note over Alice,Bob: Spanning note";
    let diagram = SequenceDiagram::from_mermaid(input).unwrap();
    assert_eq!(diagram.events.len(), 1);
    if let Event::Note {
        position,
        participant_start,
        participant_end,
        text,
    } = &diagram.events[0]
    {
        assert_eq!(*position, NotePosition::Over);
        assert_eq!(*participant_start, 0);
        assert_eq!(*participant_end, 1);
        assert_eq!(text, "Spanning note");
    } else {
        panic!("Expected Note event");
    }
}

#[test]
fn test_note_roundtrip() {
    let mut diagram = SequenceDiagram::new();
    diagram.add_participant("Alice".to_string());
    diagram.add_participant("Bob".to_string());
    diagram.add_note(NotePosition::Right, 0, 0, "Right note".to_string());
    diagram.add_note(NotePosition::Left, 1, 1, "Left note".to_string());
    diagram.add_note(NotePosition::Over, 0, 1, "Over note".to_string());

    let mermaid = diagram.to_mermaid();
    let parsed = SequenceDiagram::from_mermaid(&mermaid).unwrap();

    assert_eq!(parsed.participants, diagram.participants);
    assert_eq!(parsed.events.len(), 3);
}

#[test]
fn test_build_and_export() {
    let mut diagram = SequenceDiagram::new();
    diagram.add_participant("User".to_string());
    diagram.add_participant("API".to_string());
    diagram.add_message(0, 1, "Login".to_string());
    assert_eq!(
        diagram.to_mermaid(),
        "sequenceDiagram\n    participant User\n    participant API\n    User->>API: Login\n"
    );
}

#[test]
fn test_empty_diagram_export() {
    let diagram = SequenceDiagram::new();
    assert_eq!(diagram.to_mermaid(), "sequenceDiagram\n");
}

#[test]
fn test_header_only_import() {
    let diagram = SequenceDiagram::from_mermaid("sequenceDiagram").unwrap();
    assert_eq!(diagram.participants.len(), 0);
    assert_eq!(diagram.events.len(), 0);
}

#[test]
fn test_auto_declare_message_fields() {
    let diagram = SequenceDiagram::from_mermaid("sequenceDiagram\nAlice->>Bob: Hi").unwrap();
    assert_eq!(diagram.participants, vec!["Alice", "Bob"]);
    assert_eq!(diagram.events.len(), 1);
    if let Event::Message { from, to, text } = &diagram.events[0] {
        assert_eq!(*from, 0);
        assert_eq!(*to, 1);
        assert_eq!(text, "Hi");
    } else {
        panic!("Expected Message event");
    }
}

#[test]
fn test_self_message_roundtrip() {
    let mut diagram = SequenceDiagram::new();
    diagram.add_participant("Solo".to_string());
    diagram.add_message(0, 0, "thinking".to_string());
    let parsed = SequenceDiagram::from_mermaid(&diagram.to_mermaid()).unwrap();
    assert_eq!(parsed.participants, vec!["Solo"]);
    if let Event::Message { from, to, text } = &parsed.events[0] {
        assert_eq!((*from, *to), (0, 0));
        assert_eq!(text, "thinking");
    } else {
        panic!("Expected Message event");
    }
}

#[test]
fn test_note_over_single_roundtrip() {
    let mut diagram = SequenceDiagram::new();
    diagram.add_participant("Alice".to_string());
    diagram.add_note(NotePosition::Over, 0, 0, "alone".to_string());
    let mermaid = diagram.to_mermaid();
    assert_eq!(
        mermaid,
        "sequenceDiagram\n    participant Alice\n    Note over Alice: alone\n"
    );
    let parsed = SequenceDiagram::from_mermaid(&mermaid).unwrap();
    if let Event::Note {
        position,
        participant_start,
        participant_end,
        ..
    } = &parsed.events[0]
    {
        assert_eq!(*position, NotePosition::Over);
        assert_eq!(*participant_start, 0);
        assert_eq!(*participant_end, 0);
    } else {
        panic!("Expected Note event");
    }
}

#[test]
fn test_empty_line_rejected() {
    let err = SequenceDiagram::from_mermaid("sequenceDiagram\n\nAlice->>Bob: Hi").unwrap_err();
    assert!(matches!(err, ParseError::EmptyLine));
    assert_eq!(err.message(), "Empty lines are not supported");
}

#[test]
fn test_comment_rejected() {
    let err = SequenceDiagram::from_mermaid("sequenceDiagram\n%% a comment").unwrap_err();
    assert!(matches!(err, ParseError::Comment));
}

#[test]
fn test_missing_header_error_kind() {
    let err = SequenceDiagram::from_mermaid("").unwrap_err();
    assert!(matches!(err, ParseError::MissingHeader));
    assert_eq!(err.message(), "First line must be 'sequenceDiagram'");
}

#[test]
fn test_bare_participant_keyword_rejected() {
    // without the trailing space the keyword does not match, so the line is
    // unsupported (line trimming makes an empty name unreachable)
    let err = SequenceDiagram::from_mermaid("sequenceDiagram\n    participant   ").unwrap_err();
    assert!(matches!(err, ParseError::UnsupportedLine { .. }));
}

#[test]
fn test_bad_note_position_rejected() {
    let err =
        SequenceDiagram::from_mermaid("sequenceDiagram\n    Note under Alice: hm").unwrap_err();
    assert!(matches!(err, ParseError::InvalidNotePosition { .. }));
}

#[test]
fn test_note_missing_colon_rejected() {
    let err =
        SequenceDiagram::from_mermaid("sequenceDiagram\n    Note right of Alice").unwrap_err();
    assert!(matches!(err, ParseError::NoteMissingColon { .. }));
}

#[test]
fn test_note_over_three_names_rejected() {
    let err = SequenceDiagram::from_mermaid("sequenceDiagram\n    Note over A,B,C: too many")
        .unwrap_err();
    assert!(matches!(err, ParseError::NoteOverParticipants { .. }));
}

#[test]
fn test_note_empty_name_rejected() {
    let err =
        SequenceDiagram::from_mermaid("sequenceDiagram\n    Note right of : what").unwrap_err();
    assert!(matches!(err, ParseError::InvalidNote { .. }));
}

#[test]
fn test_message_missing_colon_rejected() {
    let err = SequenceDiagram::from_mermaid("sequenceDiagram\n    Alice->>Bob").unwrap_err();
    assert!(matches!(err, ParseError::MessageMissingColon { .. }));
}

#[test]
fn test_message_empty_name_rejected() {
    let err = SequenceDiagram::from_mermaid("sequenceDiagram\n    ->>Bob: hi").unwrap_err();
    assert!(matches!(err, ParseError::InvalidMessage { .. }));
}

#[test]
fn test_unsupported_line_rejected() {
    let err = SequenceDiagram::from_mermaid("sequenceDiagram\n    loop every day").unwrap_err();
    assert!(matches!(err, ParseError::UnsupportedLine { .. }));
    assert_eq!(err.message(), "Unsupported mermaid feature: loop every day");
}

#[test]
fn test_duplicate_declaration_kept_once() {
    let diagram = SequenceDiagram::from_mermaid(
        "sequenceDiagram\n    participant A\n    participant A\n    A->>A: echo",
    )
    .unwrap();
    assert_eq!(diagram.participants, vec!["A"]);
}

#[test]
fn test_crlf_lines_accepted() {
    let diagram =
        SequenceDiagram::from_mermaid("sequenceDiagram\r\n    participant A\r\n    A->>A: hi")
            .unwrap();
    assert_eq!(diagram.participants, vec!["A"]);
    assert_eq!(diagram.events.len(), 1);
}

#[test]
fn test_empty_message_text_roundtrip() {
    let mut diagram = SequenceDiagram::new();
    diagram.add_participant("A".to_string());
    diagram.add_participant("B".to_string());
    diagram.add_message(0, 1, "".to_string());
    let parsed = SequenceDiagram::from_mermaid(&diagram.to_mermaid()).unwrap();
    if let Event::Message { from, to, text } = &parsed.events[0] {
        assert_eq!((*from, *to), (0, 1));
        assert_eq!(text, "");
    } else {
        panic!("Expected Message event");
    }
}
