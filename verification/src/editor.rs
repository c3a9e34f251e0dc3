//! The editor's modal state: which step of which multi-step operation is
//! active, plus the buffers and indices that the pending operation has
//! collected so far.

use vstd::prelude::*;

use crate::model::NotePosition;
use crate::selection::Selection;

verus! {

/// The workflow's current mode. `Normal` is the steady state; every other
/// mode is one step of a multi-step operation.
#[derive(Clone, Copy, PartialEq, Eq, Structural, Debug)]
pub enum EditorMode {
    Normal,
    InputParticipant,
    SelectFrom,
    SelectTo,
    InputMessage,
    EditMessage,
    EditSelectFrom,
    EditSelectTo,
    RenameParticipant,
    Help,
    ConfirmClear,
    SelectNoteParticipant,
    SelectNotePosition,
    SelectNoteEndParticipant,
    InputNoteText,
    EditNoteParticipant,
    EditNotePosition,
    EditNoteEndParticipant,
    EditNoteText,
}

impl Default for EditorMode {
    fn default() -> (r: Self)
        ensures
            r == EditorMode::Normal,
    {
        EditorMode::Normal
    }
}

impl EditorMode {
    pub open spec fn spec_is_selecting_participant(self) -> bool {
        self == EditorMode::SelectFrom || self == EditorMode::SelectTo
            || self == EditorMode::EditSelectFrom || self == EditorMode::EditSelectTo
            || self == EditorMode::SelectNoteParticipant
            || self == EditorMode::SelectNoteEndParticipant
            || self == EditorMode::EditNoteParticipant
            || self == EditorMode::EditNoteEndParticipant
    }

    /// Whether this mode asks the user to pick a participant.
    pub fn is_selecting_participant(&self) -> (r: bool)
        ensures
            r == self.spec_is_selecting_participant(),
    {
        match self {
            EditorMode::SelectFrom
            | EditorMode::SelectTo
            | EditorMode::EditSelectFrom
            | EditorMode::EditSelectTo
            | EditorMode::SelectNoteParticipant
            | EditorMode::SelectNoteEndParticipant
            | EditorMode::EditNoteParticipant
            | EditorMode::EditNoteEndParticipant => true,
            _ => false,
        }
    }

    pub open spec fn spec_is_selecting_from(self) -> bool {
        self == EditorMode::SelectFrom || self == EditorMode::EditSelectFrom
    }

    /// Whether this mode picks the sending side of a message.
    pub fn is_selecting_from(&self) -> (r: bool)
        ensures
            r == self.spec_is_selecting_from(),
    {
        match self {
            EditorMode::SelectFrom | EditorMode::EditSelectFrom => true,
            _ => false,
        }
    }

    pub open spec fn spec_is_text_input(self) -> bool {
        self == EditorMode::InputParticipant || self == EditorMode::InputMessage
            || self == EditorMode::EditMessage || self == EditorMode::RenameParticipant
            || self == EditorMode::InputNoteText || self == EditorMode::EditNoteText
    }

    /// Whether this mode has an active text buffer.
    pub fn is_text_input(&self) -> (r: bool)
        ensures
            r == self.spec_is_text_input(),
    {
        match self {
            EditorMode::InputParticipant
            | EditorMode::InputMessage
            | EditorMode::EditMessage
            | EditorMode::RenameParticipant
            | EditorMode::InputNoteText
            | EditorMode::EditNoteText => true,
            _ => false,
        }
    }

    pub open spec fn spec_is_selecting_note_position(self) -> bool {
        self == EditorMode::SelectNotePosition || self == EditorMode::EditNotePosition
    }

    /// Whether this mode picks a note position.
    pub fn is_selecting_note_position(&self) -> (r: bool)
        ensures
            r == self.spec_is_selecting_note_position(),
    {
        match self {
            EditorMode::SelectNotePosition | EditorMode::EditNotePosition => true,
            _ => false,
        }
    }
}

/// Where a committed insertion places the new event.
#[derive(Clone, Copy, PartialEq, Eq, Structural, Debug)]
pub enum InsertPos {
    /// Append after the last event.
    AtEnd,
    /// Insert before the first event.
    AtStart,
    /// Insert immediately after the event at this index.
    After(usize),
}

impl Default for InsertPos {
    fn default() -> (r: Self)
        ensures
            r == InsertPos::AtEnd,
    {
        InsertPos::AtEnd
    }
}

/// A transient message shown in the status bar, stamped with the time it was
/// created (in milliseconds of the caller's clock).
#[derive(Clone, Debug)]
pub struct StatusMessage {
    pub text: String,
    pub created_at_ms: u64,
}

/// The mathematical value of a [`StatusMessage`].
#[verifier::ext_equal]
pub struct StatusMessageView {
    pub text: Seq<char>,
    pub created_at_ms: u64,
}

impl View for StatusMessage {
    type V = StatusMessageView;

    open spec fn view(&self) -> StatusMessageView {
        StatusMessageView { text: self.text@, created_at_ms: self.created_at_ms }
    }
}

/// How long a status message stays visible, in milliseconds.
pub const STATUS_VISIBLE_MS: u64 = 1000;

/// All editor-side state: the mode, the text buffer, the indices collected by
/// the pending operation, and the current selection.
#[derive(Clone, Debug)]
pub struct EditorState {
    pub mode: EditorMode,
    pub input_buffer: String,
    pub selected_index: usize,
    pub message_from: Option<usize>,
    pub message_to: Option<usize>,
    pub status_message: Option<StatusMessage>,
    pub selection: Selection,
    pub editing_event_index: Option<usize>,
    pub last_participant_index: Option<usize>,
    pub note_position: NotePosition,
    pub note_participant_start: Option<usize>,
    pub note_participant_end: Option<usize>,
    pub insert_pos: InsertPos,
}

/// The mathematical value of an [`EditorState`].
#[verifier::ext_equal]
pub struct EditorStateView {
    pub mode: EditorMode,
    pub input_buffer: Seq<char>,
    pub selected_index: usize,
    pub message_from: Option<usize>,
    pub message_to: Option<usize>,
    pub status_message: Option<StatusMessageView>,
    pub selection: Selection,
    pub editing_event_index: Option<usize>,
    pub last_participant_index: Option<usize>,
    pub note_position: NotePosition,
    pub note_participant_start: Option<usize>,
    pub note_participant_end: Option<usize>,
    pub insert_pos: InsertPos,
}

impl View for EditorState {
    type V = EditorStateView;

    open spec fn view(&self) -> EditorStateView {
        EditorStateView {
            mode: self.mode,
            input_buffer: self.input_buffer@,
            selected_index: self.selected_index,
            message_from: self.message_from,
            message_to: self.message_to,
            status_message: match self.status_message {
                Some(s) => Some(s@),
                None => None,
            },
            selection: self.selection,
            editing_event_index: self.editing_event_index,
            last_participant_index: self.last_participant_index,
            note_position: self.note_position,
            note_participant_start: self.note_participant_start,
            note_participant_end: self.note_participant_end,
            insert_pos: self.insert_pos,
        }
    }
}

impl EditorStateView {
    /// The state a fresh editor starts in.
    pub open spec fn initial() -> EditorStateView {
        EditorStateView {
            mode: EditorMode::Normal,
            input_buffer: Seq::empty(),
            selected_index: 0,
            message_from: None,
            message_to: None,
            status_message: None,
            selection: Selection::Empty,
            editing_event_index: None,
            last_participant_index: None,
            note_position: NotePosition::Right,
            note_participant_start: None,
            note_participant_end: None,
            insert_pos: InsertPos::AtEnd,
        }
    }

    /// This state after a cancel: everything pending is discarded, while the
    /// selection and the remembered participant row position survive.
    pub open spec fn after_reset(self) -> EditorStateView {
        EditorStateView {
            selection: self.selection,
            last_participant_index: self.last_participant_index,
            ..Self::initial()
        }
    }
}

impl Default for EditorState {
    fn default() -> (r: Self)
        ensures
            r@ =~= EditorStateView::initial(),
    {
        EditorState::new()
    }
}

impl EditorState {
    /// A fresh editor in `Normal` mode with nothing pending.
    pub fn new() -> (r: Self)
        ensures
            r@ =~= EditorStateView::initial(),
    {
        EditorState {
            mode: EditorMode::Normal,
            input_buffer: String::new(),
            selected_index: 0,
            message_from: None,
            message_to: None,
            status_message: None,
            selection: Selection::Empty,
            editing_event_index: None,
            last_participant_index: None,
            note_position: NotePosition::Right,
            note_participant_start: None,
            note_participant_end: None,
            insert_pos: InsertPos::AtEnd,
        }
    }

    /// Cancels whatever operation is pending and returns to `Normal` mode,
    /// keeping the selection and the remembered participant row position.
    pub fn reset(&mut self)
        ensures
            final(self)@ =~= old(self)@.after_reset(),
    {
        self.mode = EditorMode::Normal;
        self.input_buffer = String::new();
        self.selected_index = 0;
        self.message_from = None;
        self.message_to = None;
        self.status_message = None;
        self.editing_event_index = None;
        self.note_position = NotePosition::Right;
        self.note_participant_start = None;
        self.note_participant_end = None;
        self.insert_pos = InsertPos::AtEnd;
    }

    /// Stamps `msg` as the transient status message at time `now_ms`.
    pub fn set_status(&mut self, msg: String, now_ms: u64)
        ensures
            final(self)@ =~= (EditorStateView {
                status_message: Some(StatusMessageView { text: msg@, created_at_ms: now_ms }),
                ..old(self)@
            }),
    {
        self.status_message = Some(StatusMessage { text: msg, created_at_ms: now_ms });
    }

    /// Drops any status message.
    pub fn clear_status(&mut self)
        ensures
            final(self)@ =~= (EditorStateView { status_message: None, ..old(self)@ }),
    {
        self.status_message = None;
    }

    /// The status text, as long as it is still fresh at time `now_ms`.
    pub fn get_status(&self, now_ms: u64) -> (r: Option<&str>)
        ensures
            match self@.status_message {
                Some(s) => if s.created_at_ms <= now_ms < s.created_at_ms + STATUS_VISIBLE_MS {
                    r matches Some(t) && t@ == s.text
                } else {
                    r is None
                },
                None => r is None,
            },
    {
        match &self.status_message {
            Some(s) => {
                if now_ms >= s.created_at_ms && now_ms - s.created_at_ms < STATUS_VISIBLE_MS {
                    Some(s.text.as_str())
                } else {
                    None
                }
            },
            None => None,
        }
    }

    /// Deselects everything.
    pub fn clear_selection(&mut self)
        ensures
            final(self)@ =~= (EditorStateView { selection: Selection::Empty, ..old(self)@ }),
    {
        self.selection = Selection::Empty;
    }

    /// Selects the participant at `index`.
    pub fn select_participant(&mut self, index: usize)
        ensures
            final(self)@ =~= (EditorStateView {
                selection: Selection::Participant(index),
                ..old(self)@
            }),
    {
        self.selection = Selection::Participant(index);
    }

    /// Selects the event at `index`.
    pub fn select_event(&mut self, index: usize)
        ensures
            final(self)@ =~= (EditorStateView { selection: Selection::Event(index), ..old(self)@ }),
    {
        self.selection = Selection::Event(index);
    }

    /// The selected participant index, if a participant is selected.
    pub fn selected_participant(&self) -> (r: Option<usize>)
        ensures
            r == (match self@.selection {
                Selection::Participant(i) => Some(i),
                _ => None::<usize>,
            }),
    {
        match self.selection {
            Selection::Participant(i) => Some(i),
            _ => None,
        }
    }

    /// The selected event index, if an event is selected.
    pub fn selected_event(&self) -> (r: Option<usize>)
        ensures
            r == (match self@.selection {
                Selection::Event(i) => Some(i),
                _ => None::<usize>,
            }),
    {
        match self.selection {
            Selection::Event(i) => Some(i),
            _ => None,
        }
    }
}

} // verus!
