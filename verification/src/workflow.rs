//! The editor workflow: a state machine that dispatches one key at a time,
//! walking multi-step operations (insert message, insert note, edit, rename,
//! clear) and committing into the diagram store at each final step.

use vstd::prelude::*;

use crate::diagram::SequenceDiagram;
use crate::editor::{EditorMode, EditorState, EditorStateView, InsertPos};
use crate::model::{DiagramView, Event, EventView, NotePosition};
use crate::selection::Selection;
use crate::text::{trim_copy, trimmed};

verus! {

/// One key press, reduced to what the workflow distinguishes.
#[derive(Clone, Copy, PartialEq, Eq, Structural, Debug)]
pub enum KeyInput {
    Char(char),
    Ctrl(char),
    Enter,
    Esc,
    Backspace,
    Up,
    Down,
    Left,
    Right,
}

/// What the caller must do after a step; the workflow itself performs no
/// input or output.
#[derive(Clone, Copy, PartialEq, Eq, Structural, Debug)]
pub enum Effect {
    /// Nothing beyond redrawing.
    Nothing,
    /// Leave the interactive loop.
    Quit,
    /// Write the serialized diagram out.
    Export,
}

/// The combined state a step produces.
#[verifier::ext_equal]
pub struct StepView {
    pub diagram: DiagramView,
    pub editor: EditorStateView,
    pub effect: Effect,
}

/// `i.min(j)` on indices.
pub open spec fn min_index(i: usize, j: usize) -> usize {
    if i <= j {
        i
    } else {
        j
    }
}

/// Where a fresh insertion goes, from the current selection: right after the
/// selected event, or appended.
pub open spec fn insert_pos_after(sel: Selection) -> InsertPos {
    match sel {
        Selection::Event(idx) => InsertPos::After(idx),
        _ => InsertPos::AtEnd,
    }
}

/// Where a fresh insertion goes when inserting before the selected event.
pub open spec fn insert_pos_before(sel: Selection) -> InsertPos {
    match sel {
        Selection::Event(idx) => if idx > 0 {
            InsertPos::After((idx - 1) as usize)
        } else {
            InsertPos::AtStart
        },
        _ => InsertPos::AtEnd,
    }
}

/// One wrap-around step through the participant list during selection.
pub open spec fn nav_step(si: usize, pc: usize, forward: bool) -> usize {
    if pc == 0 {
        si
    } else if forward {
        if si + 1 >= pc {
            0
        } else {
            (si + 1) as usize
        }
    } else {
        if si == 0 {
            (pc - 1) as usize
        } else {
            (si - 1) as usize
        }
    }
}

impl EditorStateView {
    /// Begins the insert-message flow.
    pub open spec fn start_message(self, pos: InsertPos) -> EditorStateView {
        EditorStateView {
            mode: EditorMode::SelectFrom,
            selected_index: 0,
            message_from: None,
            message_to: None,
            insert_pos: pos,
            ..self
        }
    }

    /// Begins the insert-note flow.
    pub open spec fn start_note(self, pos: InsertPos) -> EditorStateView {
        EditorStateView {
            mode: EditorMode::SelectNoteParticipant,
            selected_index: 0,
            note_position: NotePosition::Right,
            note_participant_start: None,
            note_participant_end: None,
            insert_pos: pos,
            ..self
        }
    }
}

/// The transition for one key in `Normal` or `Help` mode.
pub open spec fn spec_global_step(d: DiagramView, e: EditorStateView, key: KeyInput) -> StepView {
    let pc = d.participants.len() as usize;
    let ec = d.events.len() as usize;
    let keep = StepView { diagram: d, editor: e, effect: Effect::Nothing };
    match key {
        KeyInput::Ctrl(c) => if c == 'c' {
            StepView { diagram: d, editor: e, effect: Effect::Quit }
        } else {
            keep
        },
        KeyInput::Char(c) => if e.mode != EditorMode::Normal {
            if c == '?' && e.mode == EditorMode::Help {
                StepView {
                    diagram: d,
                    editor: EditorStateView { mode: EditorMode::Normal, ..e },
                    effect: Effect::Nothing,
                }
            } else {
                keep
            }
        } else if c == 'p' {
            StepView {
                diagram: d,
                editor: EditorStateView {
                    mode: EditorMode::InputParticipant,
                    input_buffer: Seq::empty(),
                    ..e
                },
                effect: Effect::Nothing,
            }
        } else if c == 'm' {
            if d.participants.len() >= 2 {
                StepView {
                    diagram: d,
                    editor: e.start_message(insert_pos_after(e.selection)),
                    effect: Effect::Nothing,
                }
            } else {
                keep
            }
        } else if c == 'M' {
            if d.participants.len() >= 2 {
                StepView {
                    diagram: d,
                    editor: e.start_message(insert_pos_before(e.selection)),
                    effect: Effect::Nothing,
                }
            } else {
                keep
            }
        } else if c == 'n' {
            if d.participants.len() >= 1 {
                StepView {
                    diagram: d,
                    editor: e.start_note(insert_pos_after(e.selection)),
                    effect: Effect::Nothing,
                }
            } else {
                keep
            }
        } else if c == 'N' {
            if d.participants.len() >= 1 {
                StepView {
                    diagram: d,
                    editor: e.start_note(insert_pos_before(e.selection)),
                    effect: Effect::Nothing,
                }
            } else {
                keep
            }
        } else if c == 'd' {
            spec_delete_step(d, e)
        } else if c == 'l' {
            StepView {
                diagram: d,
                editor: EditorStateView { selection: e.selection.spec_right(pc), ..e },
                effect: Effect::Nothing,
            }
        } else if c == 'h' {
            StepView {
                diagram: d,
                editor: EditorStateView { selection: e.selection.spec_left(pc), ..e },
                effect: Effect::Nothing,
            }
        } else if c == 'j' {
            spec_move_down_step(d, e)
        } else if c == 'k' {
            spec_move_up_step(d, e)
        } else if c == 'H' {
            spec_move_left_step(d, e)
        } else if c == 'L' {
            spec_move_right_step(d, e)
        } else if c == 'J' {
            match e.selection {
                Selection::Event(idx) => if idx + 1 < ec {
                    StepView {
                        diagram: d.after_swap_events(idx, (idx + 1) as usize),
                        editor: EditorStateView {
                            selection: Selection::Event((idx + 1) as usize),
                            ..e
                        },
                        effect: Effect::Nothing,
                    }
                } else {
                    keep
                },
                _ => keep,
            }
        } else if c == 'K' {
            match e.selection {
                Selection::Event(idx) => if idx > 0 {
                    StepView {
                        diagram: d.after_swap_events(idx, (idx - 1) as usize),
                        editor: EditorStateView {
                            selection: Selection::Event((idx - 1) as usize),
                            ..e
                        },
                        effect: Effect::Nothing,
                    }
                } else {
                    keep
                },
                _ => keep,
            }
        } else if c == 'C' {
            if d.participants.len() > 0 || d.events.len() > 0 {
                StepView {
                    diagram: d,
                    editor: EditorStateView { mode: EditorMode::ConfirmClear, ..e },
                    effect: Effect::Nothing,
                }
            } else {
                keep
            }
        } else if c == 'E' {
            StepView { diagram: d, editor: e, effect: Effect::Export }
        } else if c == '?' {
            StepView {
                diagram: d,
                editor: EditorStateView { mode: EditorMode::Help, ..e },
                effect: Effect::Nothing,
            }
        } else if c == 'r' {
            spec_rename_step(d, e)
        } else {
            keep
        },
        KeyInput::Right => if e.mode == EditorMode::Normal {
            StepView {
                diagram: d,
                editor: EditorStateView { selection: e.selection.spec_right(pc), ..e },
                effect: Effect::Nothing,
            }
        } else {
            keep
        },
        KeyInput::Left => if e.mode == EditorMode::Normal {
            StepView {
                diagram: d,
                editor: EditorStateView { selection: e.selection.spec_left(pc), ..e },
                effect: Effect::Nothing,
            }
        } else {
            keep
        },
        KeyInput::Down => if e.mode == EditorMode::Normal {
            spec_move_down_step(d, e)
        } else {
            keep
        },
        KeyInput::Up => if e.mode == EditorMode::Normal {
            spec_move_up_step(d, e)
        } else {
            keep
        },
        KeyInput::Esc => if e.mode == EditorMode::Normal {
            StepView {
                diagram: d,
                editor: EditorStateView { selection: Selection::Empty, ..e },
                effect: Effect::Nothing,
            }
        } else {
            StepView { diagram: d, editor: e.after_reset(), effect: Effect::Nothing }
        },
        KeyInput::Enter => if e.mode == EditorMode::Normal {
            spec_edit_step(d, e)
        } else {
            keep
        },
        KeyInput::Backspace => keep,
    }
}

/// Deleting the current selection: the selection is clamped to the shrunken
/// list, or cleared when the list empties; with nothing selected the last
/// event goes.
pub open spec fn spec_delete_step(d: DiagramView, e: EditorStateView) -> StepView {
    match e.selection {
        Selection::Participant(idx) => {
            let d2 = d.after_remove_participant(idx);
            let nc = d2.participants.len() as usize;
            let sel = if nc == 0 {
                Selection::Empty
            } else {
                Selection::Participant(min_index(idx, (nc - 1) as usize))
            };
            StepView {
                diagram: d2,
                editor: EditorStateView { selection: sel, ..e },
                effect: Effect::Nothing,
            }
        },
        Selection::Event(idx) => {
            let d2 = d.after_remove_event(idx);
            let nc = d2.events.len() as usize;
            let sel = if nc == 0 {
                Selection::Empty
            } else {
                Selection::Event(min_index(idx, (nc - 1) as usize))
            };
            StepView {
                diagram: d2,
                editor: EditorStateView { selection: sel, ..e },
                effect: Effect::Nothing,
            }
        },
        Selection::Empty => StepView {
            diagram: d.after_pop_event(),
            editor: e,
            effect: Effect::Nothing,
        },
    }
}

/// Moving down remembers which participant column was active, so moving back
/// up can restore it.
pub open spec fn spec_move_down_step(d: DiagramView, e: EditorStateView) -> StepView {
    let pc = d.participants.len() as usize;
    let ec = d.events.len() as usize;
    let last = match e.selection {
        Selection::Participant(idx) => Some(idx),
        _ => e.last_participant_index,
    };
    StepView {
        diagram: d,
        editor: EditorStateView {
            selection: e.selection.spec_down(pc, ec),
            last_participant_index: last,
            ..e
        },
        effect: Effect::Nothing,
    }
}

/// Moving up from the first event restores the remembered participant.
pub open spec fn spec_move_up_step(d: DiagramView, e: EditorStateView) -> StepView {
    let pc = d.participants.len() as usize;
    let sel = if e.selection == Selection::Event(0) && (match e.last_participant_index {
        Some(idx) => idx < pc,
        None => false,
    }) {
        Selection::Participant(e.last_participant_index->0)
    } else {
        e.selection.spec_up(pc)
    };
    StepView {
        diagram: d,
        editor: EditorStateView { selection: sel, ..e },
        effect: Effect::Nothing,
    }
}

/// Moving a participant left keeps it selected; on an event the arrow is
/// pointed left instead.
pub open spec fn spec_move_left_step(d: DiagramView, e: EditorStateView) -> StepView {
    match e.selection {
        Selection::Participant(idx) => if idx > 0 {
            StepView {
                diagram: d.after_swap_participants(idx, (idx - 1) as usize),
                editor: EditorStateView {
                    selection: Selection::Participant((idx - 1) as usize),
                    ..e
                },
                effect: Effect::Nothing,
            }
        } else {
            StepView { diagram: d, editor: e, effect: Effect::Nothing }
        },
        Selection::Event(idx) => StepView {
            diagram: d.after_point_left(idx),
            editor: e,
            effect: Effect::Nothing,
        },
        Selection::Empty => StepView { diagram: d, editor: e, effect: Effect::Nothing },
    }
}

/// Moving a participant right keeps it selected; on an event the arrow is
/// pointed right instead.
pub open spec fn spec_move_right_step(d: DiagramView, e: EditorStateView) -> StepView {
    match e.selection {
        Selection::Participant(idx) => if idx + 1 < d.participants.len() {
            StepView {
                diagram: d.after_swap_participants(idx, (idx + 1) as usize),
                editor: EditorStateView {
                    selection: Selection::Participant((idx + 1) as usize),
                    ..e
                },
                effect: Effect::Nothing,
            }
        } else {
            StepView { diagram: d, editor: e, effect: Effect::Nothing }
        },
        Selection::Event(idx) => StepView {
            diagram: d.after_point_right(idx),
            editor: e,
            effect: Effect::Nothing,
        },
        Selection::Empty => StepView { diagram: d, editor: e, effect: Effect::Nothing },
    }
}

/// Opening the edit flow on the current selection, pre-filling the editor
/// from the selected event or participant.
pub open spec fn spec_edit_step(d: DiagramView, e: EditorStateView) -> StepView {
    let keep = StepView { diagram: d, editor: e, effect: Effect::Nothing };
    match e.selection {
        Selection::Event(idx) => if idx < d.events.len() {
            match d.events[idx as int] {
                EventView::Message { from, to, text } => StepView {
                    diagram: d,
                    editor: EditorStateView {
                        editing_event_index: Some(idx),
                        message_from: Some(from),
                        message_to: Some(to),
                        input_buffer: text,
                        selected_index: from,
                        mode: EditorMode::EditSelectFrom,
                        ..e
                    },
                    effect: Effect::Nothing,
                },
                EventView::Note { position, participant_start, participant_end, text } => StepView {
                    diagram: d,
                    editor: EditorStateView {
                        editing_event_index: Some(idx),
                        note_position: position,
                        note_participant_start: Some(participant_start),
                        note_participant_end: Some(participant_end),
                        input_buffer: text,
                        selected_index: participant_start,
                        mode: EditorMode::EditNoteParticipant,
                        ..e
                    },
                    effect: Effect::Nothing,
                },
            }
        } else {
            keep
        },
        Selection::Participant(idx) => if idx < d.participants.len() {
            StepView {
                diagram: d,
                editor: EditorStateView {
                    selected_index: idx,
                    input_buffer: d.participants[idx as int],
                    mode: EditorMode::RenameParticipant,
                    ..e
                },
                effect: Effect::Nothing,
            }
        } else {
            keep
        },
        Selection::Empty => keep,
    }
}

/// Opening the rename/retext flow on the current selection: an event's text
/// is edited directly, a participant's name is renamed.
pub open spec fn spec_rename_step(d: DiagramView, e: EditorStateView) -> StepView {
    let keep = StepView { diagram: d, editor: e, effect: Effect::Nothing };
    match e.selection {
        Selection::Event(idx) => if idx < d.events.len() {
            match d.events[idx as int] {
                EventView::Message { from, to, text } => StepView {
                    diagram: d,
                    editor: EditorStateView {
                        editing_event_index: Some(idx),
                        message_from: Some(from),
                        message_to: Some(to),
                        input_buffer: text,
                        mode: EditorMode::EditMessage,
                        ..e
                    },
                    effect: Effect::Nothing,
                },
                EventView::Note { position, participant_start, participant_end, text } => StepView {
                    diagram: d,
                    editor: EditorStateView {
                        editing_event_index: Some(idx),
                        note_position: position,
                        note_participant_start: Some(participant_start),
                        note_participant_end: Some(participant_end),
                        input_buffer: text,
                        mode: EditorMode::EditNoteText,
                        ..e
                    },
                    effect: Effect::Nothing,
                },
            }
        } else {
            keep
        },
        Selection::Participant(idx) => if idx < d.participants.len() {
            StepView {
                diagram: d,
                editor: EditorStateView {
                    selected_index: idx,
                    input_buffer: d.participants[idx as int],
                    mode: EditorMode::RenameParticipant,
                    ..e
                },
                effect: Effect::Nothing,
            }
        } else {
            keep
        },
        Selection::Empty => keep,
    }
}

/// The transition for one key while the clear-confirmation dialog is open.
pub open spec fn spec_confirm_step(d: DiagramView, e: EditorStateView, key: KeyInput) -> StepView {
    match key {
        KeyInput::Char(c) => if c == 'y' {
            StepView {
                diagram: DiagramView::empty(),
                editor: e.after_reset(),
                effect: Effect::Nothing,
            }
        } else if c == 'n' {
            StepView { diagram: d, editor: e.after_reset(), effect: Effect::Nothing }
        } else {
            StepView { diagram: d, editor: e, effect: Effect::Nothing }
        },
        KeyInput::Esc => StepView { diagram: d, editor: e.after_reset(), effect: Effect::Nothing },
        _ => StepView { diagram: d, editor: e, effect: Effect::Nothing },
    }
}

/// Where the event committed under `pos` ends up in a list of `len` events.
pub open spec fn committed_index(pos: InsertPos, len: nat) -> usize {
    match pos {
        InsertPos::AtStart => 0,
        InsertPos::After(ai) => crate::diagram::insertion_point(ai, len) as usize,
        InsertPos::AtEnd => len as usize,
    }
}

/// Committing the pending message: valid indices and a nonempty trimmed text
/// insert the event at the chosen place and select it; anything else commits
/// nothing. Either way the workflow returns to `Normal`.
pub open spec fn spec_commit_message(d: DiagramView, e: EditorStateView) -> StepView {
    let text = trimmed(e.input_buffer);
    if text.len() > 0 && (e.message_from is Some) && (e.message_to is Some)
        && e.message_from->0 < d.participants.len() && e.message_to->0 < d.participants.len() {
        let from = e.message_from->0;
        let to = e.message_to->0;
        let d2 = match e.insert_pos {
            InsertPos::AtStart => d.after_prepend_message(from, to, text),
            InsertPos::After(ai) => d.after_insert_message(ai, from, to, text),
            InsertPos::AtEnd => d.after_add_message(from, to, text),
        };
        let sel = Selection::Event(committed_index(e.insert_pos, d.events.len()));
        StepView {
            diagram: d2,
            editor: EditorStateView { selection: sel, ..e }.after_reset(),
            effect: Effect::Nothing,
        }
    } else {
        StepView { diagram: d, editor: e.after_reset(), effect: Effect::Nothing }
    }
}

/// Committing the pending note, as [`spec_commit_message`] does for messages.
pub open spec fn spec_commit_note(d: DiagramView, e: EditorStateView) -> StepView {
    let text = trimmed(e.input_buffer);
    if text.len() > 0 && (e.note_participant_start is Some) && (e.note_participant_end is Some)
        && e.note_participant_start->0 < d.participants.len() && e.note_participant_end->0
        < d.participants.len() {
        let ps = e.note_participant_start->0;
        let pe = e.note_participant_end->0;
        let d2 = match e.insert_pos {
            InsertPos::AtStart => d.after_prepend_note(e.note_position, ps, pe, text),
            InsertPos::After(ai) => d.after_insert_note(ai, e.note_position, ps, pe, text),
            InsertPos::AtEnd => d.after_add_note(e.note_position, ps, pe, text),
        };
        let sel = Selection::Event(committed_index(e.insert_pos, d.events.len()));
        StepView {
            diagram: d2,
            editor: EditorStateView { selection: sel, ..e }.after_reset(),
            effect: Effect::Nothing,
        }
    } else {
        StepView { diagram: d, editor: e.after_reset(), effect: Effect::Nothing }
    }
}

/// Confirming the current input step: advances one step of the pending
/// operation, or commits it into the diagram at the final step.
pub open spec fn spec_confirm_input(d: DiagramView, e: EditorStateView) -> StepView {
    let keep = StepView { diagram: d, editor: e, effect: Effect::Nothing };
    let si = e.selected_index;
    match e.mode {
        EditorMode::InputParticipant => {
            let name = trimmed(e.input_buffer);
            let d2 = if name.len() > 0 {
                d.after_add_participant(name)
            } else {
                d
            };
            StepView { diagram: d2, editor: e.after_reset(), effect: Effect::Nothing }
        },
        EditorMode::SelectFrom => StepView {
            diagram: d,
            editor: EditorStateView {
                message_from: Some(si),
                mode: EditorMode::SelectTo,
                ..e
            },
            effect: Effect::Nothing,
        },
        EditorMode::SelectTo => StepView {
            diagram: d,
            editor: EditorStateView {
                message_to: Some(si),
                mode: EditorMode::InputMessage,
                input_buffer: Seq::empty(),
                ..e
            },
            effect: Effect::Nothing,
        },
        EditorMode::InputMessage => spec_commit_message(d, e),
        EditorMode::EditMessage => spec_save_message(d, e),
        EditorMode::EditSelectFrom => StepView {
            diagram: d,
            editor: EditorStateView {
                message_from: Some(si),
                mode: EditorMode::EditSelectTo,
                selected_index: match e.message_to {
                    Some(t) => t,
                    None => si,
                },
                ..e
            },
            effect: Effect::Nothing,
        },
        EditorMode::EditSelectTo => StepView {
            diagram: d,
            editor: EditorStateView {
                message_to: Some(si),
                mode: EditorMode::EditMessage,
                ..e
            },
            effect: Effect::Nothing,
        },
        EditorMode::RenameParticipant => {
            let name = trimmed(e.input_buffer);
            let d2 = if name.len() > 0 {
                d.after_rename_participant(si, name)
            } else {
                d
            };
            StepView { diagram: d2, editor: e.after_reset(), effect: Effect::Nothing }
        },
        EditorMode::SelectNoteParticipant => StepView {
            diagram: d,
            editor: EditorStateView {
                note_participant_start: Some(si),
                mode: EditorMode::SelectNotePosition,
                ..e
            },
            effect: Effect::Nothing,
        },
        EditorMode::SelectNotePosition => if e.note_position == NotePosition::Over {
            StepView {
                diagram: d,
                editor: EditorStateView {
                    mode: EditorMode::SelectNoteEndParticipant,
                    selected_index: match e.note_participant_start {
                        Some(s) => s,
                        None => 0,
                    },
                    ..e
                },
                effect: Effect::Nothing,
            }
        } else {
            StepView {
                diagram: d,
                editor: EditorStateView {
                    note_participant_end: e.note_participant_start,
                    mode: EditorMode::InputNoteText,
                    input_buffer: Seq::empty(),
                    ..e
                },
                effect: Effect::Nothing,
            }
        },
        EditorMode::SelectNoteEndParticipant => StepView {
            diagram: d,
            editor: EditorStateView {
                note_participant_end: Some(si),
                mode: EditorMode::InputNoteText,
                input_buffer: Seq::empty(),
                ..e
            },
            effect: Effect::Nothing,
        },
        EditorMode::InputNoteText => spec_commit_note(d, e),
        EditorMode::EditNoteParticipant => StepView {
            diagram: d,
            editor: EditorStateView {
                note_participant_start: Some(si),
                mode: EditorMode::EditNotePosition,
                ..e
            },
            effect: Effect::Nothing,
        },
        EditorMode::EditNotePosition => if e.note_position == NotePosition::Over {
            StepView {
                diagram: d,
                editor: EditorStateView {
                    mode: EditorMode::EditNoteEndParticipant,
                    selected_index: match e.note_participant_end {
                        Some(t) => t,
                        None => 0,
                    },
                    ..e
                },
                effect: Effect::Nothing,
            }
        } else {
            StepView {
                diagram: d,
                editor: EditorStateView {
                    note_participant_end: e.note_participant_start,
                    mode: EditorMode::EditNoteText,
                    ..e
                },
                effect: Effect::Nothing,
            }
        },
        EditorMode::EditNoteEndParticipant => StepView {
            diagram: d,
            editor: EditorStateView {
                note_participant_end: Some(si),
                mode: EditorMode::EditNoteText,
                ..e
            },
            effect: Effect::Nothing,
        },
        EditorMode::EditNoteText => spec_save_note(d, e),
        _ => keep,
    }
}

/// Saving an edited message overwrites the event in place when everything
/// pending is present and valid; the workflow then returns to `Normal`.
pub open spec fn spec_save_message(d: DiagramView, e: EditorStateView) -> StepView {
    let text = trimmed(e.input_buffer);
    let d2 = if text.len() > 0 && (e.editing_event_index is Some) && (e.message_from is Some) && (
    e.message_to is Some) {
        d.after_update_message(e.editing_event_index->0, e.message_from->0, e.message_to->0, text)
    } else {
        d
    };
    StepView { diagram: d2, editor: e.after_reset(), effect: Effect::Nothing }
}

/// Saving an edited note overwrites the event in place when everything
/// pending is present and valid; the workflow then returns to `Normal`.
pub open spec fn spec_save_note(d: DiagramView, e: EditorStateView) -> StepView {
    let text = trimmed(e.input_buffer);
    let d2 = if text.len() > 0 && (e.editing_event_index is Some) && (e.note_participant_start
        is Some) && (e.note_participant_end is Some) {
        d.after_update_note(
            e.editing_event_index->0,
            e.note_position,
            e.note_participant_start->0,
            e.note_participant_end->0,
            text,
        )
    } else {
        d
    };
    StepView { diagram: d2, editor: e.after_reset(), effect: Effect::Nothing }
}

/// The transition for one key while an input step is active.
pub open spec fn spec_input_step(d: DiagramView, e: EditorStateView, key: KeyInput) -> StepView {
    let keep = StepView { diagram: d, editor: e, effect: Effect::Nothing };
    let pc = d.participants.len() as usize;
    match key {
        KeyInput::Enter => spec_confirm_input(d, e),
        KeyInput::Esc => StepView {
            diagram: d,
            editor: e.after_reset(),
            effect: Effect::Nothing,
        },
        KeyInput::Backspace => if e.mode.spec_is_text_input() {
            StepView {
                diagram: d,
                editor: EditorStateView {
                    input_buffer: if e.input_buffer.len() > 0 {
                        e.input_buffer.drop_last()
                    } else {
                        e.input_buffer
                    },
                    ..e
                },
                effect: Effect::Nothing,
            }
        } else {
            keep
        },
        KeyInput::Up => spec_selector_move(d, e, false),
        KeyInput::Down => spec_selector_move(d, e, true),
        KeyInput::Left => spec_selector_move(d, e, false),
        KeyInput::Right => spec_selector_move(d, e, true),
        KeyInput::Char(c) => if c == 'k' || c == 'j' || c == 'h' || c == 'l' {
            let forward = c == 'j' || c == 'l';
            if e.mode.spec_is_selecting_participant() {
                spec_selector_nav(d, e, forward)
            } else if e.mode.spec_is_selecting_note_position() {
                spec_position_move(d, e, forward)
            } else if e.mode.spec_is_text_input() {
                StepView {
                    diagram: d,
                    editor: EditorStateView { input_buffer: e.input_buffer.push(c), ..e },
                    effect: Effect::Nothing,
                }
            } else {
                keep
            }
        } else if '1' <= c <= '9' {
            if e.mode.spec_is_selecting_participant() {
                let num = (c as u32 - '0' as u32) as usize;
                if 1 <= num <= pc {
                    StepView {
                        diagram: d,
                        editor: EditorStateView { selected_index: (num - 1) as usize, ..e },
                        effect: Effect::Nothing,
                    }
                } else {
                    keep
                }
            } else if e.mode.spec_is_text_input() {
                StepView {
                    diagram: d,
                    editor: EditorStateView { input_buffer: e.input_buffer.push(c), ..e },
                    effect: Effect::Nothing,
                }
            } else {
                keep
            }
        } else if e.mode.spec_is_text_input() {
            StepView {
                diagram: d,
                editor: EditorStateView { input_buffer: e.input_buffer.push(c), ..e },
                effect: Effect::Nothing,
            }
        } else {
            keep
        },
        _ => keep,
    }
}

/// An arrow key during an input step: cycles the note position, or steps
/// through the participant selector.
pub open spec fn spec_selector_move(d: DiagramView, e: EditorStateView, forward: bool) -> StepView {
    if e.mode.spec_is_selecting_note_position() {
        spec_position_move(d, e, forward)
    } else {
        spec_selector_nav(d, e, forward)
    }
}

/// Cycling the note position selector.
pub open spec fn spec_position_move(d: DiagramView, e: EditorStateView, forward: bool) -> StepView {
    StepView {
        diagram: d,
        editor: EditorStateView {
            note_position: if forward {
                e.note_position.spec_next()
            } else {
                e.note_position.spec_prev()
            },
            ..e
        },
        effect: Effect::Nothing,
    }
}

/// Stepping the participant selector with wrap-around.
pub open spec fn spec_selector_nav(d: DiagramView, e: EditorStateView, forward: bool) -> StepView {
    if e.mode.spec_is_selecting_participant() && d.participants.len() > 0 {
        StepView {
            diagram: d,
            editor: EditorStateView {
                selected_index: nav_step(
                    e.selected_index,
                    d.participants.len() as usize,
                    forward,
                ),
                ..e
            },
            effect: Effect::Nothing,
        }
    } else {
        StepView { diagram: d, editor: e, effect: Effect::Nothing }
    }
}

/// The transition for one key, whatever the mode.
pub open spec fn spec_step(d: DiagramView, e: EditorStateView, key: KeyInput) -> StepView {
    if e.mode == EditorMode::Normal || e.mode == EditorMode::Help {
        spec_global_step(d, e, key)
    } else if e.mode == EditorMode::ConfirmClear {
        spec_confirm_step(d, e, key)
    } else {
        spec_input_step(d, e, key)
    }
}

/// Relies on String::push: appends the given character to the end of the
/// string.
#[verifier::external_body]
fn push_char(s: &mut String, c: char)
    ensures
        final(s)@ == old(s)@.push(c),
{
    s.push(c);
}

/// Removes the last character of the buffer, if any.
fn pop_char(s: &mut String)
    ensures
        final(s)@ =~= (if old(s)@.len() > 0 {
            old(s)@.drop_last()
        } else {
            old(s)@
        }),
{
    let n = s.as_str().unicode_len();
    if n > 0 {
        let shorter = s.as_str().substring_char(0, n - 1).to_owned();
        proof {
            assert(shorter@ =~= s@.drop_last());
        }
        *s = shorter;
    }
}

/// Handles one key press: reads and updates the editor state and the
/// diagram, and reports what input/output the caller must perform.
pub fn handle_key(diagram: &mut SequenceDiagram, editor: &mut EditorState, key: KeyInput) -> (r:
    Effect)
    ensures
        (StepView { diagram: final(diagram)@, editor: final(editor)@, effect: r }) =~= spec_step(
            old(diagram)@,
            old(editor)@,
            key,
        ),
        old(diagram)@.wf() ==> final(diagram)@.wf(),
{
    if editor.mode == EditorMode::Normal || editor.mode == EditorMode::Help {
        handle_global_key(diagram, editor, key)
    } else if editor.mode == EditorMode::ConfirmClear {
        handle_confirm_key(diagram, editor, key)
    } else {
        handle_input_key(diagram, editor, key)
    }
}

fn handle_global_key(diagram: &mut SequenceDiagram, editor: &mut EditorState, key: KeyInput) -> (r:
    Effect)
    requires
        old(editor)@.mode == EditorMode::Normal || old(editor)@.mode == EditorMode::Help,
    ensures
        (StepView { diagram: final(diagram)@, editor: final(editor)@, effect: r })
            =~= spec_global_step(old(diagram)@, old(editor)@, key),
        old(diagram)@.wf() ==> final(diagram)@.wf(),
{
    match key {
        KeyInput::Ctrl(c) => {
            if c == 'c' {
                return Effect::Quit;
            }
            Effect::Nothing
        },
        KeyInput::Char(c) => {
            if editor.mode != EditorMode::Normal {
                if c == '?' && editor.mode == EditorMode::Help {
                    editor.mode = EditorMode::Normal;
                }
                return Effect::Nothing;
            }
            if c == 'p' {
                editor.mode = EditorMode::InputParticipant;
                editor.input_buffer = String::new();
            } else if c == 'm' || c == 'M' {
                if diagram.participant_count() >= 2 {
                    let pos = if c == 'm' {
                        insert_after_selection(editor)
                    } else {
                        insert_before_selection(editor)
                    };
                    editor.mode = EditorMode::SelectFrom;
                    editor.selected_index = 0;
                    editor.message_from = None;
                    editor.message_to = None;
                    editor.insert_pos = pos;
                }
            } else if c == 'n' || c == 'N' {
                if diagram.participant_count() >= 1 {
                    let pos = if c == 'n' {
                        insert_after_selection(editor)
                    } else {
                        insert_before_selection(editor)
                    };
                    editor.mode = EditorMode::SelectNoteParticipant;
                    editor.selected_index = 0;
                    editor.note_position = NotePosition::Right;
                    editor.note_participant_start = None;
                    editor.note_participant_end = None;
                    editor.insert_pos = pos;
                }
            } else if c == 'd' {
                handle_delete(diagram, editor);
            } else if c == 'l' {
                let sel = editor.selection;
                editor.selection = sel.right(diagram.participant_count());
            } else if c == 'h' {
                let sel = editor.selection;
                editor.selection = sel.left(diagram.participant_count());
            } else if c == 'j' {
                handle_move_down(diagram, editor);
            } else if c == 'k' {
                handle_move_up(diagram, editor);
            } else if c == 'H' {
                handle_move_left(diagram, editor);
            } else if c == 'L' {
                handle_move_right(diagram, editor);
            } else if c == 'J' {
                let ec = diagram.event_count();
                match editor.selection {
                    Selection::Event(idx) => {
                        if idx < ec && idx + 1 < ec {
                            diagram.swap_events(idx, idx + 1);
                            editor.selection = Selection::Event(idx + 1);
                        }
                    },
                    _ => {},
                }
            } else if c == 'K' {
                match editor.selection {
                    Selection::Event(idx) => {
                        if idx > 0 {
                            diagram.swap_events(idx, idx - 1);
                            editor.selection = Selection::Event(idx - 1);
                        }
                    },
                    _ => {},
                }
            } else if c == 'C' {
                if diagram.participant_count() > 0 || diagram.event_count() > 0 {
                    editor.mode = EditorMode::ConfirmClear;
                }
            } else if c == 'E' {
                return Effect::Export;
            } else if c == '?' {
                editor.mode = EditorMode::Help;
            } else if c == 'r' {
                handle_rename_open(diagram, editor);
            }
            Effect::Nothing
        },
        KeyInput::Right => {
            if editor.mode == EditorMode::Normal {
                let sel = editor.selection;
                editor.selection = sel.right(diagram.participant_count());
            }
            Effect::Nothing
        },
        KeyInput::Left => {
            if editor.mode == EditorMode::Normal {
                let sel = editor.selection;
                editor.selection = sel.left(diagram.participant_count());
            }
            Effect::Nothing
        },
        KeyInput::Down => {
            if editor.mode == EditorMode::Normal {
                handle_move_down(diagram, editor);
            }
            Effect::Nothing
        },
        KeyInput::Up => {
            if editor.mode == EditorMode::Normal {
                handle_move_up(diagram, editor);
            }
            Effect::Nothing
        },
        KeyInput::Esc => {
            if editor.mode == EditorMode::Normal {
                editor.clear_selection();
            } else {
                editor.reset();
            }
            Effect::Nothing
        },
        KeyInput::Enter => {
            if editor.mode == EditorMode::Normal {
                handle_edit_open(diagram, editor);
            }
            Effect::Nothing
        },
        KeyInput::Backspace => Effect::Nothing,
    }
}

fn insert_after_selection(editor: &EditorState) -> (r: InsertPos)
    ensures
        r == insert_pos_after(editor@.selection),
{
    match editor.selection {
        Selection::Event(idx) => InsertPos::After(idx),
        _ => InsertPos::AtEnd,
    }
}

fn insert_before_selection(editor: &EditorState) -> (r: InsertPos)
    ensures
        r == insert_pos_before(editor@.selection),
{
    match editor.selection {
        Selection::Event(idx) => {
            if idx > 0 {
                InsertPos::After(idx - 1)
            } else {
                InsertPos::AtStart
            }
        },
        _ => InsertPos::AtEnd,
    }
}

fn handle_delete(diagram: &mut SequenceDiagram, editor: &mut EditorState)
    ensures
        (StepView {
            diagram: final(diagram)@,
            editor: final(editor)@,
            effect: Effect::Nothing,
        }) =~= spec_delete_step(old(diagram)@, old(editor)@),
        old(diagram)@.wf() ==> final(diagram)@.wf(),
{
    match editor.selection {
        Selection::Participant(idx) => {
            diagram.remove_participant(idx);
            let nc = diagram.participant_count();
            if nc == 0 {
                editor.clear_selection();
            } else {
                let clamped = if idx <= nc - 1 {
                    idx
                } else {
                    nc - 1
                };
                editor.selection = Selection::Participant(clamped);
            }
        },
        Selection::Event(idx) => {
            diagram.remove_event(idx);
            let nc = diagram.event_count();
            if nc == 0 {
                editor.clear_selection();
            } else {
                let clamped = if idx <= nc - 1 {
                    idx
                } else {
                    nc - 1
                };
                editor.selection = Selection::Event(clamped);
            }
        },
        Selection::Empty => {
            diagram.pop_event();
        },
    }
}

fn handle_move_down(diagram: &SequenceDiagram, editor: &mut EditorState)
    ensures
        (StepView { diagram: diagram@, editor: final(editor)@, effect: Effect::Nothing })
            =~= spec_move_down_step(diagram@, old(editor)@),
{
    let sel = editor.selection;
    match sel {
        Selection::Participant(idx) => {
            editor.last_participant_index = Some(idx);
        },
        _ => {},
    }
    editor.selection = sel.down(diagram.participant_count(), diagram.event_count());
}

fn handle_move_up(diagram: &SequenceDiagram, editor: &mut EditorState)
    ensures
        (StepView { diagram: diagram@, editor: final(editor)@, effect: Effect::Nothing })
            =~= spec_move_up_step(diagram@, old(editor)@),
{
    let pc = diagram.participant_count();
    let sel = editor.selection;
    let restore = match (sel, editor.last_participant_index) {
        (Selection::Event(0), Some(idx)) => idx < pc,
        _ => false,
    };
    if restore {
        match editor.last_participant_index {
            Some(idx) => {
                editor.selection = Selection::Participant(idx);
            },
            None => {},
        }
    } else {
        editor.selection = sel.up(pc);
    }
}

fn handle_move_left(diagram: &mut SequenceDiagram, editor: &mut EditorState)
    ensures
        (StepView {
            diagram: final(diagram)@,
            editor: final(editor)@,
            effect: Effect::Nothing,
        }) =~= spec_move_left_step(old(diagram)@, old(editor)@),
        old(diagram)@.wf() ==> final(diagram)@.wf(),
{
    match editor.selection {
        Selection::Participant(idx) => {
            if idx > 0 {
                diagram.swap_participants(idx, idx - 1);
                editor.selection = Selection::Participant(idx - 1);
            }
        },
        Selection::Event(idx) => {
            diagram.point_event_left(idx);
        },
        Selection::Empty => {},
    }
}

fn handle_move_right(diagram: &mut SequenceDiagram, editor: &mut EditorState)
    ensures
        (StepView {
            diagram: final(diagram)@,
            editor: final(editor)@,
            effect: Effect::Nothing,
        }) =~= spec_move_right_step(old(diagram)@, old(editor)@),
        old(diagram)@.wf() ==> final(diagram)@.wf(),
{
    let pc = diagram.participant_count();
    match editor.selection {
        Selection::Participant(idx) => {
            if idx < pc && idx + 1 < pc {
                diagram.swap_participants(idx, idx + 1);
                editor.selection = Selection::Participant(idx + 1);
            }
        },
        Selection::Event(idx) => {
            diagram.point_event_right(idx);
        },
        Selection::Empty => {},
    }
}

fn handle_edit_open(diagram: &SequenceDiagram, editor: &mut EditorState)
    ensures
        (StepView { diagram: diagram@, editor: final(editor)@, effect: Effect::Nothing })
            =~= spec_edit_step(diagram@, old(editor)@),
{
    match editor.selection {
        Selection::Event(idx) => {
            if idx < diagram.events.len() {
                match &diagram.events[idx] {
                    Event::Message { from, to, text } => {
                        editor.editing_event_index = Some(idx);
                        editor.message_from = Some(*from);
                        editor.message_to = Some(*to);
                        editor.input_buffer = text.clone();
                        editor.selected_index = *from;
                        editor.mode = EditorMode::EditSelectFrom;
                    },
                    Event::Note { position, participant_start, participant_end, text } => {
                        editor.editing_event_index = Some(idx);
                        editor.note_position = *position;
                        editor.note_participant_start = Some(*participant_start);
                        editor.note_participant_end = Some(*participant_end);
                        editor.input_buffer = text.clone();
                        editor.selected_index = *participant_start;
                        editor.mode = EditorMode::EditNoteParticipant;
                    },
                }
            }
        },
        Selection::Participant(idx) => {
            if idx < diagram.participants.len() {
                editor.selected_index = idx;
                editor.input_buffer = diagram.participants[idx].clone();
                editor.mode = EditorMode::RenameParticipant;
            }
        },
        Selection::Empty => {},
    }
}

fn handle_rename_open(diagram: &SequenceDiagram, editor: &mut EditorState)
    ensures
        (StepView { diagram: diagram@, editor: final(editor)@, effect: Effect::Nothing })
            =~= spec_rename_step(diagram@, old(editor)@),
{
    match editor.selection {
        Selection::Event(idx) => {
            if idx < diagram.events.len() {
                match &diagram.events[idx] {
                    Event::Message { from, to, text } => {
                        editor.editing_event_index = Some(idx);
                        editor.message_from = Some(*from);
                        editor.message_to = Some(*to);
                        editor.input_buffer = text.clone();
                        editor.mode = EditorMode::EditMessage;
                    },
                    Event::Note { position, participant_start, participant_end, text } => {
                        editor.editing_event_index = Some(idx);
                        editor.note_position = *position;
                        editor.note_participant_start = Some(*participant_start);
                        editor.note_participant_end = Some(*participant_end);
                        editor.input_buffer = text.clone();
                        editor.mode = EditorMode::EditNoteText;
                    },
                }
            }
        },
        Selection::Participant(idx) => {
            if idx < diagram.participants.len() {
                editor.selected_index = idx;
                editor.input_buffer = diagram.participants[idx].clone();
                editor.mode = EditorMode::RenameParticipant;
            }
        },
        Selection::Empty => {},
    }
}

fn handle_confirm_key(diagram: &mut SequenceDiagram, editor: &mut EditorState, key: KeyInput) -> (
    r: Effect)
    ensures
        (StepView { diagram: final(diagram)@, editor: final(editor)@, effect: r })
            =~= spec_confirm_step(old(diagram)@, old(editor)@, key),
        old(diagram)@.wf() ==> final(diagram)@.wf(),
{
    match key {
        KeyInput::Char(c) => {
            if c == 'y' {
                diagram.clear();
                editor.reset();
            } else if c == 'n' {
                editor.reset();
            }
        },
        KeyInput::Esc => {
            editor.reset();
        },
        _ => {},
    }
    Effect::Nothing
}

fn handle_input_key(diagram: &mut SequenceDiagram, editor: &mut EditorState, key: KeyInput) -> (r:
    Effect)
    ensures
        (StepView { diagram: final(diagram)@, editor: final(editor)@, effect: r })
            =~= spec_input_step(old(diagram)@, old(editor)@, key),
        old(diagram)@.wf() ==> final(diagram)@.wf(),
{
    match key {
        KeyInput::Enter => {
            handle_input_confirm(diagram, editor);
        },
        KeyInput::Esc => {
            editor.reset();
        },
        KeyInput::Backspace => {
            if editor.mode.is_text_input() {
                pop_char(&mut editor.input_buffer);
            }
        },
        KeyInput::Up => {
            selector_move(diagram, editor, false);
        },
        KeyInput::Down => {
            selector_move(diagram, editor, true);
        },
        KeyInput::Left => {
            selector_move(diagram, editor, false);
        },
        KeyInput::Right => {
            selector_move(diagram, editor, true);
        },
        KeyInput::Char(c) => {
            if c == 'k' || c == 'j' || c == 'h' || c == 'l' {
                let forward = c == 'j' || c == 'l';
                if editor.mode.is_selecting_participant() {
                    selector_nav(diagram, editor, forward);
                } else if editor.mode.is_selecting_note_position() {
                    let p = editor.note_position;
                    editor.note_position = if forward {
                        p.next()
                    } else {
                        p.prev()
                    };
                } else if editor.mode.is_text_input() {
                    push_char(&mut editor.input_buffer, c);
                }
            } else if c >= '1' && c <= '9' {
                if editor.mode.is_selecting_participant() {
                    let num = (c as u32 - '0' as u32) as usize;
                    if 1 <= num && num <= diagram.participant_count() {
                        editor.selected_index = num - 1;
                    }
                } else if editor.mode.is_text_input() {
                    push_char(&mut editor.input_buffer, c);
                }
            } else if editor.mode.is_text_input() {
                push_char(&mut editor.input_buffer, c);
            }
        },
        KeyInput::Ctrl(_) => {},
    }
    Effect::Nothing
}

fn selector_move(diagram: &SequenceDiagram, editor: &mut EditorState, forward: bool)
    ensures
        (StepView { diagram: diagram@, editor: final(editor)@, effect: Effect::Nothing })
            =~= spec_selector_move(diagram@, old(editor)@, forward),
{
    if editor.mode.is_selecting_note_position() {
        let p = editor.note_position;
        editor.note_position = if forward {
            p.next()
        } else {
            p.prev()
        };
    } else {
        selector_nav(diagram, editor, forward);
    }
}

fn selector_nav(diagram: &SequenceDiagram, editor: &mut EditorState, forward: bool)
    ensures
        (StepView { diagram: diagram@, editor: final(editor)@, effect: Effect::Nothing })
            =~= spec_selector_nav(diagram@, old(editor)@, forward),
{
    let pc = diagram.participant_count();
    if editor.mode.is_selecting_participant() && pc > 0 {
        let si = editor.selected_index;
        editor.selected_index = if forward {
            if si >= usize::MAX || si + 1 >= pc {
                0
            } else {
                si + 1
            }
        } else {
            if si == 0 {
                pc - 1
            } else {
                si - 1
            }
        };
    }
}

fn handle_input_confirm(diagram: &mut SequenceDiagram, editor: &mut EditorState)
    ensures
        (StepView {
            diagram: final(diagram)@,
            editor: final(editor)@,
            effect: Effect::Nothing,
        }) =~= spec_confirm_input(old(diagram)@, old(editor)@),
        old(diagram)@.wf() ==> final(diagram)@.wf(),
{
    let mode = editor.mode;
    match mode {
        EditorMode::InputParticipant => {
            let name = trim_copy(editor.input_buffer.as_str());
            if !name.as_str().is_empty() {
                diagram.add_participant(name);
            }
            editor.reset();
        },
        EditorMode::SelectFrom => {
            editor.message_from = Some(editor.selected_index);
            editor.mode = EditorMode::SelectTo;
        },
        EditorMode::SelectTo => {
            editor.message_to = Some(editor.selected_index);
            editor.mode = EditorMode::InputMessage;
            editor.input_buffer = String::new();
        },
        EditorMode::InputMessage => {
            commit_message(diagram, editor);
        },
        EditorMode::EditMessage => {
            save_event_changes(diagram, editor);
        },
        EditorMode::EditSelectFrom => {
            let si = editor.selected_index;
            editor.message_from = Some(si);
            editor.mode = EditorMode::EditSelectTo;
            editor.selected_index = match editor.message_to {
                Some(t) => t,
                None => si,
            };
        },
        EditorMode::EditSelectTo => {
            editor.message_to = Some(editor.selected_index);
            editor.mode = EditorMode::EditMessage;
        },
        EditorMode::RenameParticipant => {
            let name = trim_copy(editor.input_buffer.as_str());
            if !name.as_str().is_empty() {
                diagram.rename_participant(editor.selected_index, name);
            }
            editor.reset();
        },
        EditorMode::SelectNoteParticipant => {
            editor.note_participant_start = Some(editor.selected_index);
            editor.mode = EditorMode::SelectNotePosition;
        },
        EditorMode::SelectNotePosition => {
            if matches!(editor.note_position, NotePosition::Over) {
                editor.mode = EditorMode::SelectNoteEndParticipant;
                editor.selected_index = match editor.note_participant_start {
                    Some(s) => s,
                    None => 0,
                };
            } else {
                editor.note_participant_end = editor.note_participant_start;
                editor.mode = EditorMode::InputNoteText;
                editor.input_buffer = String::new();
            }
        },
        EditorMode::SelectNoteEndParticipant => {
            editor.note_participant_end = Some(editor.selected_index);
            editor.mode = EditorMode::InputNoteText;
            editor.input_buffer = String::new();
        },
        EditorMode::InputNoteText => {
            commit_note(diagram, editor);
        },
        EditorMode::EditNoteParticipant => {
            editor.note_participant_start = Some(editor.selected_index);
            editor.mode = EditorMode::EditNotePosition;
        },
        EditorMode::EditNotePosition => {
            if matches!(editor.note_position, NotePosition::Over) {
                editor.mode = EditorMode::EditNoteEndParticipant;
                editor.selected_index = match editor.note_participant_end {
                    Some(t) => t,
                    None => 0,
                };
            } else {
                editor.note_participant_end = editor.note_participant_start;
                editor.mode = EditorMode::EditNoteText;
            }
        },
        EditorMode::EditNoteEndParticipant => {
            editor.note_participant_end = Some(editor.selected_index);
            editor.mode = EditorMode::EditNoteText;
        },
        EditorMode::EditNoteText => {
            save_note_changes(diagram, editor);
        },
        _ => {},
    }
}

fn commit_message(diagram: &mut SequenceDiagram, editor: &mut EditorState)
    requires
        old(editor)@.mode == EditorMode::InputMessage,
    ensures
        (StepView {
            diagram: final(diagram)@,
            editor: final(editor)@,
            effect: Effect::Nothing,
        }) =~= spec_commit_message(old(diagram)@, old(editor)@),
        old(diagram)@.wf() ==> final(diagram)@.wf(),
{
    let text = trim_copy(editor.input_buffer.as_str());
    let valid = !text.as_str().is_empty() && (match (editor.message_from, editor.message_to) {
        (Some(f), Some(t)) => f < diagram.participant_count() && t < diagram.participant_count(),
        _ => false,
    });
    if valid {
        let from = match editor.message_from {
            Some(f) => f,
            None => 0,
        };
        let to = match editor.message_to {
            Some(t) => t,
            None => 0,
        };
        let sel_idx: usize = match editor.insert_pos {
            InsertPos::AtStart => 0,
            InsertPos::After(ai) => {
                if ai >= diagram.event_count() {
                    diagram.event_count()
                } else {
                    ai + 1
                }
            },
            InsertPos::AtEnd => diagram.event_count(),
        };
        match editor.insert_pos {
            InsertPos::AtStart => {
                diagram.prepend_message(from, to, text);
            },
            InsertPos::After(ai) => {
                diagram.insert_message(ai, from, to, text);
            },
            InsertPos::AtEnd => {
                diagram.add_message(from, to, text);
            },
        }
        editor.selection = Selection::Event(sel_idx);
    }
    editor.reset();
}

fn commit_note(diagram: &mut SequenceDiagram, editor: &mut EditorState)
    requires
        old(editor)@.mode == EditorMode::InputNoteText,
    ensures
        (StepView {
            diagram: final(diagram)@,
            editor: final(editor)@,
            effect: Effect::Nothing,
        }) =~= spec_commit_note(old(diagram)@, old(editor)@),
        old(diagram)@.wf() ==> final(diagram)@.wf(),
{
    let text = trim_copy(editor.input_buffer.as_str());
    let valid = !text.as_str().is_empty() && (match (
        editor.note_participant_start,
        editor.note_participant_end,
    ) {
        (Some(s), Some(t)) => s < diagram.participant_count() && t < diagram.participant_count(),
        _ => false,
    });
    if valid {
        let ps = match editor.note_participant_start {
            Some(s) => s,
            None => 0,
        };
        let pe = match editor.note_participant_end {
            Some(t) => t,
            None => 0,
        };
        let position = editor.note_position;
        let sel_idx: usize = match editor.insert_pos {
            InsertPos::AtStart => 0,
            InsertPos::After(ai) => {
                if ai >= diagram.event_count() {
                    diagram.event_count()
                } else {
                    ai + 1
                }
            },
            InsertPos::AtEnd => diagram.event_count(),
        };
        match editor.insert_pos {
            InsertPos::AtStart => {
                diagram.prepend_note(position, ps, pe, text);
            },
            InsertPos::After(ai) => {
                diagram.insert_note(ai, position, ps, pe, text);
            },
            InsertPos::AtEnd => {
                diagram.add_note(position, ps, pe, text);
            },
        }
        editor.selection = Selection::Event(sel_idx);
    }
    editor.reset();
}

fn save_event_changes(diagram: &mut SequenceDiagram, editor: &mut EditorState)
    ensures
        (StepView {
            diagram: final(diagram)@,
            editor: final(editor)@,
            effect: Effect::Nothing,
        }) =~= spec_save_message(old(diagram)@, old(editor)@),
        old(diagram)@.wf() ==> final(diagram)@.wf(),
{
    let text = trim_copy(editor.input_buffer.as_str());
    if !text.as_str().is_empty() {
        match (editor.editing_event_index, editor.message_from, editor.message_to) {
            (Some(idx), Some(from), Some(to)) => {
                diagram.update_message(idx, from, to, text);
            },
            _ => {},
        }
    }
    editor.reset();
}

fn save_note_changes(diagram: &mut SequenceDiagram, editor: &mut EditorState)
    ensures
        (StepView {
            diagram: final(diagram)@,
            editor: final(editor)@,
            effect: Effect::Nothing,
        }) =~= spec_save_note(old(diagram)@, old(editor)@),
        old(diagram)@.wf() ==> final(diagram)@.wf(),
{
    let text = trim_copy(editor.input_buffer.as_str());
    if !text.as_str().is_empty() {
        match (
            editor.editing_event_index,
            editor.note_participant_start,
            editor.note_participant_end,
        ) {
            (Some(idx), Some(s), Some(t)) => {
                let position = editor.note_position;
                diagram.update_note(idx, position, s, t, text);
            },
            _ => {},
        }
    }
    editor.reset();
}

/// Deleting the selected participant or event at index `k` out of `n`
/// clamps the selection to `min(k, n - 2)` when more than one remains, and
/// clears it when the list empties (`n` being the count before deletion).
pub proof fn lemma_delete_clamps_selection(d: DiagramView, e: EditorStateView)
    requires
        d.participants.len() <= usize::MAX,
        d.events.len() <= usize::MAX,
    ensures
        match e.selection {
            Selection::Participant(k) => k < d.participants.len() ==> spec_delete_step(
                d,
                e,
            ).editor.selection == (if d.participants.len() == 1 {
                Selection::Empty
            } else {
                Selection::Participant(min_index(k, (d.participants.len() - 2) as usize))
            }),
            Selection::Event(k) => k < d.events.len() ==> spec_delete_step(d, e).editor.selection
                == (if d.events.len() == 1 {
                Selection::Empty
            } else {
                Selection::Event(min_index(k, (d.events.len() - 2) as usize))
            }),
            Selection::Empty => spec_delete_step(d, e).editor.selection == Selection::Empty,
        },
{
    match e.selection {
        Selection::Participant(k) => {
            if k < d.participants.len() {
                let n = d.participants.len();
                let d2 = d.after_remove_participant(k);
                assert(d2.participants.len() == n - 1);
                let nc = d2.participants.len() as usize;
                if n == 1 {
                    assert(spec_delete_step(d, e).editor.selection == Selection::Empty);
                } else {
                    assert(nc >= 1);
                    assert((nc - 1) as usize == (n - 2) as usize);
                    assert(spec_delete_step(d, e).editor.selection == Selection::Participant(
                        min_index(k, (n - 2) as usize),
                    ));
                }
            }
        },
        Selection::Event(k) => {
            if k < d.events.len() {
                let n = d.events.len();
                let d2 = d.after_remove_event(k);
                assert(d2.events.len() == n - 1);
                let nc = d2.events.len() as usize;
                if n == 1 {
                    assert(spec_delete_step(d, e).editor.selection == Selection::Empty);
                } else {
                    assert(nc >= 1);
                    assert((nc - 1) as usize == (n - 2) as usize);
                    assert(spec_delete_step(d, e).editor.selection == Selection::Event(
                        min_index(k, (n - 2) as usize),
                    ));
                }
            }
        },
        Selection::Empty => {},
    }
}

} // verus!
