//! The textual codec: serializing a diagram to the Mermaid-style
//! `sequenceDiagram` notation and parsing such text back, with a strict
//! grammar (no blank lines, no comments).

use vstd::prelude::*;

use crate::diagram::{lemma_deep_push, SequenceDiagram};
use crate::model::{DiagramView, Event, EventView, NotePosition};
use crate::text::{
    find_char, find_char_in, find_newline, find_sub, is_ws, lines_text, occurs_at, range_matches,
    split_lines, starts_with, str_to_chars, strip_cr, trim_bounds, trim_stable, trimmed,
};

verus! {

/// Why an import was rejected. Each variant that concerns one source line
/// carries that line.
#[derive(Clone, Debug)]
pub enum ParseError {
    /// The first line is not exactly `sequenceDiagram`.
    MissingHeader,
    /// A blank line; the strict grammar does not allow them.
    EmptyLine,
    /// A `%%` comment line; the strict grammar does not allow them.
    Comment,
    /// A `participant` line with an empty name.
    InvalidParticipant { line: String },
    /// A `Note` line whose position is not `right of`, `left of` or `over`.
    InvalidNotePosition { line: String },
    /// A `Note` line without a `:` separator.
    NoteMissingColon { line: String },
    /// A `Note over` line that does not name exactly two participants.
    NoteOverParticipants { line: String },
    /// A `Note` line with an empty participant name.
    InvalidNote { line: String },
    /// A message line without a `:` separator.
    MessageMissingColon { line: String },
    /// A message line with an empty sender or receiver name.
    InvalidMessage { line: String },
    /// A line that matches no construct of the grammar.
    UnsupportedLine { line: String },
}

/// The mathematical value of a [`ParseError`].
#[verifier::ext_equal]
pub enum ParseErrorView {
    MissingHeader,
    EmptyLine,
    Comment,
    InvalidParticipant { line: Seq<char> },
    InvalidNotePosition { line: Seq<char> },
    NoteMissingColon { line: Seq<char> },
    NoteOverParticipants { line: Seq<char> },
    InvalidNote { line: Seq<char> },
    MessageMissingColon { line: Seq<char> },
    InvalidMessage { line: Seq<char> },
    UnsupportedLine { line: Seq<char> },
}

impl View for ParseError {
    type V = ParseErrorView;

    open spec fn view(&self) -> ParseErrorView {
        match *self {
            ParseError::MissingHeader => ParseErrorView::MissingHeader,
            ParseError::EmptyLine => ParseErrorView::EmptyLine,
            ParseError::Comment => ParseErrorView::Comment,
            ParseError::InvalidParticipant { line } => ParseErrorView::InvalidParticipant {
                line: line@,
            },
            ParseError::InvalidNotePosition { line } => ParseErrorView::InvalidNotePosition {
                line: line@,
            },
            ParseError::NoteMissingColon { line } => ParseErrorView::NoteMissingColon {
                line: line@,
            },
            ParseError::NoteOverParticipants { line } => ParseErrorView::NoteOverParticipants {
                line: line@,
            },
            ParseError::InvalidNote { line } => ParseErrorView::InvalidNote { line: line@ },
            ParseError::MessageMissingColon { line } => ParseErrorView::MessageMissingColon {
                line: line@,
            },
            ParseError::InvalidMessage { line } => ParseErrorView::InvalidMessage { line: line@ },
            ParseError::UnsupportedLine { line } => ParseErrorView::UnsupportedLine { line: line@ },
        }
    }
}

impl ParseErrorView {
    /// The human-readable description of this error.
    pub open spec fn spec_message(self) -> Seq<char> {
        match self {
            ParseErrorView::MissingHeader => "First line must be 'sequenceDiagram'"@,
            ParseErrorView::EmptyLine => "Empty lines are not supported"@,
            ParseErrorView::Comment => "Comments are not supported"@,
            ParseErrorView::InvalidParticipant { line } => "Invalid participant declaration: "@
                + line,
            ParseErrorView::InvalidNotePosition { line } => "Invalid note position: "@ + line,
            ParseErrorView::NoteMissingColon { line } => "Invalid note syntax (missing ':'): "@
                + line,
            ParseErrorView::NoteOverParticipants { line } =>
            "Note over must have exactly 2 participants: "@ + line,
            ParseErrorView::InvalidNote { line } => "Invalid note syntax: "@ + line,
            ParseErrorView::MessageMissingColon { line } =>
            "Invalid message syntax (missing ':'): "@ + line,
            ParseErrorView::InvalidMessage { line } => "Invalid message syntax: "@ + line,
            ParseErrorView::UnsupportedLine { line } => "Unsupported mermaid feature: "@ + line,
        }
    }
}

impl ParseError {
    /// The human-readable description of this error, naming the offending
    /// line where there is one.
    pub fn message(&self) -> (r: String)
        ensures
            r@ == self@.spec_message(),
    {
        match self {
            ParseError::MissingHeader => "First line must be 'sequenceDiagram'".to_owned(),
            ParseError::EmptyLine => "Empty lines are not supported".to_owned(),
            ParseError::Comment => "Comments are not supported".to_owned(),
            ParseError::InvalidParticipant { line } => {
                let mut m = "Invalid participant declaration: ".to_owned();
                m.append(line.as_str());
                m
            },
            ParseError::InvalidNotePosition { line } => {
                let mut m = "Invalid note position: ".to_owned();
                m.append(line.as_str());
                m
            },
            ParseError::NoteMissingColon { line } => {
                let mut m = "Invalid note syntax (missing ':'): ".to_owned();
                m.append(line.as_str());
                m
            },
            ParseError::NoteOverParticipants { line } => {
                let mut m = "Note over must have exactly 2 participants: ".to_owned();
                m.append(line.as_str());
                m
            },
            ParseError::InvalidNote { line } => {
                let mut m = "Invalid note syntax: ".to_owned();
                m.append(line.as_str());
                m
            },
            ParseError::MessageMissingColon { line } => {
                let mut m = "Invalid message syntax (missing ':'): ".to_owned();
                m.append(line.as_str());
                m
            },
            ParseError::InvalidMessage { line } => {
                let mut m = "Invalid message syntax: ".to_owned();
                m.append(line.as_str());
                m
            },
            ParseError::UnsupportedLine { line } => {
                let mut m = "Unsupported mermaid feature: ".to_owned();
                m.append(line.as_str());
                m
            },
        }
    }
}

/// `ps` with `name` appended unless it is already declared.
pub open spec fn declared(ps: Seq<Seq<char>>, name: Seq<char>) -> Seq<Seq<char>> {
    if ps.contains(name) {
        ps
    } else {
        ps.push(name)
    }
}

/// The first index of `name` in `ps`, or -1.
pub open spec fn name_index(ps: Seq<Seq<char>>, name: Seq<char>) -> int
    decreases ps.len(),
{
    if ps.len() == 0 {
        -1
    } else if ps[0] == name {
        0
    } else {
        let r = name_index(ps.drop_first(), name);
        if r < 0 {
            -1
        } else {
            r + 1
        }
    }
}

pub proof fn lemma_name_index(ps: Seq<Seq<char>>, name: Seq<char>)
    ensures
        name_index(ps, name) < 0 ==> !ps.contains(name),
        name_index(ps, name) >= 0 ==> 0 <= name_index(ps, name) < ps.len() && ps[name_index(
            ps,
            name,
        )] == name && forall|j: int| 0 <= j < name_index(ps, name) ==> ps[j] != name,
    decreases ps.len(),
{
    if ps.len() > 0 && ps[0] != name {
        let t = ps.drop_first();
        lemma_name_index(t, name);
        let rt = name_index(t, name);
        if rt < 0 {
            assert forall|j: int| 0 <= j < ps.len() implies ps[j] != name by {
                if j > 0 {
                    assert(t[j - 1] == ps[j]);
                    assert(t.contains(t[j - 1]) || t[j - 1] != name) by {
                        if t[j - 1] == name {
                            assert(t.contains(name));
                        }
                    }
                }
            }
            if ps.contains(name) {
                let j = choose|j: int| 0 <= j < ps.len() && ps[j] == name;
            }
        } else {
            assert(ps[rt + 1] == t[rt]);
            assert forall|j: int| 0 <= j < rt + 1 implies ps[j] != name by {
                if j > 0 {
                    assert(t[j - 1] == ps[j]);
                }
            }
        }
    } else if ps.len() > 0 {
        assert(ps.contains(name)) by {
            assert(ps[0] == name);
        }
    } else {
        if ps.contains(name) {
            let j = choose|j: int| 0 <= j < ps.len() && ps[j] == name;
        }
    }
}

/// `name_index` returns exactly the first occurrence.
pub proof fn lemma_name_index_is(ps: Seq<Seq<char>>, name: Seq<char>, k: int)
    requires
        0 <= k < ps.len(),
        ps[k] == name,
        forall|j: int| 0 <= j < k ==> ps[j] != name,
    ensures
        name_index(ps, name) == k,
{
    lemma_name_index(ps, name);
    let r = name_index(ps, name);
    if r < 0 {
        assert(ps.contains(name)) by {
            assert(ps[k] == name);
        }
    } else if r < k {
    } else if r > k {
    }
}

/// The pieces of `s` between occurrences of `c`, as `str::split` yields them.
pub open spec fn split_on(s: Seq<char>, c: char) -> Seq<Seq<char>>
    decreases s.len(),
{
    let k = find_char(s, c);
    if 0 <= k < s.len() {
        seq![s.take(k)] + split_on(s.skip(k + 1), c)
    } else {
        seq![s]
    }
}

/// The result of parsing one body line of the textual format against the
/// diagram accumulated so far, following the strict grammar.
pub open spec fn parse_body_line(line: Seq<char>, d: DiagramView) -> Result<
    DiagramView,
    ParseErrorView,
> {
    let t = trimmed(line);
    if t.len() == 0 {
        Err(ParseErrorView::EmptyLine)
    } else if starts_with(t, "%%"@) {
        Err(ParseErrorView::Comment)
    } else if starts_with(t, "participant "@) {
        let name = trimmed(t.skip("participant "@.len() as int));
        if name.len() == 0 {
            Err(ParseErrorView::InvalidParticipant { line })
        } else {
            Ok(DiagramView { participants: declared(d.participants, name), events: d.events })
        }
    } else if starts_with(t, "Note "@) {
        parse_note_tail(line, t.skip("Note "@.len() as int), d)
    } else if find_sub(t, "->>"@) >= 0 {
        parse_message_tail(line, t, d)
    } else {
        Err(ParseErrorView::UnsupportedLine { line: t })
    }
}

/// Parses what follows `Note ` on a note line.
pub open spec fn parse_note_tail(line: Seq<char>, rest: Seq<char>, d: DiagramView) -> Result<
    DiagramView,
    ParseErrorView,
> {
    if starts_with(rest, "right of "@) {
        parse_note_body(line, NotePosition::Right, rest.skip("right of "@.len() as int), d)
    } else if starts_with(rest, "left of "@) {
        parse_note_body(line, NotePosition::Left, rest.skip("left of "@.len() as int), d)
    } else if starts_with(rest, "over "@) {
        parse_note_body(line, NotePosition::Over, rest.skip("over "@.len() as int), d)
    } else {
        Err(ParseErrorView::InvalidNotePosition { line })
    }
}

/// Parses the `<participants>: <text>` tail of a note line.
pub open spec fn parse_note_body(
    line: Seq<char>,
    position: NotePosition,
    after_pos: Seq<char>,
    d: DiagramView,
) -> Result<DiagramView, ParseErrorView> {
    let c = find_char(after_pos, ':');
    if c < 0 {
        Err(ParseErrorView::NoteMissingColon { line })
    } else {
        let pstr = trimmed(after_pos.take(c));
        let text = trimmed(after_pos.skip(c + 1));
        if position == NotePosition::Over && find_char(pstr, ',') >= 0 {
            let parts = split_on(pstr, ',');
            if parts.len() != 2 {
                Err(ParseErrorView::NoteOverParticipants { line })
            } else {
                let start_name = trimmed(parts[0]);
                let end_name = trimmed(parts[1]);
                let ps1 = declared(d.participants, start_name);
                let ps2 = declared(ps1, end_name);
                Ok(
                    DiagramView {
                        participants: ps2,
                        events: d.events.push(
                            EventView::Note {
                                position,
                                participant_start: name_index(ps2, start_name) as usize,
                                participant_end: name_index(ps2, end_name) as usize,
                                text,
                            },
                        ),
                    },
                )
            }
        } else {
            if pstr.len() == 0 {
                Err(ParseErrorView::InvalidNote { line })
            } else {
                let ps1 = declared(d.participants, pstr);
                let idx = name_index(ps1, pstr) as usize;
                Ok(
                    DiagramView {
                        participants: ps1,
                        events: d.events.push(
                            EventView::Note {
                                position,
                                participant_start: idx,
                                participant_end: idx,
                                text,
                            },
                        ),
                    },
                )
            }
        }
    }
}

/// Parses a message line `From->>To: Text` (given that `t`, the trimmed line,
/// contains an arrow).
pub open spec fn parse_message_tail(line: Seq<char>, t: Seq<char>, d: DiagramView) -> Result<
    DiagramView,
    ParseErrorView,
> {
    let arrow = find_sub(t, "->>"@);
    let from_name = trimmed(t.take(arrow));
    let rest = t.skip(arrow + "->>"@.len());
    let c = find_char(rest, ':');
    if c < 0 {
        Err(ParseErrorView::MessageMissingColon { line })
    } else {
        let to_name = trimmed(rest.take(c));
        let msg = trimmed(rest.skip(c + 1));
        if from_name.len() == 0 || to_name.len() == 0 {
            Err(ParseErrorView::InvalidMessage { line })
        } else {
            let ps1 = declared(d.participants, from_name);
            let ps2 = declared(ps1, to_name);
            Ok(
                DiagramView {
                    participants: ps2,
                    events: d.events.push(
                        EventView::Message {
                            from: name_index(ps2, from_name) as usize,
                            to: name_index(ps2, to_name) as usize,
                            text: msg,
                        },
                    ),
                },
            )
        }
    }
}

/// Folds the body lines into a diagram, stopping at the first malformed line.
pub open spec fn parse_lines(ls: Seq<Seq<char>>, d: DiagramView) -> Result<
    DiagramView,
    ParseErrorView,
>
    decreases ls.len(),
{
    if ls.len() == 0 {
        Ok(d)
    } else {
        match parse_body_line(ls[0], d) {
            Ok(d2) => parse_lines(ls.drop_first(), d2),
            Err(e) => Err(e),
        }
    }
}

/// The result of parsing a whole document: the header line must be exactly
/// `sequenceDiagram`, every following line must parse, and nothing is
/// returned on failure.
pub open spec fn parse_mermaid(input: Seq<char>) -> Result<DiagramView, ParseErrorView> {
    let ls = split_lines(input);
    if ls.len() == 0 || trimmed(ls[0]) != "sequenceDiagram"@ {
        Err(ParseErrorView::MissingHeader)
    } else {
        parse_lines(ls.drop_first(), DiagramView::empty())
    }
}

/// Declaring a name keeps every existing entry, and the name is afterwards
/// present with a valid first index.
pub proof fn lemma_declared(ps: Seq<Seq<char>>, name: Seq<char>)
    ensures
        declared(ps, name).contains(name),
        ps.len() <= declared(ps, name).len(),
        forall|j: int| 0 <= j < ps.len() ==> declared(ps, name)[j] == ps[j],
        0 <= name_index(declared(ps, name), name) < declared(ps, name).len(),
{
    let ps2 = declared(ps, name);
    if !ps.contains(name) {
        assert(ps2[ps.len() as int] == name);
        assert(ps2.contains(name));
    }
    lemma_name_index(ps2, name);
    if name_index(ps2, name) < 0 {
    }
}

/// A successfully parsed body line keeps the diagram well formed.
pub proof fn lemma_parse_body_line_wf(line: Seq<char>, d: DiagramView)
    requires
        d.wf(),
        parse_body_line(line, d) is Ok,
    ensures
        parse_body_line(line, d)->Ok_0.wf(),
{
    let t = trimmed(line);
    let d2 = parse_body_line(line, d)->Ok_0;
    if starts_with(t, "participant "@) {
        let name = trimmed(t.skip("participant "@.len() as int));
        lemma_declared(d.participants, name);
        assert forall|i: int| 0 <= i < d2.events.len() implies (#[trigger] d2.events[i]).wf(
            d2.participants.len(),
        ) by {
            assert(d.events[i].wf(d.participants.len()));
        }
    } else if starts_with(t, "Note "@) {
        lemma_parse_note_wf(line, d, d2);
    } else {
        lemma_parse_message_wf(line, d, d2);
    }
}

proof fn lemma_parse_note_wf(line: Seq<char>, d: DiagramView, d2: DiagramView)
    requires
        d.wf(),
        parse_body_line(line, d) is Ok,
        starts_with(trimmed(line), "Note "@),
        !starts_with(trimmed(line), "participant "@),
        trimmed(line).len() > 0,
        !starts_with(trimmed(line), "%%"@),
        d2 == parse_body_line(line, d)->Ok_0,
    ensures
        d2.wf(),
{
    let t = trimmed(line);
    let rest = t.skip("Note "@.len() as int);
    let position = if starts_with(rest, "right of "@) {
        NotePosition::Right
    } else if starts_with(rest, "left of "@) {
        NotePosition::Left
    } else {
        NotePosition::Over
    };
    let after_pos = if starts_with(rest, "right of "@) {
        rest.skip("right of "@.len() as int)
    } else if starts_with(rest, "left of "@) {
        rest.skip("left of "@.len() as int)
    } else {
        rest.skip("over "@.len() as int)
    };
    let c = find_char(after_pos, ':');
    let pstr = trimmed(after_pos.take(c));
    if position == NotePosition::Over && find_char(pstr, ',') >= 0 {
        let parts = split_on(pstr, ',');
        let start_name = trimmed(parts[0]);
        let end_name = trimmed(parts[1]);
        let ps1 = declared(d.participants, start_name);
        let ps2 = declared(ps1, end_name);
        lemma_declared(d.participants, start_name);
        lemma_declared(ps1, end_name);
        assert(ps2.contains(start_name)) by {
            if !ps1.contains(end_name) {
                let j = name_index(ps1, start_name);
                lemma_name_index(ps1, start_name);
                assert(ps2[j] == start_name);
            }
        }
        lemma_name_index(ps2, start_name);
        lemma_name_index(ps2, end_name);
        assert forall|i: int| 0 <= i < d2.events.len() implies (#[trigger] d2.events[i]).wf(
            d2.participants.len(),
        ) by {
            if i < d.events.len() {
                assert(d.events[i].wf(d.participants.len()));
            }
        }
    } else {
        let ps1 = declared(d.participants, pstr);
        lemma_declared(d.participants, pstr);
        lemma_name_index(ps1, pstr);
        assert forall|i: int| 0 <= i < d2.events.len() implies (#[trigger] d2.events[i]).wf(
            d2.participants.len(),
        ) by {
            if i < d.events.len() {
                assert(d.events[i].wf(d.participants.len()));
            }
        }
    }
}

proof fn lemma_parse_message_wf(line: Seq<char>, d: DiagramView, d2: DiagramView)
    requires
        d.wf(),
        parse_body_line(line, d) is Ok,
        !starts_with(trimmed(line), "Note "@),
        !starts_with(trimmed(line), "participant "@),
        trimmed(line).len() > 0,
        !starts_with(trimmed(line), "%%"@),
        d2 == parse_body_line(line, d)->Ok_0,
    ensures
        d2.wf(),
{
    let t = trimmed(line);
    let arrow = find_sub(t, "->>"@);
    let from_name = trimmed(t.take(arrow));
    let rest = t.skip(arrow + "->>"@.len());
    let c = find_char(rest, ':');
    let to_name = trimmed(rest.take(c));
    let ps1 = declared(d.participants, from_name);
    let ps2 = declared(ps1, to_name);
    lemma_declared(d.participants, from_name);
    lemma_declared(ps1, to_name);
    assert(ps2.contains(from_name)) by {
        if !ps1.contains(to_name) {
            let j = name_index(ps1, from_name);
            lemma_name_index(ps1, from_name);
            assert(ps2[j] == from_name);
        }
    }
    lemma_name_index(ps2, from_name);
    lemma_name_index(ps2, to_name);
    assert forall|i: int| 0 <= i < d2.events.len() implies (#[trigger] d2.events[i]).wf(
        d2.participants.len(),
    ) by {
        if i < d.events.len() {
            assert(d.events[i].wf(d.participants.len()));
        }
    }
}

/// The serialized line declaring one participant.
pub open spec fn participant_line(name: Seq<char>) -> Seq<char> {
    "    participant "@ + name
}

/// The serialized line of one event, or nothing when the event's indices are
/// out of range (which a well-formed diagram never has).
pub open spec fn event_line_opt(e: EventView, ps: Seq<Seq<char>>) -> Option<Seq<char>> {
    match e {
        EventView::Message { from, to, text } => {
            if from < ps.len() && to < ps.len() {
                Some("    "@ + ps[from as int] + "->>"@ + ps[to as int] + ": "@ + text)
            } else {
                None
            }
        },
        EventView::Note { position, participant_start, participant_end, text } => {
            if position == NotePosition::Over && participant_start != participant_end {
                if participant_start < ps.len() && participant_end < ps.len() {
                    Some(
                        "    Note "@ + position.keyword() + " "@ + ps[participant_start as int]
                            + ","@ + ps[participant_end as int] + ": "@ + text,
                    )
                } else {
                    None
                }
            } else {
                if participant_start < ps.len() {
                    Some(
                        "    Note "@ + position.keyword() + " "@ + ps[participant_start as int]
                            + ": "@ + text,
                    )
                } else {
                    None
                }
            }
        },
    }
}

/// Every line of the serialized form: the header, all participant
/// declarations in store order, then all events in store order.
pub open spec fn mermaid_lines(d: DiagramView) -> Seq<Seq<char>> {
    seq!["sequenceDiagram"@] + d.participants.map_values(|n: Seq<char>| participant_line(n))
        + d.events.filter_map(|e: EventView| event_line_opt(e, d.participants))
}

/// The serialized text: every line followed by a newline.
pub open spec fn render_mermaid(d: DiagramView) -> Seq<char> {
    lines_text(mermaid_lines(d))
}

/// Appends `name` to the participant list unless it is already there, and
/// returns its (first) index.
fn declare_participant(d: &mut SequenceDiagram, name: String) -> (idx: usize)
    ensures
        final(d)@.participants =~= declared(old(d)@.participants, name@),
        final(d)@.events == old(d)@.events,
        idx as int == name_index(final(d)@.participants, name@),
{
    let ghost nm = name@;
    let n = d.participants.len();
    let mut i: usize = 0;
    while i < n
        invariant
            i <= n,
            n == d.participants.len(),
            *d == *old(d),
            nm == name@,
            forall|j: int| 0 <= j < i ==> d@.participants[j] != nm,
        decreases n - i,
    {
        let names_equal = d.participants[i].eq(&name);
        proof {
            assert(d@.participants[i as int] == d.participants@[i as int]@);
        }
        if names_equal {
            proof {
                assert(d@.participants[i as int] == nm);
                assert(d@.participants.contains(nm));
                lemma_name_index_is(d@.participants, nm, i as int);
            }
            return i;
        }
        i = i + 1;
    }
    proof {
        if d@.participants.contains(nm) {
            let j = choose|j: int| 0 <= j < d@.participants.len() && d@.participants[j] == nm;
            assert(false);
        }
        lemma_deep_push(d.participants@, name);
    }
    d.participants.push(name);
    proof {
        assert(d@.participants =~= old(d)@.participants.push(nm));
        assert(d@.participants[n as int] == nm);
        lemma_name_index_is(d@.participants, nm, n as int);
    }
    n
}

/// The first index in `[lo, hi)` where the arrow `->>` begins, or `hi` when
/// there is none.
fn find_arrow(v: &Vec<char>, lo: usize, hi: usize) -> (i: usize)
    requires
        lo <= hi <= v@.len(),
    ensures
        lo <= i <= hi,
        i < hi ==> i + 3 <= hi && v@[i as int] == '-' && v@[i + 1] == '>' && v@[i + 2] == '>',
        forall|j: int|
            lo <= j < i ==> !(j + 3 <= hi && #[trigger] v@[j] == '-' && v@[j + 1] == '>' && v@[j + 2] == '>'),
        i == hi ==> forall|j: int|
            lo <= j < hi ==> !(j + 3 <= hi && #[trigger] v@[j] == '-' && v@[j + 1] == '>' && v@[j
                + 2] == '>'),
{
    let mut i: usize = lo;
    while i < hi && hi - i >= 3
        invariant
            lo <= i <= hi <= v@.len(),
            forall|j: int|
                lo <= j < i ==> !(j + 3 <= hi && #[trigger] v@[j] == '-' && v@[j + 1] == '>'
                    && v@[j + 2] == '>'),
        decreases hi - i,
    {
        if v[i] == '-' && v[i + 1] == '>' && v[i + 2] == '>' {
            return i;
        }
        i = i + 1;
    }
    hi
}

/// Parses the body line `v[lo..hi)` into the accumulating diagram, returning
/// the parse error of that line if it has one.
fn parse_line_into(
    chars: &Vec<char>,
    input: &str,
    lo: usize,
    hi: usize,
    d: &mut SequenceDiagram,
) -> (r: Option<ParseError>)
    requires
        chars@ == input@,
        lo <= hi <= chars@.len(),
    ensures
        ({
            let line = chars@.subrange(lo as int, hi as int);
            match r {
                None => parse_body_line(line, old(d)@) == Ok::<DiagramView, ParseErrorView>(
                    final(d)@,
                ),
                Some(e) => parse_body_line(line, old(d)@) == Err::<DiagramView, ParseErrorView>(
                    e@,
                ),
            }
        }),
{
    let ghost line = chars@.subrange(lo as int, hi as int);
    let (a, b) = trim_bounds(chars, lo, hi);
    let ghost t = chars@.subrange(a as int, b as int);
    if a == b {
        return Some(ParseError::EmptyLine);
    }
    if b - a >= 2 && chars[a] == '%' && chars[a + 1] == '%' {
        proof {
            reveal_strlit("%%");
            assert(t.take("%%"@.len() as int) =~= "%%"@);
        }
        return Some(ParseError::Comment);
    }
    proof {
        reveal_strlit("%%");
        assert(!starts_with(t, "%%"@)) by {
            if starts_with(t, "%%"@) {
                assert(t.take(2)[0] == t[0] && t.take(2)[1] == t[1]);
            }
        }
    }
    let kw_participant = str_to_chars("participant ");
    if range_matches(chars, a, b, &kw_participant) {
        proof {
            assert(t.take("participant "@.len() as int) =~= chars@.subrange(
                a as int,
                a + "participant "@.len(),
            ));
        }
        let (na, nb) = trim_bounds(chars, a + kw_participant.len(), b);
        proof {
            assert(t.skip("participant "@.len() as int) =~= chars@.subrange(
                a + "participant "@.len(),
                b as int,
            ));
        }
        if na == nb {
            let linestr = input.substring_char(lo, hi).to_owned();
            return Some(ParseError::InvalidParticipant { line: linestr });
        }
        let name = input.substring_char(na, nb).to_owned();
        let _ = declare_participant(d, name);
        return None;
    }
    proof {
        assert(!starts_with(t, "participant "@)) by {
            if starts_with(t, "participant "@) {
                assert(chars@.subrange(a as int, a + "participant "@.len()) =~= t.take(
                    "participant "@.len() as int,
                ));
            }
        }
    }
    let kw_note = str_to_chars("Note ");
    if range_matches(chars, a, b, &kw_note) {
        proof {
            assert(t.take("Note "@.len() as int) =~= chars@.subrange(
                a as int,
                a + "Note "@.len(),
            ));
        }
        return parse_note_into(chars, input, lo, hi, a, b, d);
    }
    proof {
        assert(!starts_with(t, "Note "@)) by {
            if starts_with(t, "Note "@) {
                assert(chars@.subrange(a as int, a + "Note "@.len()) =~= t.take(
                    "Note "@.len() as int,
                ));
            }
        }
    }
    let arrow = find_arrow(chars, a, b);
    proof {
        reveal_strlit("->>");
        assert("->>"@[0] == '-' && "->>"@[1] == '>' && "->>"@[2] == '>');
    }
    if arrow < b {
        proof {
            assert(occurs_at(t, "->>"@, arrow - a)) by {
                assert(t.subrange(arrow - a, arrow - a + 3) =~= "->>"@);
            }
            assert forall|j: int| 0 <= j < arrow - a implies !occurs_at(t, "->>"@, j) by {
                if occurs_at(t, "->>"@, j) {
                    assert(t.subrange(j, j + 3)[0] == t[j]);
                    assert(t.subrange(j, j + 3)[1] == t[j + 1]);
                    assert(t.subrange(j, j + 3)[2] == t[j + 2]);
                    assert(chars@[a + j] == '-' && chars@[a + j + 1] == '>' && chars@[a + j + 2]
                        == '>');
                }
            }
            crate::text::lemma_find_sub_is(t, "->>"@, arrow - a);
        }
        return parse_message_into(chars, input, lo, hi, a, b, arrow, d);
    }
    proof {
        crate::text::lemma_find_sub(t, "->>"@);
        if find_sub(t, "->>"@) >= 0 {
            let k = find_sub(t, "->>"@);
            assert(occurs_at(t, "->>"@, k));
            assert(t.subrange(k, k + 3)[0] == t[k]);
            assert(t.subrange(k, k + 3)[1] == t[k + 1]);
            assert(t.subrange(k, k + 3)[2] == t[k + 2]);
            assert(chars@[a + k] == '-' && chars@[a + k + 1] == '>' && chars@[a + k + 2] == '>');
        }
    }
    let linestr = input.substring_char(a, b).to_owned();
    Some(ParseError::UnsupportedLine { line: linestr })
}

/// Parses a note line, `v[a..b)` being the trimmed line content starting
/// with `Note `.
fn parse_note_into(
    chars: &Vec<char>,
    input: &str,
    lo: usize,
    hi: usize,
    a: usize,
    b: usize,
    d: &mut SequenceDiagram,
) -> (r: Option<ParseError>)
    requires
        chars@ == input@,
        lo <= a <= b <= hi <= chars@.len(),
        trimmed(chars@.subrange(lo as int, hi as int)) == chars@.subrange(a as int, b as int),
        starts_with(chars@.subrange(a as int, b as int), "Note "@),
        a + "Note "@.len() <= b,
    ensures
        ({
            let line = chars@.subrange(lo as int, hi as int);
            let t = chars@.subrange(a as int, b as int);
            match r {
                None => parse_note_tail(line, t.skip("Note "@.len() as int), old(d)@)
                    == Ok::<DiagramView, ParseErrorView>(final(d)@),
                Some(e) => parse_note_tail(line, t.skip("Note "@.len() as int), old(d)@)
                    == Err::<DiagramView, ParseErrorView>(e@),
            }
        }),
{
    let ghost line = chars@.subrange(lo as int, hi as int);
    let ghost t = chars@.subrange(a as int, b as int);
    let kw_note = str_to_chars("Note ");
    let rest_lo = a + kw_note.len();
    let ghost rest = chars@.subrange(rest_lo as int, b as int);
    proof {
        assert(t.skip("Note "@.len() as int) =~= rest);
    }
    let kw_right = str_to_chars("right of ");
    let kw_left = str_to_chars("left of ");
    let kw_over = str_to_chars("over ");
    if range_matches(chars, rest_lo, b, &kw_right) {
        proof {
            assert(rest.take("right of "@.len() as int) =~= chars@.subrange(
                rest_lo as int,
                rest_lo + "right of "@.len(),
            ));
            assert(rest.skip("right of "@.len() as int) =~= chars@.subrange(
                rest_lo + "right of "@.len(),
                b as int,
            ));
        }
        return parse_note_body_into(
            chars,
            input,
            lo,
            hi,
            rest_lo + kw_right.len(),
            b,
            NotePosition::Right,
            d,
        );
    }
    proof {
        assert(!starts_with(rest, "right of "@)) by {
            if starts_with(rest, "right of "@) {
                assert(chars@.subrange(rest_lo as int, rest_lo + "right of "@.len()) =~= rest.take(
                    "right of "@.len() as int,
                ));
            }
        }
    }
    if range_matches(chars, rest_lo, b, &kw_left) {
        proof {
            assert(rest.take("left of "@.len() as int) =~= chars@.subrange(
                rest_lo as int,
                rest_lo + "left of "@.len(),
            ));
            assert(rest.skip("left of "@.len() as int) =~= chars@.subrange(
                rest_lo + "left of "@.len(),
                b as int,
            ));
        }
        return parse_note_body_into(
            chars,
            input,
            lo,
            hi,
            rest_lo + kw_left.len(),
            b,
            NotePosition::Left,
            d,
        );
    }
    proof {
        assert(!starts_with(rest, "left of "@)) by {
            if starts_with(rest, "left of "@) {
                assert(chars@.subrange(rest_lo as int, rest_lo + "left of "@.len()) =~= rest.take(
                    "left of "@.len() as int,
                ));
            }
        }
    }
    if range_matches(chars, rest_lo, b, &kw_over) {
        proof {
            assert(rest.take("over "@.len() as int) =~= chars@.subrange(
                rest_lo as int,
                rest_lo + "over "@.len(),
            ));
            assert(rest.skip("over "@.len() as int) =~= chars@.subrange(
                rest_lo + "over "@.len(),
                b as int,
            ));
        }
        return parse_note_body_into(
            chars,
            input,
            lo,
            hi,
            rest_lo + kw_over.len(),
            b,
            NotePosition::Over,
            d,
        );
    }
    proof {
        assert(!starts_with(rest, "over "@)) by {
            if starts_with(rest, "over "@) {
                assert(chars@.subrange(rest_lo as int, rest_lo + "over "@.len()) =~= rest.take(
                    "over "@.len() as int,
                ));
            }
        }
    }
    let linestr = input.substring_char(lo, hi).to_owned();
    Some(ParseError::InvalidNotePosition { line: linestr })
}

/// Parses the `<participants>: <text>` tail of a note line, `[p0, b)` being
/// what follows the position keyword.
fn parse_note_body_into(
    chars: &Vec<char>,
    input: &str,
    lo: usize,
    hi: usize,
    p0: usize,
    b: usize,
    position: NotePosition,
    d: &mut SequenceDiagram,
) -> (r: Option<ParseError>)
    requires
        chars@ == input@,
        lo <= hi <= chars@.len(),
        p0 <= b <= hi,
    ensures
        ({
            let line = chars@.subrange(lo as int, hi as int);
            let after_pos = chars@.subrange(p0 as int, b as int);
            match r {
                None => parse_note_body(line, position, after_pos, old(d)@) == Ok::<
                    DiagramView,
                    ParseErrorView,
                >(final(d)@),
                Some(e) => parse_note_body(line, position, after_pos, old(d)@) == Err::<
                    DiagramView,
                    ParseErrorView,
                >(e@),
            }
        }),
{
    let ghost line = chars@.subrange(lo as int, hi as int);
    let ghost after_pos = chars@.subrange(p0 as int, b as int);
    let colon = find_char_in(chars, p0, b, ':');
    proof {
        if colon < b {
            crate::text::lemma_find_char_is(after_pos, ':', colon - p0);
        } else {
            crate::text::lemma_find_char(after_pos, ':');
            if find_char(after_pos, ':') >= 0 {
                let k = find_char(after_pos, ':');
                assert(chars@[p0 + k] == ':');
            }
        }
    }
    if colon == b {
        let linestr = input.substring_char(lo, hi).to_owned();
        return Some(ParseError::NoteMissingColon { line: linestr });
    }
    let ghost c = colon - p0;
    let (pa, pb) = trim_bounds(chars, p0, colon);
    proof {
        assert(after_pos.take(c as int) =~= chars@.subrange(p0 as int, colon as int));
    }
    let ghost pstr = chars@.subrange(pa as int, pb as int);
    let (ta, tb) = trim_bounds(chars, colon + 1, b);
    proof {
        assert(after_pos.skip(c + 1) =~= chars@.subrange(colon + 1, b as int));
    }
    let ghost text = chars@.subrange(ta as int, tb as int);
    let is_over = matches!(position, NotePosition::Over);
    let comma = find_char_in(chars, pa, pb, ',');
    proof {
        if comma < pb {
            crate::text::lemma_find_char_is(pstr, ',', comma - pa);
        } else {
            crate::text::lemma_find_char(pstr, ',');
            if find_char(pstr, ',') >= 0 {
                let k = find_char(pstr, ',');
                assert(chars@[pa + k] == ',');
            }
        }
    }
    if is_over && comma < pb {
        // exactly two comma-separated names are required
        let comma2 = find_char_in(chars, comma + 1, pb, ',');
        let ghost part0 = chars@.subrange(pa as int, comma as int);
        let ghost part1 = chars@.subrange(comma + 1, pb as int);
        proof {
            if comma2 < pb {
                crate::text::lemma_find_char_is(part1, ',', comma2 - (comma + 1));
            } else {
                crate::text::lemma_find_char(part1, ',');
                if find_char(part1, ',') >= 0 {
                    let k = find_char(part1, ',');
                    assert(chars@[comma + 1 + k] == ',');
                }
            }
            // split_on(pstr, ',') == [part0, part1] when part1 is comma-free
            assert(pstr.take(comma - pa) =~= part0);
            assert(pstr.skip(comma - pa + 1) =~= part1);
        }
        if comma2 < pb {
            proof {
                assert(split_on(pstr, ',').len() != 2) by {
                    let k1 = find_char(pstr, ',');
                    assert(k1 == comma - pa);
                    let tail = pstr.skip(k1 + 1);
                    assert(tail =~= part1);
                    let k2 = find_char(tail, ',');
                    assert(k2 == comma2 - (comma + 1));
                    assert(split_on(pstr, ',') =~= seq![pstr.take(k1)] + split_on(tail, ','));
                    assert(split_on(tail, ',') =~= seq![tail.take(k2)] + split_on(
                        tail.skip(k2 + 1),
                        ',',
                    ));
                    assert(split_on(tail.skip(k2 + 1), ',').len() >= 1);
                }
            }
            let linestr = input.substring_char(lo, hi).to_owned();
            return Some(ParseError::NoteOverParticipants { line: linestr });
        }
        proof {
            assert(split_on(pstr, ',') =~= seq![part0, part1]) by {
                let k1 = find_char(pstr, ',');
                assert(k1 == comma - pa);
                let tail = pstr.skip(k1 + 1);
                assert(tail =~= part1);
                crate::text::lemma_find_char(tail, ',');
                if find_char(tail, ',') >= 0 {
                    let k = find_char(tail, ',');
                    assert(chars@[comma + 1 + k] == ',');
                }
                assert(split_on(pstr, ',') =~= seq![pstr.take(k1)] + split_on(tail, ','));
                assert(split_on(tail, ',') =~= seq![tail]);
                assert(pstr.take(k1) =~= part0);
            }
        }
        let (sa, sb) = trim_bounds(chars, pa, comma);
        let (ea, eb) = trim_bounds(chars, comma + 1, pb);
        let start_name = input.substring_char(sa, sb).to_owned();
        let end_name = input.substring_char(ea, eb).to_owned();
        let start_idx = declare_participant(d, start_name);
        let end_idx = declare_participant(d, end_name);
        let ghost sn = chars@.subrange(sa as int, sb as int);
        proof {
            // the first name keeps its index after the second declaration
            lemma_declared(old(d)@.participants, sn);
            let ps1 = declared(old(d)@.participants, sn);
            lemma_name_index(ps1, sn);
            let k = name_index(ps1, sn);
            assert(d@.participants[k] == sn);
            assert forall|j: int| 0 <= j < k implies d@.participants[j] != sn by {
                assert(d@.participants[j] == ps1[j]);
            }
            lemma_name_index_is(d@.participants, sn, k);
        }
        let text_s = input.substring_char(ta, tb).to_owned();
        let ev = Event::Note {
            position,
            participant_start: start_idx,
            participant_end: end_idx,
            text: text_s,
        };
        proof {
            lemma_deep_push(d.events@, ev);
        }
        d.events.push(ev);
        return None;
    }
    proof {
        if is_over {
            assert(find_char(pstr, ',') < 0);
        }
    }
    if pa == pb {
        let linestr = input.substring_char(lo, hi).to_owned();
        return Some(ParseError::InvalidNote { line: linestr });
    }
    let name = input.substring_char(pa, pb).to_owned();
    let idx = declare_participant(d, name);
    let text_s = input.substring_char(ta, tb).to_owned();
    let ev = Event::Note {
        position,
        participant_start: idx,
        participant_end: idx,
        text: text_s,
    };
    proof {
        lemma_deep_push(d.events@, ev);
    }
    d.events.push(ev);
    None
}

/// Parses a message line, `v[a..b)` being the trimmed line content with an
/// arrow beginning at `arrow`.
fn parse_message_into(
    chars: &Vec<char>,
    input: &str,
    lo: usize,
    hi: usize,
    a: usize,
    b: usize,
    arrow: usize,
    d: &mut SequenceDiagram,
) -> (r: Option<ParseError>)
    requires
        chars@ == input@,
        lo <= a <= b <= hi <= chars@.len(),
        a <= arrow,
        arrow + 3 <= b,
        find_sub(chars@.subrange(a as int, b as int), "->>"@) == arrow - a,
        "->>"@.len() == 3,
    ensures
        ({
            let line = chars@.subrange(lo as int, hi as int);
            let t = chars@.subrange(a as int, b as int);
            match r {
                None => parse_message_tail(line, t, old(d)@) == Ok::<DiagramView, ParseErrorView>(
                    final(d)@,
                ),
                Some(e) => parse_message_tail(line, t, old(d)@) == Err::<
                    DiagramView,
                    ParseErrorView,
                >(e@),
            }
        }),
{
    let ghost line = chars@.subrange(lo as int, hi as int);
    let ghost t = chars@.subrange(a as int, b as int);
    let (fa, fb) = trim_bounds(chars, a, arrow);
    proof {
        assert(t.take(arrow - a) =~= chars@.subrange(a as int, arrow as int));
    }
    let ghost from_name = chars@.subrange(fa as int, fb as int);
    let rest_lo = arrow + 3;
    let ghost rest = chars@.subrange(rest_lo as int, b as int);
    proof {
        assert(t.skip(arrow - a + "->>"@.len()) =~= rest);
    }
    let colon = find_char_in(chars, rest_lo, b, ':');
    proof {
        if colon < b {
            crate::text::lemma_find_char_is(rest, ':', colon - rest_lo);
        } else {
            crate::text::lemma_find_char(rest, ':');
            if find_char(rest, ':') >= 0 {
                let k = find_char(rest, ':');
                assert(chars@[rest_lo + k] == ':');
            }
        }
    }
    if colon == b {
        let linestr = input.substring_char(lo, hi).to_owned();
        return Some(ParseError::MessageMissingColon { line: linestr });
    }
    let (ba, bb) = trim_bounds(chars, rest_lo, colon);
    proof {
        assert(rest.take(colon - rest_lo) =~= chars@.subrange(rest_lo as int, colon as int));
    }
    let ghost to_name = chars@.subrange(ba as int, bb as int);
    let (ma, mb) = trim_bounds(chars, colon + 1, b);
    proof {
        assert(rest.skip(colon - rest_lo + 1) =~= chars@.subrange(colon + 1, b as int));
    }
    if fa == fb || ba == bb {
        let linestr = input.substring_char(lo, hi).to_owned();
        return Some(ParseError::InvalidMessage { line: linestr });
    }
    let from_s = input.substring_char(fa, fb).to_owned();
    let to_s = input.substring_char(ba, bb).to_owned();
    let from_idx = declare_participant(d, from_s);
    let to_idx = declare_participant(d, to_s);
    proof {
        // the sender keeps its index after the receiver's declaration
        lemma_declared(old(d)@.participants, from_name);
        let ps1 = declared(old(d)@.participants, from_name);
        lemma_name_index(ps1, from_name);
        let k = name_index(ps1, from_name);
        assert(d@.participants[k] == from_name);
        assert forall|j: int| 0 <= j < k implies d@.participants[j] != from_name by {
            assert(d@.participants[j] == ps1[j]);
        }
        lemma_name_index_is(d@.participants, from_name, k);
    }
    let text_s = input.substring_char(ma, mb).to_owned();
    let ev = Event::Message { from: from_idx, to: to_idx, text: text_s };
    proof {
        lemma_deep_push(d.events@, ev);
    }
    d.events.push(ev);
    None
}

impl SequenceDiagram {
    /// Serializes this diagram; events whose indices are out of range (which
    /// cannot occur on a well-formed diagram) are skipped silently.
    pub fn to_mermaid(&self) -> (r: String)
        ensures
            r@ == render_mermaid(self@),
    {
        let ghost ps = self@.participants;
        let ghost f = |e: EventView| event_line_opt(e, ps);
        let mut out: String = "sequenceDiagram".to_owned();
        out.append("\n");
        let ghost header: Seq<Seq<char>> = seq!["sequenceDiagram"@];
        proof {
            reveal_strlit("\n");
            assert(header.drop_last() =~= Seq::<Seq<char>>::empty());
            assert(lines_text(Seq::<Seq<char>>::empty()) =~= Seq::<char>::empty());
            assert(lines_text(header) =~= "sequenceDiagram"@ + seq!['\n']);
            assert("\n"@ =~= seq!['\n']);
            assert(out@ =~= lines_text(header));
        }
        let mut i: usize = 0;
        let n = self.participants.len();
        while i < n
            invariant
                i <= n,
                n == self@.participants.len(),
                ps == self@.participants,
                out@ =~= lines_text(
                    header + ps.take(i as int).map_values(|nm: Seq<char>| participant_line(nm)),
                ),
            decreases n - i,
        {
            let ghost lines_before = header + ps.take(i as int).map_values(
                |nm: Seq<char>| participant_line(nm),
            );
            out.append("    participant ");
            out.append(self.participants[i].as_str());
            out.append("\n");
            proof {
                reveal_strlit("\n");
                let lines_now = header + ps.take(i + 1).map_values(
                    |nm: Seq<char>| participant_line(nm),
                );
                assert(lines_now.drop_last() =~= lines_before);
                assert(lines_now.last() =~= participant_line(ps[i as int]));
                assert(out@ =~= lines_text(lines_before) + participant_line(ps[i as int])
                    + seq!['\n']);
                assert(out@ =~= lines_text(lines_now));
            }
            i = i + 1;
        }
        let ghost plines = ps.map_values(|nm: Seq<char>| participant_line(nm));
        proof {
            assert(ps.take(n as int) =~= ps);
            assert(ps.take(n as int).map_values(|nm: Seq<char>| participant_line(nm))
                =~= plines);
        }
        let m = self.events.len();
        let mut j: usize = 0;
        while j < m
            invariant
                j <= m,
                m == self@.events.len(),
                ps == self@.participants,
                f == (|e: EventView| event_line_opt(e, ps)),
                self@.participants.len() == self.participants.len(),
                out@ =~= lines_text(header + plines + self@.events.take(j as int).filter_map(f)),
                plines == ps.map_values(|nm: Seq<char>| participant_line(nm)),
            decreases m - j,
        {
            let ghost lines_before = header + plines + self@.events.take(j as int).filter_map(f);
            let ghost ev = self@.events[j as int];
            match &self.events[j] {
                Event::Message { from, to, text } => {
                    if *from < self.participants.len() && *to < self.participants.len() {
                        out.append("    ");
                        out.append(self.participants[*from].as_str());
                        out.append("->>");
                        out.append(self.participants[*to].as_str());
                        out.append(": ");
                        out.append(text.as_str());
                        out.append("\n");
                    }
                },
                Event::Note { position, participant_start, participant_end, text } => {
                    let over_pair = matches!(position, NotePosition::Over) && *participant_start
                        != *participant_end;
                    if over_pair {
                        if *participant_start < self.participants.len() && *participant_end
                            < self.participants.len() {
                            out.append("    Note ");
                            out.append(position.as_str());
                            out.append(" ");
                            out.append(self.participants[*participant_start].as_str());
                            out.append(",");
                            out.append(self.participants[*participant_end].as_str());
                            out.append(": ");
                            out.append(text.as_str());
                            out.append("\n");
                        }
                    } else {
                        if *participant_start < self.participants.len() {
                            out.append("    Note ");
                            out.append(position.as_str());
                            out.append(" ");
                            out.append(self.participants[*participant_start].as_str());
                            out.append(": ");
                            out.append(text.as_str());
                            out.append("\n");
                        }
                    }
                },
            }
            proof {
                reveal_strlit("\n");
                self@.events.lemma_filter_map_take_succ(f, j as int);
                let lines_now = header + plines + self@.events.take(j + 1).filter_map(f);
                match f(ev) {
                    Some(l) => {
                        assert(lines_now.drop_last() =~= lines_before);
                        assert(lines_now.last() =~= l);
                        assert(out@ =~= lines_text(lines_before) + l + seq!['\n']);
                        assert(out@ =~= lines_text(lines_now));
                    },
                    None => {
                        assert(lines_now =~= lines_before);
                    },
                }
            }
            j = j + 1;
        }
        proof {
            assert(self@.events.take(m as int) =~= self@.events);
            assert(header + plines + self@.events.filter_map(f) =~= mermaid_lines(self@));
        }
        out
    }

    /// Parses the textual format. The first line must be exactly
    /// `sequenceDiagram`; parsing stops at the first malformed line, and no
    /// diagram is returned on failure. Participant names referenced before
    /// being declared are appended in first-seen order.
    #[verifier::rlimit(80)]
    pub fn from_mermaid(input: &str) -> (r: Result<SequenceDiagram, ParseError>)
        ensures
            match r {
                Ok(d) => parse_mermaid(input@) == Ok::<DiagramView, ParseErrorView>(d@)
                    && d@.wf(),
                Err(e) => parse_mermaid(input@) == Err::<DiagramView, ParseErrorView>(e@),
            },
    {
        let chars = str_to_chars(input);
        let n = chars.len();
        if n == 0 {
            return Err(ParseError::MissingHeader);
        }
        let nl = find_newline(&chars, 0);
        let mut h_end = nl;
        if nl < n && nl > 0 && chars[nl - 1] == '\r' {
            h_end = nl - 1;
        }
        proof {
            crate::text::lemma_newline_scan(input@, nl as int);
            let ls = split_lines(input@);
            if nl < n {
                assert(input@.take(nl as int) =~= chars@.subrange(0, nl as int));
                assert(strip_cr(input@.take(nl as int)) =~= chars@.subrange(0, h_end as int));
                assert(ls[0] =~= chars@.subrange(0, h_end as int));
                assert(ls.drop_first() =~= split_lines(input@.skip(nl + 1)));
            } else {
                assert(ls =~= seq![input@]);
                assert(ls[0] =~= chars@.subrange(0, h_end as int));
                assert(input@.skip(n as int) =~= Seq::<char>::empty());
                assert(ls.drop_first() =~= split_lines(input@.skip(n as int)));
            }
        }
        let (ha, hb) = trim_bounds(&chars, 0, h_end);
        let kw_header = str_to_chars("sequenceDiagram");
        let mut header_ok = false;
        if hb - ha == kw_header.len() {
            header_ok = range_matches(&chars, ha, hb, &kw_header);
        }
        proof {
            let ls = split_lines(input@);
            if header_ok {
                assert(chars@.subrange(ha as int, ha + "sequenceDiagram"@.len()) =~= chars@
                    .subrange(ha as int, hb as int));
                assert(trimmed(ls[0]) == "sequenceDiagram"@);
            } else {
                assert(trimmed(ls[0]) != "sequenceDiagram"@) by {
                    if trimmed(ls[0]) == "sequenceDiagram"@ {
                        assert(chars@.subrange(ha as int, hb as int) =~= "sequenceDiagram"@);
                        assert(chars@.subrange(ha as int, ha + "sequenceDiagram"@.len()) =~= chars@
                            .subrange(ha as int, hb as int));
                    }
                }
            }
        }
        if !header_ok {
            return Err(ParseError::MissingHeader);
        }
        let mut d = SequenceDiagram::new();
        let mut pos: usize = n;
        if nl < n {
            pos = nl + 1;
        }
        proof {
            assert(d@ =~= DiagramView::empty());
            assert(parse_mermaid(input@) == parse_lines(
                split_lines(input@.skip(pos as int)),
                d@,
            ));
        }
        while pos < n
            invariant
                pos <= n,
                n == chars@.len(),
                chars@ == input@,
                d@.wf(),
                parse_mermaid(input@) == parse_lines(split_lines(input@.skip(pos as int)), d@),
            decreases n - pos,
        {
            let nl2 = find_newline(&chars, pos);
            let mut c_end = nl2;
            if nl2 < n && nl2 > pos && chars[nl2 - 1] == '\r' {
                c_end = nl2 - 1;
            }
            let ghost s2 = input@.skip(pos as int);
            let ghost line = chars@.subrange(pos as int, c_end as int);
            let ghost next_pos: int = if nl2 < n {
                nl2 + 1
            } else {
                n as int
            };
            proof {
                assert forall|j: int| 0 <= j < nl2 - pos implies s2[j] != '\n' by {
                    assert(s2[j] == input@[pos + j]);
                }
                if nl2 < n {
                    assert(s2[nl2 - pos] == '\n');
                }
                crate::text::lemma_newline_scan(s2, nl2 - pos);
                let ls2 = split_lines(s2);
                if nl2 < n {
                    assert(s2.take(nl2 - pos) =~= chars@.subrange(pos as int, nl2 as int));
                    assert(strip_cr(s2.take(nl2 - pos)) =~= line);
                    assert(ls2[0] =~= line);
                    assert(s2.skip(nl2 - pos + 1) =~= input@.skip(next_pos));
                    assert(ls2.drop_first() =~= split_lines(input@.skip(next_pos)));
                } else {
                    assert(c_end == n);
                    assert(ls2 =~= seq![s2]);
                    assert(ls2[0] =~= line);
                    assert(input@.skip(next_pos) =~= Seq::<char>::empty());
                    assert(ls2.drop_first() =~= split_lines(input@.skip(next_pos)));
                }
            }
            let ghost d_before = d@;
            let err = parse_line_into(&chars, input, pos, c_end, &mut d);
            if let Some(e) = err {
                proof {
                    let ls2 = split_lines(s2);
                    assert(parse_lines(ls2, d_before) == Err::<DiagramView, ParseErrorView>(e@));
                }
                return Err(e);
            }
            proof {
                let ls2 = split_lines(s2);
                assert(parse_body_line(line, d_before) == Ok::<DiagramView, ParseErrorView>(d@));
                lemma_parse_body_line_wf(line, d_before);
                assert(parse_lines(ls2, d_before) == parse_lines(
                    split_lines(input@.skip(next_pos)),
                    d@,
                ));
            }
            if nl2 < n {
                pos = nl2 + 1;
            } else {
                pos = n;
            }
        }
        proof {
            assert(input@.skip(n as int) =~= Seq::<char>::empty());
            assert(split_lines(input@.skip(pos as int)) =~= Seq::<Seq<char>>::empty());
        }
        Ok(d)
    }
}

} // verus!
