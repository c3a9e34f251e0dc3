//! The codec round trip: serializing an exportable diagram and parsing the
//! text back yields the same diagram, participant for participant and event
//! for event.

use vstd::prelude::*;

use crate::codec::{
    declared, event_line_opt, mermaid_lines, name_index, parse_body_line, parse_lines,
    parse_mermaid, parse_message_tail, parse_note_body, parse_note_tail, participant_line,
    render_mermaid, split_on, ParseErrorView,
};
use crate::model::{DiagramView, EventView, NotePosition};
use crate::text::{
    find_char, find_sub, is_ws, lemma_find_char, lemma_find_char_is, lemma_find_sub_is,
    lemma_split_lines_text, lemma_trim_back_take, lemma_trim_front_skip, lemma_trim_padded,
    lemma_trim_stable, occurs_at, split_lines, starts_with, trim_stable, trimmed,
};

verus! {

/// A participant name the textual format can carry faithfully: nonempty, no
/// surrounding whitespace, and free of the characters and prefixes that the
/// grammar gives meaning to.
pub open spec fn name_ok(n: Seq<char>) -> bool {
    &&& n.len() > 0
    &&& !is_ws(n[0])
    &&& !is_ws(n.last())
    &&& forall|i: int| 0 <= i < n.len() ==> #[trigger] n[i] != '\n' && n[i] != ':' && n[i] != ','
    &&& forall|i: int| !occurs_at(n, "->>"@, i)
    &&& !starts_with(n, "participant "@)
    &&& !starts_with(n, "Note "@)
    &&& !starts_with(n, "%%"@)
}

/// An event text the textual format can carry faithfully: no newlines and no
/// surrounding whitespace (which serialization would not preserve).
pub open spec fn text_ok(t: Seq<char>) -> bool {
    &&& t.len() == 0 || (!is_ws(t[0]) && !is_ws(t.last()))
    &&& forall|i: int| 0 <= i < t.len() ==> #[trigger] t[i] != '\n'
}

/// The text carried by an event.
pub open spec fn event_text(e: EventView) -> Seq<char> {
    match e {
        EventView::Message { text, .. } => text,
        EventView::Note { text, .. } => text,
    }
}

/// A right-of or left-of note annotates a single participant.
pub open spec fn note_shape_ok(e: EventView) -> bool {
    match e {
        EventView::Message { .. } => true,
        EventView::Note { position, participant_start, participant_end, .. } => position
            == NotePosition::Over || participant_start == participant_end,
    }
}

/// A diagram the textual format represents faithfully: well formed, with
/// pairwise distinct well-behaved names, well-behaved event texts, and
/// single-participant right/left notes.
pub open spec fn exportable(d: DiagramView) -> bool {
    &&& d.wf()
    &&& forall|i: int| 0 <= i < d.participants.len() ==> name_ok(#[trigger] d.participants[i])
    &&& forall|i: int, j: int|
        0 <= i < j < d.participants.len() ==> d.participants[i] != d.participants[j]
    &&& forall|i: int| 0 <= i < d.events.len() ==> text_ok(event_text(#[trigger] d.events[i]))
    &&& forall|i: int| 0 <= i < d.events.len() ==> note_shape_ok(#[trigger] d.events[i])
}

/// With pairwise distinct names, each name's first index is its position.
proof fn lemma_distinct_name_index(ps: Seq<Seq<char>>, i: int)
    requires
        forall|a: int, b: int| 0 <= a < b < ps.len() ==> ps[a] != ps[b],
        0 <= i < ps.len(),
    ensures
        ps.contains(ps[i]),
        name_index(ps, ps[i]) == i,
{
    assert(ps.contains(ps[i]));
    crate::codec::lemma_name_index_is(ps, ps[i], i);
}

/// The `: <text>` tail of a serialized event line, after line trimming.
pub open spec fn tail_for(text: Seq<char>) -> Seq<char> {
    if text.len() > 0 {
        ": "@ + text
    } else {
        seq![':']
    }
}

/// Shared facts about the tail: it begins with the colon, and what follows
/// the colon trims back to the text.
proof fn lemma_tail_parse(text: Seq<char>)
    requires
        text_ok(text),
    ensures
        tail_for(text).len() > 0,
        tail_for(text)[0] == ':',
        trimmed(tail_for(text).skip(1)) =~= text,
{
    reveal_strlit(": ");
    let tail = tail_for(text);
    if text.len() > 0 {
        assert(tail[0] == ':');
        assert(tail.skip(1) =~= seq![' '] + text);
        assert(is_ws(' '));
        lemma_trim_padded(seq![' '], text);
    } else {
        assert(tail =~= seq![':']);
        assert(tail.skip(1) =~= Seq::<char>::empty());
        lemma_trim_stable(Seq::<char>::empty());
    }
}

/// Trimming a serialized event or participant line: the four-space indent
/// goes, the trailing space of an empty text goes, the core stays.
proof fn lemma_trim_core_line(x: Seq<char>, text: Seq<char>)
    requires
        x.len() > 0,
        !is_ws(x[0]),
        text_ok(text),
    ensures
        trimmed("    "@ + (x + ": "@ + text)) =~= x + tail_for(text),
{
    reveal_strlit("    ");
    reveal_strlit(": ");
    let core = x + ": "@ + text;
    let l = "    "@ + core;
    assert(forall|j: int| 0 <= j < "    "@.len() ==> is_ws(#[trigger] "    "@[j]));
    assert(l[4] == x[0]);
    lemma_trim_front_skip(l, 4);
    assert(l.skip(4) =~= core);
    if text.len() > 0 {
        assert(core.last() == text.last());
        lemma_trim_back_take(core, core.len() as int);
        assert(core.take(core.len() as int) =~= core);
        assert(core =~= x + tail_for(text));
    } else {
        assert(core =~= x + seq![':', ' ']);
        assert(core.last() == ' ');
        assert(core.drop_last() =~= x + seq![':']);
        assert(core.drop_last().last() == ':');
        assert(!is_ws(':'));
        lemma_trim_back_take(core, core.len() - 1);
        assert(core.take(core.len() - 1) =~= x + seq![':']);
        assert(x + tail_for(text) =~= x + seq![':']);
    }
}

proof fn lemma_no_dash_in_keywords()
    ensures
        forall|j: int|
            0 <= j < "participant "@.len() ==> #[trigger] "participant "@[j] != '-',
        forall|j: int| 0 <= j < "Note "@.len() ==> #[trigger] "Note "@[j] != '-',
{
    reveal_strlit("participant ");
    reveal_strlit("Note ");
    assert forall|j: int|
        0 <= j < "participant "@.len() implies #[trigger] "participant "@[j] != '-' by {
        if j == 0 {
        } else if j == 1 {
        } else if j == 2 {
        } else if j == 3 {
        } else if j == 4 {
        } else if j == 5 {
        } else if j == 6 {
        } else if j == 7 {
        } else if j == 8 {
        } else if j == 9 {
        } else if j == 10 {
        } else {
        }
    }
    assert forall|j: int| 0 <= j < "Note "@.len() implies #[trigger] "Note "@[j] != '-' by {
        if j == 0 {
        } else if j == 1 {
        } else if j == 2 {
        } else if j == 3 {
        } else {
        }
    }
}

/// The first arrow of `a ->> suffix` sits right after `a` when `a` itself is
/// arrow-free.
proof fn lemma_find_arrow_at(a: Seq<char>, suffix: Seq<char>)
    requires
        forall|i: int| !occurs_at(a, "->>"@, i),
    ensures
        find_sub(a + "->>"@ + suffix, "->>"@) == a.len(),
{
    reveal_strlit("->>");
    let ar = "->>"@;
    let t = a + ar + suffix;
    assert(occurs_at(t, ar, a.len() as int)) by {
        assert(t.subrange(a.len() as int, a.len() as int + 3) =~= ar);
    }
    assert forall|j: int| 0 <= j < a.len() implies !occurs_at(t, ar, j) by {
        if occurs_at(t, ar, j) {
            assert(t.subrange(j, j + 3)[0] == t[j]);
            assert(t.subrange(j, j + 3)[1] == t[j + 1]);
            assert(t.subrange(j, j + 3)[2] == t[j + 2]);
            if j + 3 <= a.len() {
                assert(occurs_at(a, ar, j)) by {
                    assert(a.subrange(j, j + 3) =~= t.subrange(j, j + 3));
                }
            } else if j == a.len() - 1 {
                assert(t[j + 1] == '-');
            } else {
                assert(j == a.len() - 2);
                assert(t[j + 2] == '-');
            }
        }
    }
    lemma_find_sub_is(t, ar, a.len() as int);
}

/// A trimmed line that begins with an arrow-free name followed by `-` is
/// neither a comment nor a `participant` nor a `Note` line.
proof fn lemma_name_dash_prefix_excluded(n: Seq<char>, t: Seq<char>)
    requires
        name_ok(n),
        t.len() > n.len(),
        forall|j: int| 0 <= j < n.len() ==> t[j] == n[j],
        t[n.len() as int] == '-',
    ensures
        !starts_with(t, "%%"@),
        !starts_with(t, "participant "@),
        !starts_with(t, "Note "@),
{
    reveal_strlit("%%");
    lemma_no_dash_in_keywords();
    if starts_with(t, "%%"@) {
        assert(t.take(2)[0] == t[0] && t.take(2)[1] == t[1]);
        if n.len() >= 2 {
            assert(n.take(2) =~= t.take(2));
        } else {
            assert(t[1] == '-');
        }
    }
    if starts_with(t, "participant "@) {
        let p = "participant "@;
        assert(t.take(p.len() as int) =~= p);
        if n.len() >= p.len() {
            assert(n.take(p.len() as int) =~= t.take(p.len() as int));
        } else {
            assert(t.take(p.len() as int)[n.len() as int] == t[n.len() as int]);
            assert(p[n.len() as int] == '-');
        }
    }
    if starts_with(t, "Note "@) {
        let p = "Note "@;
        assert(t.take(p.len() as int) =~= p);
        if n.len() >= p.len() {
            assert(n.take(p.len() as int) =~= t.take(p.len() as int));
        } else {
            assert(t.take(p.len() as int)[n.len() as int] == t[n.len() as int]);
            assert(p[n.len() as int] == '-');
        }
    }
}

/// Parsing the serialized line of a message gives back exactly that message.
proof fn lemma_parse_message_line(
    ps: Seq<Seq<char>>,
    from: usize,
    to: usize,
    text: Seq<char>,
    acc: DiagramView,
)
    requires
        forall|i: int| 0 <= i < ps.len() ==> name_ok(#[trigger] ps[i]),
        forall|a: int, b: int| 0 <= a < b < ps.len() ==> ps[a] != ps[b],
        from < ps.len(),
        to < ps.len(),
        text_ok(text),
        acc.participants == ps,
    ensures
        parse_body_line("    "@ + ((ps[from as int] + "->>"@ + ps[to as int]) + ": "@ + text), acc)
            == Ok::<DiagramView, ParseErrorView>(
            DiagramView {
                participants: ps,
                events: acc.events.push(EventView::Message { from, to, text }),
            },
        ),
{
    reveal_strlit("->>");
    let a = ps[from as int];
    let b = ps[to as int];
    let x = a + "->>"@ + b;
    let l = "    "@ + (x + ": "@ + text);
    lemma_trim_core_line(x, text);
    let t = x + tail_for(text);
    assert(trimmed(l) == t);
    let suffix = b + tail_for(text);
    assert(t =~= a + "->>"@ + suffix);
    lemma_tail_parse(text);
    assert(t.len() > 0);
    assert forall|j: int| 0 <= j < a.len() implies t[j] == a[j] by {}
    assert(t[a.len() as int] == '-');
    lemma_name_dash_prefix_excluded(a, t);
    lemma_find_arrow_at(a, suffix);
    let arrow = find_sub(t, "->>"@);
    assert(arrow == a.len());
    assert(t.take(arrow) =~= a);
    lemma_trim_stable(a);
    assert(t.skip(arrow + 3) =~= suffix);
    // the first colon of the remainder sits right after the receiver's name
    assert(suffix[b.len() as int] == ':');
    assert forall|j: int| 0 <= j < b.len() implies suffix[j] != ':' by {
        assert(suffix[j] == b[j]);
    }
    lemma_find_char_is(suffix, ':', b.len() as int);
    assert(suffix.take(b.len() as int) =~= b);
    lemma_trim_stable(b);
    assert(suffix.skip(b.len() as int + 1) =~= tail_for(text).skip(1));
    lemma_distinct_name_index(ps, from as int);
    lemma_distinct_name_index(ps, to as int);
    assert(declared(ps, a) == ps);
    assert(declared(ps, b) == ps);
    let got = parse_message_tail(l, t, acc);
    assert(got is Ok);
    assert(got->Ok_0 =~= DiagramView {
        participants: ps,
        events: acc.events.push(EventView::Message { from, to, text }),
    });
}

/// Parsing the serialized line of a single-participant note gives back
/// exactly that note.
#[verifier::rlimit(100)]
#[verifier::spinoff_prover]
proof fn lemma_parse_note_single_line(
    ps: Seq<Seq<char>>,
    position: NotePosition,
    idx: usize,
    text: Seq<char>,
    acc: DiagramView,
)
    requires
        forall|i: int| 0 <= i < ps.len() ==> name_ok(#[trigger] ps[i]),
        forall|a: int, b: int| 0 <= a < b < ps.len() ==> ps[a] != ps[b],
        idx < ps.len(),
        text_ok(text),
        acc.participants == ps,
    ensures
        parse_body_line(
            "    "@ + (("Note "@ + position.keyword() + " "@ + ps[idx as int]) + ": "@ + text),
            acc,
        ) == Ok::<DiagramView, ParseErrorView>(
            DiagramView {
                participants: ps,
                events: acc.events.push(
                    EventView::Note {
                        position,
                        participant_start: idx,
                        participant_end: idx,
                        text,
                    },
                ),
            },
        ),
{
    reveal_strlit("Note ");
    reveal_strlit("participant ");
    reveal_strlit("%%");
    reveal_strlit("right of");
    reveal_strlit("left of");
    reveal_strlit("over");
    reveal_strlit("right of ");
    reveal_strlit("left of ");
    reveal_strlit("over ");
    reveal_strlit(" ");
    let n = ps[idx as int];
    let kw = position.keyword();
    let x = "Note "@ + kw + " "@ + n;
    let l = "    "@ + (x + ": "@ + text);
    assert(!is_ws(x[0]));
    lemma_trim_core_line(x, text);
    let t = x + tail_for(text);
    assert(trimmed(l) == t);
    lemma_tail_parse(text);
    assert(t.len() > 0);
    assert(t[0] == 'N');
    assert(!starts_with(t, "%%"@)) by {
        if starts_with(t, "%%"@) {
            assert(t.take(2)[0] == t[0]);
        }
    }
    assert(!starts_with(t, "participant "@)) by {
        if starts_with(t, "participant "@) {
            assert(t.take("participant "@.len() as int)[0] == t[0]);
        }
    }
    assert(starts_with(t, "Note "@)) by {
        assert(t.take("Note "@.len() as int) =~= "Note "@);
    }
    let rest0 = t.skip("Note "@.len() as int);
    assert(rest0 =~= kw + " "@ + n + tail_for(text));
    let after_pos = n + tail_for(text);
    match position {
        NotePosition::Right => {
            assert(rest0 =~= "right of "@ + after_pos);
            assert(starts_with(rest0, "right of "@)) by {
                assert(rest0.take("right of "@.len() as int) =~= "right of "@);
            }
            assert(rest0.skip("right of "@.len() as int) =~= after_pos);
        },
        NotePosition::Left => {
            assert(rest0 =~= "left of "@ + after_pos);
            assert(rest0[0] == 'l');
            assert(!starts_with(rest0, "right of "@)) by {
                if starts_with(rest0, "right of "@) {
                    assert(rest0.take("right of "@.len() as int)[0] == rest0[0]);
                }
            }
            assert(starts_with(rest0, "left of "@)) by {
                assert(rest0.take("left of "@.len() as int) =~= "left of "@);
            }
            assert(rest0.skip("left of "@.len() as int) =~= after_pos);
        },
        NotePosition::Over => {
            assert(rest0 =~= "over "@ + after_pos);
            assert(rest0[0] == 'o');
            assert(!starts_with(rest0, "right of "@)) by {
                if starts_with(rest0, "right of "@) {
                    assert(rest0.take("right of "@.len() as int)[0] == rest0[0]);
                }
            }
            assert(!starts_with(rest0, "left of "@)) by {
                if starts_with(rest0, "left of "@) {
                    assert(rest0.take("left of "@.len() as int)[0] == rest0[0]);
                }
            }
            assert(starts_with(rest0, "over "@)) by {
                assert(rest0.take("over "@.len() as int) =~= "over "@);
            }
            assert(rest0.skip("over "@.len() as int) =~= after_pos);
        },
    }
    // the colon sits right after the name
    assert(after_pos[n.len() as int] == ':');
    assert forall|j: int| 0 <= j < n.len() implies after_pos[j] != ':' by {
        assert(after_pos[j] == n[j]);
    }
    lemma_find_char_is(after_pos, ':', n.len() as int);
    assert(after_pos.take(n.len() as int) =~= n);
    lemma_trim_stable(n);
    assert(after_pos.skip(n.len() as int + 1) =~= tail_for(text).skip(1));
    // a single name has no comma
    lemma_find_char(n, ',');
    if find_char(n, ',') >= 0 {
        assert(n[find_char(n, ',')] == ',');
    }
    lemma_distinct_name_index(ps, idx as int);
    assert(declared(ps, n) == ps);
    let got = parse_note_body(l, position, after_pos, acc);
    assert(got is Ok);
    assert(got->Ok_0 =~= DiagramView {
        participants: ps,
        events: acc.events.push(
            EventView::Note { position, participant_start: idx, participant_end: idx, text },
        ),
    });
    assert(parse_note_tail(l, rest0, acc) == got);
}

/// Parsing the serialized line of an over-note spanning two participants
/// gives back exactly that note.
#[verifier::rlimit(100)]
#[verifier::spinoff_prover]
proof fn lemma_parse_note_pair_line(
    ps: Seq<Seq<char>>,
    s_idx: usize,
    e_idx: usize,
    text: Seq<char>,
    acc: DiagramView,
)
    requires
        forall|i: int| 0 <= i < ps.len() ==> name_ok(#[trigger] ps[i]),
        forall|a: int, b: int| 0 <= a < b < ps.len() ==> ps[a] != ps[b],
        s_idx < ps.len(),
        e_idx < ps.len(),
        s_idx != e_idx,
        text_ok(text),
        acc.participants == ps,
    ensures
        parse_body_line(
            "    "@ + (("Note "@ + NotePosition::Over.keyword() + " "@ + ps[s_idx as int] + ","@
                + ps[e_idx as int]) + ": "@ + text),
            acc,
        ) == Ok::<DiagramView, ParseErrorView>(
            DiagramView {
                participants: ps,
                events: acc.events.push(
                    EventView::Note {
                        position: NotePosition::Over,
                        participant_start: s_idx,
                        participant_end: e_idx,
                        text,
                    },
                ),
            },
        ),
{
    reveal_strlit("Note ");
    reveal_strlit("participant ");
    reveal_strlit("%%");
    reveal_strlit("right of");
    reveal_strlit("left of");
    reveal_strlit("over");
    reveal_strlit("right of ");
    reveal_strlit("left of ");
    reveal_strlit("over ");
    reveal_strlit(" ");
    reveal_strlit(",");
    let a = ps[s_idx as int];
    let b = ps[e_idx as int];
    let kw = NotePosition::Over.keyword();
    let x = "Note "@ + kw + " "@ + a + ","@ + b;
    let l = "    "@ + (x + ": "@ + text);
    assert(!is_ws(x[0]));
    lemma_trim_core_line(x, text);
    let t = x + tail_for(text);
    assert(trimmed(l) == t);
    lemma_tail_parse(text);
    assert(t.len() > 0);
    assert(t[0] == 'N');
    assert(!starts_with(t, "%%"@)) by {
        if starts_with(t, "%%"@) {
            assert(t.take(2)[0] == t[0]);
        }
    }
    assert(!starts_with(t, "participant "@)) by {
        if starts_with(t, "participant "@) {
            assert(t.take("participant "@.len() as int)[0] == t[0]);
        }
    }
    assert(starts_with(t, "Note "@)) by {
        assert(t.take("Note "@.len() as int) =~= "Note "@);
    }
    let rest0 = t.skip("Note "@.len() as int);
    let after_pos = a + seq![','] + b + tail_for(text);
    assert(rest0 =~= "over "@ + after_pos);
    assert(rest0[0] == 'o');
    assert(!starts_with(rest0, "right of "@)) by {
        if starts_with(rest0, "right of "@) {
            assert(rest0.take("right of "@.len() as int)[0] == rest0[0]);
        }
    }
    assert(!starts_with(rest0, "left of "@)) by {
        if starts_with(rest0, "left of "@) {
            assert(rest0.take("left of "@.len() as int)[0] == rest0[0]);
        }
    }
    assert(starts_with(rest0, "over "@)) by {
        assert(rest0.take("over "@.len() as int) =~= "over "@);
    }
    assert(rest0.skip("over "@.len() as int) =~= after_pos);
    // the colon follows both names and the comma
    let plen = a.len() + 1 + b.len();
    assert(after_pos[plen as int] == ':');
    assert forall|j: int| 0 <= j < plen implies after_pos[j] != ':' by {
        if j < a.len() {
            assert(after_pos[j] == a[j]);
        } else if j == a.len() {
            assert(after_pos[j] == ',');
        } else {
            assert(after_pos[j] == b[j - a.len() - 1]);
        }
    }
    lemma_find_char_is(after_pos, ':', plen as int);
    let pstr_raw = after_pos.take(plen as int);
    assert(pstr_raw =~= a + seq![','] + b);
    assert(trim_stable(pstr_raw)) by {
        assert(pstr_raw[0] == a[0]);
        assert(pstr_raw.last() == b.last());
    }
    lemma_trim_stable(pstr_raw);
    let pstr = a + seq![','] + b;
    assert(trimmed(after_pos.take(plen as int)) == pstr);
    assert(after_pos.skip(plen as int + 1) =~= tail_for(text).skip(1));
    // the comma sits right after the first name, and there is only one
    assert(pstr[a.len() as int] == ',');
    assert forall|j: int| 0 <= j < a.len() implies pstr[j] != ',' by {
        assert(pstr[j] == a[j]);
    }
    lemma_find_char_is(pstr, ',', a.len() as int);
    assert(pstr.take(a.len() as int) =~= a);
    assert(pstr.skip(a.len() as int + 1) =~= b);
    lemma_find_char(b, ',');
    if find_char(b, ',') >= 0 {
        assert(b[find_char(b, ',')] == ',');
    }
    assert(split_on(pstr, ',') =~= seq![a, b]) by {
        assert(split_on(b, ',') =~= seq![b]);
    }
    lemma_trim_stable(a);
    lemma_trim_stable(b);
    lemma_distinct_name_index(ps, s_idx as int);
    lemma_distinct_name_index(ps, e_idx as int);
    assert(declared(ps, a) == ps);
    assert(declared(ps, b) == ps);
    let got = parse_note_body(l, NotePosition::Over, after_pos, acc);
    assert(got is Ok);
    assert(got->Ok_0 =~= DiagramView {
        participants: ps,
        events: acc.events.push(
            EventView::Note {
                position: NotePosition::Over,
                participant_start: s_idx,
                participant_end: e_idx,
                text,
            },
        ),
    });
    assert(parse_note_tail(l, rest0, acc) == got);
}


/// No character of `s` is a newline.
pub open spec fn no_nl(s: Seq<char>) -> bool {
    forall|i: int| 0 <= i < s.len() ==> #[trigger] s[i] != '\n'
}

proof fn lemma_literals_no_nl()
    ensures
        no_nl("sequenceDiagram"@),
        no_nl("    participant "@),
        no_nl("    "@),
        no_nl("->>"@),
        no_nl(": "@),
        no_nl("Note "@),
        no_nl("right of"@),
        no_nl("left of"@),
        no_nl("over"@),
        no_nl(" "@),
        no_nl(","@),
{
    reveal_strlit("sequenceDiagram");
    reveal_strlit("    participant ");
    reveal_strlit("    ");
    reveal_strlit("->>");
    reveal_strlit(": ");
    reveal_strlit("Note ");
    reveal_strlit("    Note ");
    reveal_strlit("right of");
    reveal_strlit("left of");
    reveal_strlit("over");
    reveal_strlit(" ");
    reveal_strlit(",");
    assert forall|j: int| 0 <= j < "sequenceDiagram"@.len() implies #[trigger] "sequenceDiagram"@[j] != '\n' by {
        if j == 0 {
        } else if j == 1 {
        } else if j == 2 {
        } else if j == 3 {
        } else if j == 4 {
        } else if j == 5 {
        } else if j == 6 {
        } else if j == 7 {
        } else if j == 8 {
        } else if j == 9 {
        } else if j == 10 {
        } else if j == 11 {
        } else if j == 12 {
        } else if j == 13 {
        } else {
        }
    }
    assert forall|j: int| 0 <= j < "    participant "@.len() implies #[trigger] "    participant "@[j] != '\n' by {
        if j == 0 {
        } else if j == 1 {
        } else if j == 2 {
        } else if j == 3 {
        } else if j == 4 {
        } else if j == 5 {
        } else if j == 6 {
        } else if j == 7 {
        } else if j == 8 {
        } else if j == 9 {
        } else if j == 10 {
        } else if j == 11 {
        } else if j == 12 {
        } else if j == 13 {
        } else if j == 14 {
        } else {
        }
    }
    assert forall|j: int| 0 <= j < "    "@.len() implies #[trigger] "    "@[j] != '\n' by {
        if j == 0 {
        } else if j == 1 {
        } else if j == 2 {
        } else {
        }
    }
    assert forall|j: int| 0 <= j < "->>"@.len() implies #[trigger] "->>"@[j] != '\n' by {
        if j == 0 {
        } else if j == 1 {
        } else {
        }
    }
    assert forall|j: int| 0 <= j < ": "@.len() implies #[trigger] ": "@[j] != '\n' by {
        if j == 0 {
        } else {
        }
    }
    assert forall|j: int| 0 <= j < "Note "@.len() implies #[trigger] "Note "@[j] != '\n' by {
        if j == 0 {
        } else if j == 1 {
        } else if j == 2 {
        } else if j == 3 {
        } else {
        }
    }
    assert forall|j: int| 0 <= j < "right of"@.len() implies #[trigger] "right of"@[j] != '\n' by {
        if j == 0 {
        } else if j == 1 {
        } else if j == 2 {
        } else if j == 3 {
        } else if j == 4 {
        } else if j == 5 {
        } else if j == 6 {
        } else {
        }
    }
    assert forall|j: int| 0 <= j < "left of"@.len() implies #[trigger] "left of"@[j] != '\n' by {
        if j == 0 {
        } else if j == 1 {
        } else if j == 2 {
        } else if j == 3 {
        } else if j == 4 {
        } else if j == 5 {
        } else {
        }
    }
    assert forall|j: int| 0 <= j < "over"@.len() implies #[trigger] "over"@[j] != '\n' by {
        if j == 0 {
        } else if j == 1 {
        } else if j == 2 {
        } else {
        }
    }
    assert forall|j: int| 0 <= j < " "@.len() implies #[trigger] " "@[j] != '\n' by {
        if j == 0 {
        }
    }
    assert forall|j: int| 0 <= j < ","@.len() implies #[trigger] ","@[j] != '\n' by {
        if j == 0 {
        }
    }
}

/// Concatenation keeps newline-freedom.
proof fn lemma_no_nl_concat(a: Seq<char>, b: Seq<char>)
    requires
        no_nl(a),
        no_nl(b),
    ensures
        no_nl(a + b),
{
    assert forall|i: int| 0 <= i < (a + b).len() implies #[trigger] (a + b)[i] != '\n' by {
        if i < a.len() {
            assert((a + b)[i] == a[i]);
        } else {
            assert((a + b)[i] == b[i - a.len()]);
        }
    }
}

/// Parsing a serialized participant declaration appends exactly the next
/// name.
proof fn lemma_parse_participant_decl(ps: Seq<Seq<char>>, k: int, acc: DiagramView)
    requires
        forall|i: int| 0 <= i < ps.len() ==> name_ok(#[trigger] ps[i]),
        forall|a: int, b: int| 0 <= a < b < ps.len() ==> ps[a] != ps[b],
        0 <= k < ps.len(),
        acc.participants == ps.take(k),
    ensures
        parse_body_line(participant_line(ps[k]), acc) == Ok::<DiagramView, ParseErrorView>(
            DiagramView { participants: ps.take(k + 1), events: acc.events },
        ),
{
    reveal_strlit("    participant ");
    reveal_strlit("    ");
    reveal_strlit("participant ");
    reveal_strlit("%%");
    let n = ps[k];
    let l = participant_line(n);
    let core = "participant "@ + n;
    assert(l =~= "    "@ + core);
    assert(forall|j: int| 0 <= j < "    "@.len() ==> is_ws(#[trigger] "    "@[j]));
    assert(trim_stable(core)) by {
        assert(core[0] == 'p');
        assert(core.last() == n.last());
    }
    lemma_trim_padded("    "@, core);
    let t = core;
    assert(trimmed(l) == t);
    assert(t.len() > 0);
    assert(t[0] == 'p');
    assert(!starts_with(t, "%%"@)) by {
        if starts_with(t, "%%"@) {
            assert(t.take(2)[0] == t[0]);
        }
    }
    assert(starts_with(t, "participant "@)) by {
        assert(t.take("participant "@.len() as int) =~= "participant "@);
    }
    assert(t.skip("participant "@.len() as int) =~= n);
    lemma_trim_stable(n);
    assert(!ps.take(k).contains(n)) by {
        if ps.take(k).contains(n) {
            let j = choose|j: int| 0 <= j < k && ps.take(k)[j] == n;
            assert(ps[j] == ps[k]);
        }
    }
    assert(declared(ps.take(k), n) =~= ps.take(k + 1)) by {
        assert(ps.take(k).push(n) =~= ps.take(k + 1));
    }
}

/// Front decomposition of `filter_map` over a suffix.
proof fn lemma_filter_map_skip_first<A, B>(s: Seq<A>, f: spec_fn(A) -> Option<B>, k: int)
    requires
        0 <= k < s.len(),
    ensures
        s.skip(k).filter_map(f) =~= (match f(s[k]) {
            Option::Some(b) => seq![b] + s.skip(k + 1).filter_map(f),
            Option::None => s.skip(k + 1).filter_map(f),
        }),
    decreases s.len(),
{
    if k + 1 == s.len() {
        assert(s.skip(k) =~= seq![s[k]]);
        Seq::<A>::lemma_filter_map_singleton(s[k], f);
        assert(s.skip(k + 1) =~= Seq::<A>::empty());
        match f(s[k]) {
            Option::Some(b) => {
                assert(s.skip(k).filter_map(f) =~= seq![b] + s.skip(k + 1).filter_map(f));
            },
            Option::None => {
                assert(s.skip(k).filter_map(f) =~= s.skip(k + 1).filter_map(f));
            },
        }
    } else {
        let t = s.drop_last();
        lemma_filter_map_skip_first(t, f, k);
        let u = s.skip(k);
        let w = s.skip(k + 1);
        assert(u.drop_last() =~= t.skip(k));
        assert(u.last() == s.last());
        assert(w.drop_last() =~= t.skip(k + 1));
        assert(w.last() == s.last());
        assert(t[k] == s[k]);
        match f(s.last()) {
            Option::Some(lb) => {
                assert(u.filter_map(f) =~= u.drop_last().filter_map(f) + seq![lb]);
                assert(w.filter_map(f) =~= w.drop_last().filter_map(f) + seq![lb]);
            },
            Option::None => {
                assert(u.filter_map(f) =~= u.drop_last().filter_map(f));
                assert(w.filter_map(f) =~= w.drop_last().filter_map(f));
            },
        }
        match f(s[k]) {
            Option::Some(b) => {
                assert(u.filter_map(f) =~= seq![b] + w.filter_map(f));
            },
            Option::None => {
                assert(u.filter_map(f) =~= w.filter_map(f));
            },
        }
    }
}

/// Folding the serialized event lines from position `k` onward over the
/// diagram whose first `k` events are already in place reconstructs `d`.
#[verifier::rlimit(100)]
#[verifier::spinoff_prover]
proof fn lemma_parse_event_lines(d: DiagramView, k: int)
    requires
        exportable(d),
        0 <= k <= d.events.len(),
    ensures
        parse_lines(
            d.events.skip(k).filter_map(|e: EventView| event_line_opt(e, d.participants)),
            DiagramView { participants: d.participants, events: d.events.take(k) },
        ) == Ok::<DiagramView, ParseErrorView>(d),
    decreases d.events.len() - k,
{
    reveal_strlit("    Note ");
    reveal_strlit("    ");
    reveal_strlit("Note ");
    assert("    Note "@ =~= "    "@ + "Note "@);
    let f = |e: EventView| event_line_opt(e, d.participants);
    let acc = DiagramView { participants: d.participants, events: d.events.take(k) };
    if k == d.events.len() {
        assert(d.events.skip(k) =~= Seq::<EventView>::empty());
        assert(Seq::<EventView>::empty().filter_map(f) =~= Seq::<Seq<char>>::empty());
        assert(acc =~= d);
    } else {
        let e = d.events[k];
        assert(e.wf(d.participants.len()));
        assert(text_ok(event_text(e)));
        assert(note_shape_ok(e));
        lemma_filter_map_skip_first(d.events, f, k);
        let acc2 = DiagramView { participants: d.participants, events: d.events.take(k + 1) };
        match e {
            EventView::Message { from, to, text } => {
                let l0 = "    "@ + ((d.participants[from as int] + "->>"@
                    + d.participants[to as int]) + ": "@ + text);
                assert(f(e) == Some(l0)) by {
                    assert(event_line_opt(e, d.participants)->Some_0 =~= l0);
                }
                lemma_parse_message_line(d.participants, from, to, text, acc);
                assert(parse_body_line(l0, acc) == Ok::<DiagramView, ParseErrorView>(
                    DiagramView {
                        participants: d.participants,
                        events: acc.events.push(e),
                    },
                ));
                assert(acc.events.push(e) =~= d.events.take(k + 1));
            },
            EventView::Note { position, participant_start, participant_end, text } => {
                if position == NotePosition::Over && participant_start != participant_end {
                    let l0 = "    "@ + (("Note "@ + NotePosition::Over.keyword() + " "@
                        + d.participants[participant_start as int] + ","@
                        + d.participants[participant_end as int]) + ": "@ + text);
                    assert(f(e) == Some(l0)) by {
                        assert(event_line_opt(e, d.participants)->Some_0 =~= l0);
                    }
                    lemma_parse_note_pair_line(
                        d.participants,
                        participant_start,
                        participant_end,
                        text,
                        acc,
                    );
                    assert(parse_body_line(l0, acc) == Ok::<DiagramView, ParseErrorView>(
                        DiagramView {
                            participants: d.participants,
                            events: acc.events.push(e),
                        },
                    ));
                    assert(acc.events.push(e) =~= d.events.take(k + 1));
                } else {
                    assert(participant_end == participant_start);
                    let l0 = "    "@ + (("Note "@ + position.keyword() + " "@
                        + d.participants[participant_start as int]) + ": "@ + text);
                    assert(f(e) == Some(l0)) by {
                        assert(event_line_opt(e, d.participants)->Some_0 =~= l0);
                    }
                    lemma_parse_note_single_line(
                        d.participants,
                        position,
                        participant_start,
                        text,
                        acc,
                    );
                    assert(parse_body_line(l0, acc) == Ok::<DiagramView, ParseErrorView>(
                        DiagramView {
                            participants: d.participants,
                            events: acc.events.push(e),
                        },
                    ));
                    assert(acc.events.push(e) =~= d.events.take(k + 1));
                }
            },
        }
        let l0 = f(e)->Some_0;
        let lines = d.events.skip(k).filter_map(f);
        assert(lines =~= seq![l0] + d.events.skip(k + 1).filter_map(f));
        assert(lines[0] == l0);
        assert(lines.drop_first() =~= d.events.skip(k + 1).filter_map(f));
        lemma_parse_event_lines(d, k + 1);
        assert(parse_body_line(lines[0], acc) == Ok::<DiagramView, ParseErrorView>(acc2));
    }
}

/// Folding the serialized participant declarations from position `k` onward,
/// then the event lines, over the first `k` names reconstructs `d`.
proof fn lemma_parse_participant_lines(d: DiagramView, k: int)
    requires
        exportable(d),
        0 <= k <= d.participants.len(),
    ensures
        parse_lines(
            d.participants.skip(k).map_values(|n: Seq<char>| participant_line(n))
                + d.events.filter_map(|e: EventView| event_line_opt(e, d.participants)),
            DiagramView { participants: d.participants.take(k), events: Seq::empty() },
        ) == Ok::<DiagramView, ParseErrorView>(d),
    decreases d.participants.len() - k,
{
    let f = |e: EventView| event_line_opt(e, d.participants);
    let pl = |n: Seq<char>| participant_line(n);
    let acc = DiagramView { participants: d.participants.take(k), events: Seq::empty() };
    let lines = d.participants.skip(k).map_values(pl) + d.events.filter_map(f);
    if k == d.participants.len() {
        assert(d.participants.skip(k).map_values(pl) =~= Seq::<Seq<char>>::empty());
        assert(lines =~= d.events.filter_map(f));
        assert(d.events.skip(0) =~= d.events);
        assert(d.events.skip(0).filter_map(f) == d.events.filter_map(f));
        lemma_parse_event_lines(d, 0);
        assert(acc =~= DiagramView {
            participants: d.participants,
            events: d.events.take(0),
        });
    } else {
        assert(lines.len() > 0);
        assert(lines[0] == participant_line(d.participants[k]));
        lemma_parse_participant_decl(d.participants, k, acc);
        let acc2 = DiagramView {
            participants: d.participants.take(k + 1),
            events: Seq::empty(),
        };
        assert(parse_body_line(lines[0], acc) == Ok::<DiagramView, ParseErrorView>(acc2));
        assert(lines.drop_first() =~= d.participants.skip(k + 1).map_values(pl)
            + d.events.filter_map(f));
        lemma_parse_participant_lines(d, k + 1);
    }
}

/// Serializing an exportable diagram and parsing the text back yields the
/// same diagram: the same participant names in the same order, and the same
/// events, field for field.
pub proof fn lemma_mermaid_roundtrip(d: DiagramView)
    requires
        exportable(d),
    ensures
        parse_mermaid(render_mermaid(d)) == Ok::<DiagramView, ParseErrorView>(d),
{
    reveal_strlit("sequenceDiagram");
    reveal_strlit("    participant ");
    reveal_strlit("    ");
    reveal_strlit("->>");
    reveal_strlit(": ");
    reveal_strlit("Note ");
    reveal_strlit("    Note ");
    reveal_strlit("right of");
    reveal_strlit("left of");
    reveal_strlit("over");
    reveal_strlit(" ");
    reveal_strlit(",");
    lemma_literals_no_nl();
    let ps = d.participants;
    let f = |e: EventView| event_line_opt(e, ps);
    let pl = |n: Seq<char>| participant_line(n);
    let lines = mermaid_lines(d);
    let plines = ps.map_values(pl);
    let elines = d.events.filter_map(f);
    assert(lines =~= seq!["sequenceDiagram"@] + plines + elines);
    // every line is newline-free and does not end in a carriage return
    assert forall|i: int| 0 <= i < lines.len() implies no_nl(#[trigger] lines[i]) && (
    lines[i].len() > 0 ==> lines[i].last() != '\r') by {
        if i == 0 {
            assert(lines[0] == "sequenceDiagram"@);
            assert(lines[0].last() == 'm');
        } else if i <= ps.len() {
            let n = ps[i - 1];
            assert(lines[i] == participant_line(n));
            assert(no_nl(n));
            assert("    participant "@ + n =~= "    participant "@ + n);
            lemma_no_nl_concat("    participant "@, n);
            assert(lines[i].last() == n.last());
            assert(!is_ws(n.last()));
        } else {
            let l = lines[i];
            assert(elines[i - 1 - ps.len()] == l);
            assert(elines.contains(l));
            d.events.lemma_filter_map_contains(f, l);
            let ev = choose|ev: EventView| #[trigger] d.events.contains(ev) && f(ev) == Some(l);
            let j = choose|j: int| 0 <= j < d.events.len() && d.events[j] == ev;
            assert(text_ok(event_text(ev)));
            assert(ev.wf(ps.len()));
            let text = event_text(ev);
            assert(no_nl(text));
            match ev {
                EventView::Message { from, to, text: tx } => {
                    let a = ps[from as int];
                    let b = ps[to as int];
                    assert(no_nl(a) && no_nl(b));
                    lemma_no_nl_concat("    "@, a);
                    lemma_no_nl_concat("    "@ + a, "->>"@);
                    lemma_no_nl_concat("    "@ + a + "->>"@, b);
                    lemma_no_nl_concat("    "@ + a + "->>"@ + b, ": "@);
                    lemma_no_nl_concat("    "@ + a + "->>"@ + b + ": "@, tx);
                    assert(l == "    "@ + a + "->>"@ + b + ": "@ + tx);
                    if tx.len() > 0 {
                        assert(l.last() == tx.last());
                        assert(!is_ws(tx.last()));
                    } else {
                        assert(l.last() == ' ');
                    }
                },
                EventView::Note { position, participant_start, participant_end, text: tx } => {
                    let kw = position.keyword();
                    assert(no_nl(kw)) by {
                        match position {
                            NotePosition::Right => {},
                            NotePosition::Left => {},
                            NotePosition::Over => {},
                        }
                    }
                    let a = ps[participant_start as int];
                    assert(no_nl(a));
                    if position == NotePosition::Over && participant_start != participant_end {
                        let b = ps[participant_end as int];
                        assert(no_nl(b));
                        lemma_no_nl_concat("    Note "@, kw);
                        assert(no_nl("    Note "@)) by {
                            lemma_no_nl_concat("    "@, "Note "@);
                            assert("    Note "@ =~= "    "@ + "Note "@);
                        }
                        lemma_no_nl_concat("    Note "@ + kw, " "@);
                        lemma_no_nl_concat("    Note "@ + kw + " "@, a);
                        lemma_no_nl_concat("    Note "@ + kw + " "@ + a, ","@);
                        lemma_no_nl_concat("    Note "@ + kw + " "@ + a + ","@, b);
                        lemma_no_nl_concat("    Note "@ + kw + " "@ + a + ","@ + b, ": "@);
                        lemma_no_nl_concat(
                            "    Note "@ + kw + " "@ + a + ","@ + b + ": "@,
                            tx,
                        );
                        assert(l == "    Note "@ + kw + " "@ + a + ","@ + b + ": "@ + tx);
                        if tx.len() > 0 {
                            assert(l.last() == tx.last());
                            assert(!is_ws(tx.last()));
                        } else {
                            assert(l.last() == ' ');
                        }
                    } else {
                        assert(no_nl("    Note "@)) by {
                            lemma_no_nl_concat("    "@, "Note "@);
                            assert("    Note "@ =~= "    "@ + "Note "@);
                        }
                        lemma_no_nl_concat("    Note "@, kw);
                        lemma_no_nl_concat("    Note "@ + kw, " "@);
                        lemma_no_nl_concat("    Note "@ + kw + " "@, a);
                        lemma_no_nl_concat("    Note "@ + kw + " "@ + a, ": "@);
                        lemma_no_nl_concat("    Note "@ + kw + " "@ + a + ": "@, tx);
                        assert(l == "    Note "@ + kw + " "@ + a + ": "@ + tx);
                        if tx.len() > 0 {
                            assert(l.last() == tx.last());
                            assert(!is_ws(tx.last()));
                        } else {
                            assert(l.last() == ' ');
                        }
                    }
                },
            }
        }
    }
    lemma_split_lines_text(lines);
    assert(split_lines(render_mermaid(d)) =~= lines);
    assert(lines[0] == "sequenceDiagram"@);
    assert(trim_stable("sequenceDiagram"@)) by {
        assert("sequenceDiagram"@[0] == 's');
        assert("sequenceDiagram"@.last() == 'm');
    }
    lemma_trim_stable("sequenceDiagram"@);
    assert(lines.drop_first() =~= plines + elines);
    assert(ps.skip(0) =~= ps);
    assert(ps.skip(0).map_values(pl) == ps.map_values(pl));
    lemma_parse_participant_lines(d, 0);
    assert(DiagramView { participants: ps.take(0), events: Seq::empty() }
        =~= DiagramView::empty());
}

} // verus!
