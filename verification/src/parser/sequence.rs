//! The sequence diagram parser: participant declarations and messages.
use vstd::prelude::*;

use crate::text::{
    lemma_trim_unpadded, unpadded,
    chars_all, lemma_chars_all_subrange, lemma_chars_all_trim,
    chars_of, find_char, find_char_exec, find_str, find_str_exec, lemma_find_char_from_bounds,
    lemma_find_str_from_bounds, lines, lines_exec, starts_with, starts_with_exec, string_from,
    trim, trim_slice,
};
use crate::{result_view, ErrorModel, RenderError};

verus! {

/// A parsed sequence diagram.
#[derive(Debug)]
pub struct SequenceDiagram {
    pub participants: Vec<Participant>,
    pub messages: Vec<Message>,
}

/// A participant (actor) in a sequence diagram.
#[derive(Debug, Clone)]
pub struct Participant {
    pub id: String,
    pub label: String,
}

/// A message between participants.
#[derive(Debug, Clone)]
pub struct Message {
    pub from: String,
    pub to: String,
    pub label: String,
    pub style: MessageStyle,
}

/// Style of a sequence diagram message arrow.
#[derive(Debug, Clone, Copy, PartialEq, Eq, Structural)]
pub enum MessageStyle {
    /// `->>` solid arrow
    Solid,
    /// `-->>` dashed arrow
    Dashed,
    /// `-x` solid cross (lost message)
    SolidCross,
    /// `--x` dashed cross
    DashedCross,
}

/// What a `Participant` holds, with its text as chars.
pub struct ParticipantModel {
    pub id: Seq<char>,
    pub label: Seq<char>,
}

/// What a `Message` holds, with its text as chars.
pub struct MessageModel {
    pub from: Seq<char>,
    pub to: Seq<char>,
    pub label: Seq<char>,
    pub style: MessageStyle,
}

/// What a `SequenceDiagram` holds.
pub struct SequenceModel {
    pub participants: Seq<ParticipantModel>,
    pub messages: Seq<MessageModel>,
}

impl View for Participant {
    type V = ParticipantModel;

    open spec fn view(&self) -> ParticipantModel {
        ParticipantModel { id: self.id@, label: self.label@ }
    }
}

impl View for Message {
    type V = MessageModel;

    open spec fn view(&self) -> MessageModel {
        MessageModel { from: self.from@, to: self.to@, label: self.label@, style: self.style }
    }
}

pub open spec fn participant_models(v: Seq<Participant>) -> Seq<ParticipantModel> {
    v.map_values(|p: Participant| p@)
}

pub open spec fn message_models(v: Seq<Message>) -> Seq<MessageModel> {
    v.map_values(|m: Message| m@)
}

impl View for SequenceDiagram {
    type V = SequenceModel;

    open spec fn view(&self) -> SequenceModel {
        SequenceModel {
            participants: participant_models(self.participants@),
            messages: message_models(self.messages@),
        }
    }
}

// ---------------------------------------------------------------------------
// The grammar, stated over chars
// ---------------------------------------------------------------------------

pub open spec fn as_keyword() -> Seq<char> {
    seq![' ', 'a', 's', ' ']
}

pub open spec fn participant_keyword() -> Seq<char> {
    seq!['p', 'a', 'r', 't', 'i', 'c', 'i', 'p', 'a', 'n', 't', ' ']
}

/// The id and label declared by the text after `participant `: `Alice as A`
/// declares id `Alice` with label `A`; a plain `Alice` is both.
pub open spec fn participant_decl(s: Seq<char>) -> (Seq<char>, Seq<char>) {
    match find_str(s, as_keyword()) {
        Some(p) => (trim(s.take(p)), trim(s.skip(p + 4))),
        None => (trim(s), trim(s)),
    }
}

/// The message arrows, longest first, with their styles.
pub open spec fn message_arrow(k: int) -> Seq<char> {
    if k == 0 {
        seq!['-', '-', '>', '>']
    } else if k == 1 {
        seq!['-', '>', '>']
    } else if k == 2 {
        seq!['-', '-', 'x']
    } else {
        seq!['-', 'x']
    }
}

pub open spec fn message_arrow_style(k: int) -> MessageStyle {
    if k == 0 {
        MessageStyle::Dashed
    } else if k == 1 {
        MessageStyle::Solid
    } else if k == 2 {
        MessageStyle::DashedCross
    } else {
        MessageStyle::SolidCross
    }
}

/// The message with the `k`-th arrow found at `pos`: the text before the
/// arrow is the sender; after it, the text up to the first `:` is the
/// receiver and the rest the label (empty where there is no `:`).
pub open spec fn message_at(line: Seq<char>, pos: int, k: int) -> MessageModel {
    let rest = line.skip(pos + message_arrow(k).len());
    let from = trim(line.take(pos));
    match find_char(rest, ':') {
        Some(c) => MessageModel {
            from,
            to: trim(rest.take(c)),
            label: trim(rest.skip(c + 1)),
            style: message_arrow_style(k),
        },
        None => MessageModel { from, to: trim(rest), label: Seq::empty(), style: message_arrow_style(k) },
    }
}

/// The message read from `line` with the first of the arrows `k..4` that it
/// contains.
pub open spec fn message_from_arrow(line: Seq<char>, k: int) -> Option<MessageModel>
    decreases 4 - k,
{
    if k < 0 || k >= 4 {
        None
    } else {
        match find_str(line, message_arrow(k)) {
            Some(p) => Some(message_at(line, p, k)),
            None => message_from_arrow(line, k + 1),
        }
    }
}

/// The message that `line` states, trying `-->>`, `->>`, `--x`, `-x` in turn.
pub open spec fn message_of(line: Seq<char>) -> Option<MessageModel> {
    message_from_arrow(line, 0)
}

pub open spec fn has_participant(ps: Seq<ParticipantModel>, id: Seq<char>) -> bool {
    exists|i: int| 0 <= i < ps.len() && #[trigger] ps[i].id == id
}

/// The participants after `id` is mentioned: a new id is appended with
/// itself as label.
pub open spec fn ensure_participant_spec(ps: Seq<ParticipantModel>, id: Seq<char>) -> Seq<
    ParticipantModel,
> {
    if has_participant(ps, id) {
        ps
    } else {
        ps.push(ParticipantModel { id, label: id })
    }
}

/// The diagram after one body line.
pub open spec fn seq_add_line(st: SequenceModel, raw: Seq<char>) -> SequenceModel {
    let line = trim(raw);
    if line.len() == 0 || starts_with(line, seq!['%', '%']) {
        st
    } else if starts_with(line, participant_keyword()) {
        let (id, label) = participant_decl(line.skip(12));
        if has_participant(st.participants, id) {
            st
        } else {
            SequenceModel {
                participants: st.participants.push(ParticipantModel { id, label }),
                messages: st.messages,
            }
        }
    } else {
        match message_of(line) {
            Some(m) => SequenceModel {
                participants: ensure_participant_spec(
                    ensure_participant_spec(st.participants, m.from),
                    m.to,
                ),
                messages: st.messages.push(m),
            },
            None => st,
        }
    }
}

pub open spec fn seq_add_lines(st: SequenceModel, ls: Seq<Seq<char>>) -> SequenceModel
    decreases ls.len(),
{
    if ls.len() == 0 {
        st
    } else {
        seq_add_line(seq_add_lines(st, ls.drop_last()), ls.last())
    }
}

pub open spec fn empty_sequence() -> SequenceModel {
    SequenceModel { participants: Seq::empty(), messages: Seq::empty() }
}

/// The diagram that parsing `input` gives: every line after the first read
/// as a participant declaration, a message, a comment or nothing.
pub open spec fn parse_sequence(input: Seq<char>) -> SequenceModel {
    let ls = lines(input);
    if ls.len() == 0 {
        empty_sequence()
    } else {
        seq_add_lines(empty_sequence(), ls.skip(1))
    }
}

// ---------------------------------------------------------------------------
// Executable parser
// ---------------------------------------------------------------------------

fn message_arrow_chars(k: usize) -> (v: Vec<char>)
    requires
        k < 4,
    ensures
        v@ == message_arrow(k as int),
{
    if k == 0 {
        vec!['-', '-', '>', '>']
    } else if k == 1 {
        vec!['-', '>', '>']
    } else if k == 2 {
        vec!['-', '-', 'x']
    } else {
        vec!['-', 'x']
    }
}

fn message_arrow_style_exec(k: usize) -> (s: MessageStyle)
    ensures
        s == message_arrow_style(k as int),
{
    if k == 0 {
        MessageStyle::Dashed
    } else if k == 1 {
        MessageStyle::Solid
    } else if k == 2 {
        MessageStyle::DashedCross
    } else {
        MessageStyle::SolidCross
    }
}

/// Reads `Alice as A` or `Alice` after the `participant ` keyword.
fn parse_participant_decl(s: &[char]) -> (r: (String, String))
    ensures
        (r.0@, r.1@) == participant_decl(s@),
{
    let n = s.len();
    let kw = vec![' ', 'a', 's', ' '];
    proof {
        lemma_find_str_from_bounds(s@, as_keyword(), 0);
    }
    if let Some(pos) = find_str_exec(s, kw.as_slice()) {
        let id = string_from(trim_slice(&s[0..pos]));
        let label = string_from(trim_slice(&s[pos + 4..n]));
        proof {
            assert(s@.subrange(0, pos as int) =~= s@.take(pos as int));
            assert(s@.subrange(pos + 4, s@.len() as int) =~= s@.skip(pos + 4));
        }
        (id, label)
    } else {
        let id = trim_slice(s);
        (string_from(id), string_from(id))
    }
}

/// Reads a message line such as `Alice->>Bob: Hello`.
fn try_parse_message(line: &[char]) -> (r: Option<Message>)
    ensures
        r matches Some(m) ==> message_of(line@) == Some(m@),
        r is None ==> message_of(line@) is None,
{
    let line_len = line.len();
    let mut k: usize = 0;
    while k < 4
        invariant
            0 <= k <= 4,
            line_len == line@.len(),
            message_from_arrow(line@, k as int) == message_of(line@),
        decreases 4 - k,
    {
        let arrow = message_arrow_chars(k);
        proof {
            lemma_find_str_from_bounds(line@, message_arrow(k as int), 0);
        }
        if let Some(pos) = find_str_exec(line, arrow.as_slice()) {
            let from = string_from(trim_slice(&line[0..pos]));
            let rest = &line[pos + arrow.len()..line_len];
            proof {
                assert(line@.subrange(0, pos as int) =~= line@.take(pos as int));
                assert(rest@ =~= line@.skip(pos + message_arrow(k as int).len()));
                lemma_find_char_from_bounds(rest@, ':', 0);
            }
            let style = message_arrow_style_exec(k);
            let (to, label) = if let Some(colon_pos) = find_char_exec(rest, ':') {
                proof {
                    assert(rest@.subrange(0, colon_pos as int) =~= rest@.take(colon_pos as int));
                    assert(rest@.subrange(colon_pos + 1, rest@.len() as int) =~= rest@.skip(
                        colon_pos + 1,
                    ));
                }
                let to = string_from(trim_slice(&rest[0..colon_pos]));
                let label = string_from(trim_slice(&rest[colon_pos + 1..rest.len()]));
                (to, label)
            } else {
                (string_from(trim_slice(rest)), String::new())
            };
            return Some(Message { from, to, label, style });
        }
        k = k + 1;
    }
    None
}

/// Whether a participant with the given id is listed.
fn contains_participant(participants: &Vec<Participant>, id: &String) -> (b: bool)
    ensures
        b == has_participant(participant_models(participants@), id@),
{
    let ghost ps = participant_models(participants@);
    let mut i: usize = 0;
    while i < participants.len()
        invariant
            0 <= i <= participants@.len(),
            ps == participant_models(participants@),
            forall|k: int| 0 <= k < i ==> ps[k].id != id@,
        decreases participants.len() - i,
    {
        if participants[i].id == *id {
            proof {
                assert(ps[i as int].id == id@);
            }
            return true;
        }
        i = i + 1;
    }
    false
}

/// Registers a participant by id if it is not listed yet.
fn ensure_participant(participants: &mut Vec<Participant>, id: &String)
    ensures
        participant_models(final(participants)@) == ensure_participant_spec(
            participant_models(old(participants)@),
            id@,
        ),
{
    if !contains_participant(participants, id) {
        let ghost prev = participant_models(participants@);
        participants.push(Participant { id: id.clone(), label: id.clone() });
        proof {
            assert(participant_models(participants@) =~= prev.push(
                ParticipantModel { id: id@, label: id@ },
            ));
        }
    }
}

/// Parses a sequence diagram from mermaid source.
pub(crate) fn parse_chars(input: &[char]) -> (r: Result<SequenceDiagram, RenderError>)
    ensures
        result_view(r) == Ok::<SequenceModel, ErrorModel>(parse_sequence(input@)),
{
    let chars = input;
    let ls = lines_exec(chars);
    let ghost lsv = lines(input@);
    let mut participants: Vec<Participant> = Vec::new();
    let mut messages: Vec<Message> = Vec::new();
    if ls.len() == 0 {
        proof {
            assert(participant_models(participants@) =~= Seq::<ParticipantModel>::empty());
            assert(message_models(messages@) =~= Seq::<MessageModel>::empty());
        }
        return Ok(SequenceDiagram { participants, messages });
    }
    let mut i: usize = 1;
    proof {
        assert(lsv.subrange(1, 1) =~= Seq::<Seq<char>>::empty());
        assert(participant_models(participants@) =~= Seq::<ParticipantModel>::empty());
        assert(message_models(messages@) =~= Seq::<MessageModel>::empty());
    }
    while i < ls.len()
        invariant
            1 <= i <= ls@.len(),
            ls@.len() == lsv.len(),
            lsv == lines(input@),
            forall|j: int| 0 <= j < ls@.len() ==> #[trigger] ls@[j]@ == lsv[j],
            seq_add_lines(empty_sequence(), lsv.subrange(1, i as int)) == (SequenceModel {
                participants: participant_models(participants@),
                messages: message_models(messages@),
            }),
        decreases ls.len() - i,
    {
        proof {
            assert(lsv.subrange(1, i + 1).drop_last() =~= lsv.subrange(1, i as int));
        }
        let line = trim_slice(ls[i].as_slice());
        let pct = vec!['%', '%'];
        let kw = vec!['p', 'a', 'r', 't', 'i', 'c', 'i', 'p', 'a', 'n', 't', ' '];
        if line.len() == 0 || starts_with_exec(line, pct.as_slice()) {
            i = i + 1;
            continue;
        }
        if starts_with_exec(line, kw.as_slice()) {
            let rest = &line[12..line.len()];
            proof {
                assert(rest@ =~= line@.skip(12));
            }
            let (id, label) = parse_participant_decl(rest);
            if !contains_participant(&participants, &id) {
                let ghost prev = participant_models(participants@);
                let p = Participant { id, label };
                participants.push(p);
                proof {
                    assert(participant_models(participants@) =~= prev.push(p@));
                }
            }
            i = i + 1;
            continue;
        }
        if let Some(msg) = try_parse_message(line) {
            ensure_participant(&mut participants, &msg.from);
            ensure_participant(&mut participants, &msg.to);
            let ghost prev = message_models(messages@);
            let ghost mv = msg@;
            messages.push(msg);
            proof {
                assert(message_models(messages@) =~= prev.push(mv));
            }
        }
        i = i + 1;
    }
    proof {
        assert(lsv.subrange(1, i as int) =~= lsv.skip(1));
    }
    Ok(SequenceDiagram { participants, messages })
}

/// Parses a sequence diagram from mermaid source.
pub fn parse(input: &str) -> (r: Result<SequenceDiagram, RenderError>)
    ensures
        result_view(r) == Ok::<SequenceModel, ErrorModel>(parse_sequence(input@)),
{
    let chars = chars_of(input);
    parse_chars(chars.as_slice())
}

/// No two participants share an id.
pub open spec fn participant_ids_distinct(ps: Seq<ParticipantModel>) -> bool {
    forall|i: int, j: int| 0 <= i < j < ps.len() ==> #[trigger] ps[i].id != #[trigger] ps[j].id
}

/// The participants have distinct ids and every message runs between two of them.
pub open spec fn cast_consistent(d: SequenceModel) -> bool {
    &&& participant_ids_distinct(d.participants)
    &&& forall|k: int|
        0 <= k < d.messages.len() ==> has_participant(d.participants, (#[trigger] d.messages[k]).from)
            && has_participant(d.participants, d.messages[k].to)
}

/// Mentioning a participant keeps the list a prefix of the result, keeps the
/// ids distinct and leaves the id present.
proof fn lemma_ensure_participant(ps: Seq<ParticipantModel>, id: Seq<char>)
    requires
        participant_ids_distinct(ps),
    ensures
        participant_ids_distinct(ensure_participant_spec(ps, id)),
        has_participant(ensure_participant_spec(ps, id), id),
        ps.is_prefix_of(ensure_participant_spec(ps, id)),
{
    let r = ensure_participant_spec(ps, id);
    if !has_participant(ps, id) {
        assert(r[ps.len() as int].id == id);
    }
}

proof fn lemma_has_participant_prefix(a: Seq<ParticipantModel>, b: Seq<ParticipantModel>, id: Seq<char>)
    requires
        has_participant(a, id),
        a.is_prefix_of(b),
    ensures
        has_participant(b, id),
{
    let i = choose|i: int| 0 <= i < a.len() && #[trigger] a[i].id == id;
    assert(b[i].id == id);
}

proof fn lemma_seq_add_line_consistent(st: SequenceModel, raw: Seq<char>)
    requires
        cast_consistent(st),
    ensures
        cast_consistent(seq_add_line(st, raw)),
        st.participants.is_prefix_of(seq_add_line(st, raw).participants),
{
    let line = trim(raw);
    let r = seq_add_line(st, raw);
    if line.len() == 0 || starts_with(line, seq!['%', '%']) {
    } else if starts_with(line, participant_keyword()) {
        let (id, label) = participant_decl(line.skip(12));
        if !has_participant(st.participants, id) {
            assert(r.participants[st.participants.len() as int].id == id);
            assert forall|k: int| 0 <= k < r.messages.len() implies has_participant(
                r.participants,
                (#[trigger] r.messages[k]).from,
            ) && has_participant(r.participants, r.messages[k].to) by {
                lemma_has_participant_prefix(st.participants, r.participants, st.messages[k].from);
                lemma_has_participant_prefix(st.participants, r.participants, st.messages[k].to);
            }
        }
    } else {
        if let Some(m) = message_of(line) {
            let p1 = ensure_participant_spec(st.participants, m.from);
            lemma_ensure_participant(st.participants, m.from);
            lemma_ensure_participant(p1, m.to);
            assert forall|k: int| 0 <= k < r.messages.len() implies has_participant(
                r.participants,
                (#[trigger] r.messages[k]).from,
            ) && has_participant(r.participants, r.messages[k].to) by {
                if k < st.messages.len() {
                    assert(r.messages[k] == st.messages[k]);
                    lemma_has_participant_prefix(st.participants, p1, st.messages[k].from);
                    lemma_has_participant_prefix(p1, r.participants, st.messages[k].from);
                    lemma_has_participant_prefix(st.participants, p1, st.messages[k].to);
                    lemma_has_participant_prefix(p1, r.participants, st.messages[k].to);
                } else {
                    lemma_has_participant_prefix(p1, r.participants, m.from);
                }
            }
        }
    }
}

proof fn lemma_seq_add_lines_consistent(st: SequenceModel, ls: Seq<Seq<char>>)
    requires
        cast_consistent(st),
    ensures
        cast_consistent(seq_add_lines(st, ls)),
    decreases ls.len(),
{
    if ls.len() > 0 {
        lemma_seq_add_lines_consistent(st, ls.drop_last());
        lemma_seq_add_line_consistent(seq_add_lines(st, ls.drop_last()), ls.last());
    }
}

/// A parsed sequence diagram has a consistent cast: each participant id
/// occurs once (a second declaration of an id is ignored), and the sender
/// and receiver of every message are participants (a participant mentioned
/// only in a message is created by it).
pub proof fn law_sequence_cast_consistent(input: Seq<char>)
    ensures
        cast_consistent(parse_sequence(input)),
{
    lemma_seq_add_lines_consistent(empty_sequence(), lines(input).skip(1));
}

proof fn lemma_message_from_arrow_chars(line: Seq<char>, k: int, p: spec_fn(char) -> bool)
    requires
        chars_all(line, p),
    ensures
        message_from_arrow(line, k) matches Some(m) ==> chars_all(m.from, p) && chars_all(m.to, p) && chars_all(
            m.label,
            p,
        ),
    decreases 4 - k,
{
    if 0 <= k < 4 {
        lemma_find_str_from_bounds(line, message_arrow(k), 0);
        match find_str(line, message_arrow(k)) {
            Some(pos) => {
                let rest = line.skip(pos + message_arrow(k).len());
                lemma_chars_all_subrange(line, 0, pos, p);
                lemma_chars_all_trim(line.take(pos), ':', p);
                lemma_chars_all_subrange(line, pos + message_arrow(k).len(), line.len() as int, p);
                lemma_chars_all_trim(rest, ':', p);
                lemma_find_char_from_bounds(rest, ':', 0);
                if let Some(c) = find_char(rest, ':') {
                    lemma_chars_all_subrange(rest, 0, c, p);
                    lemma_chars_all_trim(rest.take(c), ':', p);
                    lemma_chars_all_subrange(rest, c + 1, rest.len() as int, p);
                    lemma_chars_all_trim(rest.skip(c + 1), ':', p);
                }
            },
            None => lemma_message_from_arrow_chars(line, k + 1, p),
        }
    }
}

/// Every participant label and message label is made of chars satisfying `p`.
pub open spec fn sequence_labels_chars(d: SequenceModel, p: spec_fn(char) -> bool) -> bool {
    &&& forall|i: int| 0 <= i < d.participants.len() ==> chars_all((#[trigger] d.participants[i]).label, p)
    &&& forall|j: int| 0 <= j < d.messages.len() ==> chars_all((#[trigger] d.messages[j]).label, p)
}

proof fn lemma_seq_add_line_chars(st: SequenceModel, raw: Seq<char>, p: spec_fn(char) -> bool)
    requires
        sequence_labels_chars(st, p),
        chars_all(raw, p),
    ensures
        sequence_labels_chars(seq_add_line(st, raw), p),
{
    let line = trim(raw);
    lemma_chars_all_trim(raw, ':', p);
    if line.len() == 0 || starts_with(line, seq!['%', '%']) {
    } else if starts_with(line, participant_keyword()) {
        lemma_chars_all_subrange(line, 12, line.len() as int, p);
        let rest = line.skip(12);
        lemma_find_str_from_bounds(rest, as_keyword(), 0);
        lemma_chars_all_trim(rest, ':', p);
        if let Some(q) = find_str(rest, as_keyword()) {
            lemma_chars_all_subrange(rest, q + 4, rest.len() as int, p);
            lemma_chars_all_trim(rest.skip(q + 4), ':', p);
        }
    } else {
        lemma_message_from_arrow_chars(line, 0, p);
    }
}

proof fn lemma_seq_add_lines_chars(st: SequenceModel, ls: Seq<Seq<char>>, p: spec_fn(char) -> bool)
    requires
        sequence_labels_chars(st, p),
        forall|i: int| 0 <= i < ls.len() ==> chars_all(#[trigger] ls[i], p),
    ensures
        sequence_labels_chars(seq_add_lines(st, ls), p),
    decreases ls.len(),
{
    if ls.len() > 0 {
        assert forall|i: int| 0 <= i < ls.drop_last().len() implies chars_all(#[trigger] ls.drop_last()[i], p) by {
            assert(ls.drop_last()[i] == ls[i]);
        }
        lemma_seq_add_lines_chars(st, ls.drop_last(), p);
        assert(chars_all(ls[ls.len() - 1], p));
        lemma_seq_add_line_chars(seq_add_lines(st, ls.drop_last()), ls.last(), p);
    }
}

/// Labels are cut from the source, never made up: whatever holds of every
/// char of every line of the input holds of every char of every participant
/// label and message label of the parsed diagram.
pub proof fn law_sequence_labels_from_input(input: Seq<char>, p: spec_fn(char) -> bool)
    requires
        forall|i: int| 0 <= i < lines(input).len() ==> chars_all(#[trigger] lines(input)[i], p),
    ensures
        sequence_labels_chars(parse_sequence(input), p),
{
    let ls = lines(input);
    if ls.len() > 0 {
        assert forall|i: int| 0 <= i < ls.skip(1).len() implies chars_all(#[trigger] ls.skip(1)[i], p) by {
            assert(ls.skip(1)[i] == ls[i + 1]);
        }
        lemma_seq_add_lines_chars(empty_sequence(), ls.skip(1), p);
    }
}

/// The participants with `x` added at the end unless its id is already there.
pub open spec fn add_participant(ps: Seq<ParticipantModel>, x: ParticipantModel) -> Seq<ParticipantModel> {
    if has_participant(ps, x.id) {
        ps
    } else {
        ps.push(x)
    }
}

/// The participants with each of `xs` added in turn where its id is new.
pub open spec fn add_participants(ps: Seq<ParticipantModel>, xs: Seq<ParticipantModel>) -> Seq<ParticipantModel>
    decreases xs.len(),
{
    if xs.len() == 0 {
        ps
    } else {
        add_participant(add_participants(ps, xs.drop_last()), xs.last())
    }
}

/// The participants that a body line brings up, in order: a declaration's
/// id and label, or a message's sender and receiver, each labelled with its id.
pub open spec fn line_appearances(raw: Seq<char>) -> Seq<ParticipantModel> {
    let line = trim(raw);
    if line.len() == 0 || starts_with(line, seq!['%', '%']) {
        Seq::empty()
    } else if starts_with(line, participant_keyword()) {
        let (id, label) = participant_decl(line.skip(12));
        seq![ParticipantModel { id, label }]
    } else {
        match message_of(line) {
            Some(m) => seq![ParticipantModel { id: m.from, label: m.from }, ParticipantModel { id: m.to, label: m.to }],
            None => Seq::empty(),
        }
    }
}

/// The message that a body line states, if any.
pub open spec fn line_messages(raw: Seq<char>) -> Seq<MessageModel> {
    let line = trim(raw);
    if line.len() == 0 || starts_with(line, seq!['%', '%']) || starts_with(line, participant_keyword()) {
        Seq::empty()
    } else {
        match message_of(line) {
            Some(m) => seq![m],
            None => Seq::empty(),
        }
    }
}

pub open spec fn lines_appearances(ls: Seq<Seq<char>>) -> Seq<ParticipantModel>
    decreases ls.len(),
{
    if ls.len() == 0 {
        Seq::empty()
    } else {
        lines_appearances(ls.drop_last()) + line_appearances(ls.last())
    }
}

pub open spec fn lines_messages(ls: Seq<Seq<char>>) -> Seq<MessageModel>
    decreases ls.len(),
{
    if ls.len() == 0 {
        Seq::empty()
    } else {
        lines_messages(ls.drop_last()) + line_messages(ls.last())
    }
}

/// The body lines of `input`: all but the first.
pub open spec fn body_lines(input: Seq<char>) -> Seq<Seq<char>> {
    if lines(input).len() == 0 {
        Seq::empty()
    } else {
        lines(input).skip(1)
    }
}

proof fn lemma_add_participants_concat(
    ps: Seq<ParticipantModel>,
    a: Seq<ParticipantModel>,
    b: Seq<ParticipantModel>,
)
    ensures
        add_participants(ps, a + b) == add_participants(add_participants(ps, a), b),
    decreases b.len(),
{
    if b.len() == 0 {
        assert(a + b =~= a);
    } else {
        assert((a + b).drop_last() =~= a + b.drop_last());
        assert((a + b).last() == b.last());
        lemma_add_participants_concat(ps, a, b.drop_last());
    }
}

proof fn lemma_add_participants_small(ps: Seq<ParticipantModel>, x: ParticipantModel, y: ParticipantModel)
    ensures
        add_participants(ps, seq![x, y]) == add_participant(add_participant(ps, x), y),
        add_participants(ps, seq![x]) == add_participant(ps, x),
{
    assert(seq![x, y].drop_last() =~= seq![x]);
    assert(seq![x].drop_last() =~= Seq::<ParticipantModel>::empty());
    assert(add_participants(ps, Seq::<ParticipantModel>::empty()) == ps);
    assert(add_participants(ps, seq![x]) == add_participant(add_participants(ps, seq![x].drop_last()), seq![x].last()));
    assert(add_participants(ps, seq![x, y]) == add_participant(
        add_participants(ps, seq![x, y].drop_last()),
        seq![x, y].last(),
    ));
}

proof fn lemma_seq_add_line_order(st: SequenceModel, raw: Seq<char>)
    ensures
        seq_add_line(st, raw).participants == add_participants(st.participants, line_appearances(raw)),
        seq_add_line(st, raw).messages == st.messages + line_messages(raw),
{
    let line = trim(raw);
    if line.len() == 0 || starts_with(line, seq!['%', '%']) {
        assert(st.messages + line_messages(raw) =~= st.messages);
    } else if starts_with(line, participant_keyword()) {
        let (id, label) = participant_decl(line.skip(12));
        lemma_add_participants_small(st.participants, ParticipantModel { id, label }, ParticipantModel { id, label });
        assert(st.messages + line_messages(raw) =~= st.messages);
    } else {
        match message_of(line) {
            Some(m) => {
                let f = ParticipantModel { id: m.from, label: m.from };
                let t = ParticipantModel { id: m.to, label: m.to };
                lemma_add_participants_small(st.participants, f, t);
                assert(st.messages + line_messages(raw) =~= st.messages.push(m));
            },
            None => {
                assert(st.messages + line_messages(raw) =~= st.messages);
            },
        }
    }
}

proof fn lemma_seq_add_lines_order(st: SequenceModel, ls: Seq<Seq<char>>)
    ensures
        seq_add_lines(st, ls).participants == add_participants(st.participants, lines_appearances(ls)),
        seq_add_lines(st, ls).messages == st.messages + lines_messages(ls),
    decreases ls.len(),
{
    if ls.len() == 0 {
        assert(st.messages + lines_messages(ls) =~= st.messages);
    } else {
        lemma_seq_add_lines_order(st, ls.drop_last());
        lemma_seq_add_line_order(seq_add_lines(st, ls.drop_last()), ls.last());
        lemma_add_participants_concat(st.participants, lines_appearances(ls.drop_last()), line_appearances(ls.last()));
        assert(st.messages + lines_messages(ls) =~= (st.messages + lines_messages(ls.drop_last())) + line_messages(
            ls.last(),
        ));
    }
}

/// A parsed sequence diagram keeps the order of its source: participants
/// come in order of first appearance, each with the label of that first
/// appearance (a declaration `participant X as Y` gives label `Y`, and a
/// later message naming `X`, or a later declaration of `X`, changes nothing;
/// an id first met in a message is its own label), and messages come in
/// source order.
pub proof fn law_sequence_source_order(input: Seq<char>)
    ensures
        parse_sequence(input).participants == add_participants(Seq::empty(), lines_appearances(body_lines(input))),
        parse_sequence(input).messages == lines_messages(body_lines(input)),
{
    lemma_seq_add_lines_order(empty_sequence(), body_lines(input));
    assert(Seq::<MessageModel>::empty() + lines_messages(body_lines(input)) =~= lines_messages(body_lines(input)));
    if lines(input).len() == 0 {
        assert(lines_appearances(body_lines(input)) =~= Seq::<ParticipantModel>::empty());
        assert(lines_messages(body_lines(input)) =~= Seq::<MessageModel>::empty());
    }
}

/// Every participant id and both ends of every message start and end with
/// a char that is not whitespace.
pub open spec fn ends_unpadded(d: SequenceModel) -> bool {
    &&& forall|i: int| 0 <= i < d.participants.len() ==> unpadded(#[trigger] d.participants[i].id)
    &&& forall|j: int| 0 <= j < d.messages.len() ==> unpadded((#[trigger] d.messages[j]).from) && unpadded(
        d.messages[j].to,
    )
}

proof fn lemma_message_from_arrow_unpadded(line: Seq<char>, k: int)
    ensures
        message_from_arrow(line, k) matches Some(m) ==> unpadded(m.from) && unpadded(m.to),
    decreases 4 - k,
{
    if 0 <= k < 4 {
        match find_str(line, message_arrow(k)) {
            Some(pos) => {
                let rest = line.skip(pos + message_arrow(k).len());
                lemma_trim_unpadded(line.take(pos));
                lemma_trim_unpadded(rest);
                if let Some(c) = find_char(rest, ':') {
                    lemma_trim_unpadded(rest.take(c));
                }
            },
            None => lemma_message_from_arrow_unpadded(line, k + 1),
        }
    }
}

proof fn lemma_seq_add_lines_unpadded(st: SequenceModel, ls: Seq<Seq<char>>)
    requires
        ends_unpadded(st),
    ensures
        ends_unpadded(seq_add_lines(st, ls)),
    decreases ls.len(),
{
    if ls.len() > 0 {
        lemma_seq_add_lines_unpadded(st, ls.drop_last());
        let s2 = seq_add_lines(st, ls.drop_last());
        let line = trim(ls.last());
        if line.len() == 0 || starts_with(line, seq!['%', '%']) {
        } else if starts_with(line, participant_keyword()) {
            let rest = line.skip(12);
            lemma_trim_unpadded(rest);
            if let Some(q) = find_str(rest, as_keyword()) {
                lemma_trim_unpadded(rest.take(q));
            }
        } else {
            lemma_message_from_arrow_unpadded(line, 0);
        }
    }
}

/// Whitespace around an arrow or a name never reaches an id: every sender
/// and receiver of a parsed message is the text around its arrow trimmed,
/// and so is every participant id, so `A ->> B` and `A->>B` join the same
/// participants.
pub proof fn law_sequence_ends_trimmed(input: Seq<char>)
    ensures
        ends_unpadded(parse_sequence(input)),
{
    if lines(input).len() > 0 {
        lemma_seq_add_lines_unpadded(empty_sequence(), lines(input).skip(1));
    }
}

} // verus!
