//! Telemetry as comma-separated values: a header, and one wide row per snapshot.
//! The rows' measured rates come as text.
use crate::control::{
    AnchorProbeOutcome, AnchorProbeReason, AnchorProbeState, StageScalingState,
};
use crate::telemetry::{AnchorSnapshot, LinkSnapshot, PiperSnapshot, StageSnapshot};
use crate::text::{bool_text, decimal_text, join_with_commas, push_decimal};
use crate::text;
use crate::trend;
use vstd::prelude::*;
use vstd::string::*;

verus! {

/// The character makes a field's quotes necessary.
pub open spec fn is_special(ch: char) -> bool {
    ch == ',' || ch == '"' || ch == '\n' || ch == '\r'
}

pub open spec fn needs_quotes(value: Seq<char>) -> bool {
    exists|i: int| 0 <= i < value.len() && is_special(#[trigger] value[i])
}

/// A text with every double quote doubled.
pub open spec fn quotes_doubled(value: Seq<char>) -> Seq<char>
    decreases value.len(),
{
    if value.len() == 0 {
        Seq::empty()
    } else if value.last() == '"' {
        quotes_doubled(value.drop_last()).push('"').push('"')
    } else {
        quotes_doubled(value.drop_last()).push(value.last())
    }
}

/// A value as a field: in quotes where it holds a character that needs them.
pub open spec fn escaped(value: Seq<char>) -> Seq<char> {
    if needs_quotes(value) {
        seq!['"'] + quotes_doubled(value) + seq!['"']
    } else {
        value
    }
}

/// A value as a field.
pub fn csv_escape(value: &str) -> (field: String)
    ensures
        field@ == escaped(value@),
{
    let count: usize = value.unicode_len();
    let mut quoted: bool = false;
    let mut inner = String::new();
    inner.push('"');
    let mut index: usize = 0;
    while index < count
        invariant
            index <= count,
            count == value@.len(),
            quoted == needs_quotes(value@.take(index as int)),
            inner@ == seq!['"'] + quotes_doubled(value@.take(index as int)),
        decreases count - index,
    {
        let ch: char = value.get_char(index);
        let ghost earlier = value@.take(index as int);
        let ghost later = value@.take(index + 1);
        proof {
            assert(later.drop_last() =~= earlier);
            assert(later.last() == ch);
            if needs_quotes(earlier) {
                let i = choose|i: int| 0 <= i < earlier.len() && is_special(#[trigger] earlier[i]);
                assert(is_special(later[i]));
            }
            if is_special(ch) {
                assert(is_special(later[index as int]));
            }
            if needs_quotes(later) && !is_special(ch) {
                let i = choose|i: int| 0 <= i < later.len() && is_special(#[trigger] later[i]);
                assert(is_special(earlier[i]));
            }
        }
        if ch == ',' || ch == '"' || ch == '\n' || ch == '\r' {
            quoted = true;
        }
        if ch == '"' {
            inner.push('"');
        }
        inner.push(ch);
        index += 1;
        assert(inner@ =~= seq!['"'] + quotes_doubled(later));
    }
    assert(value@.take(index as int) =~= value@);
    if quoted {
        inner.push('"');
        assert(inner@ =~= escaped(value@));
        inner
    } else {
        value.to_string()
    }
}

/// A text with every two double quotes in a row made one.
pub open spec fn quotes_halved(text: Seq<char>) -> Seq<char>
    decreases text.len(),
{
    if text.len() == 0 {
        Seq::empty()
    } else if text.len() >= 2 && text.last() == '"' && text[text.len() - 2] == '"' {
        quotes_halved(text.drop_last().drop_last()).push('"')
    } else {
        quotes_halved(text.drop_last()).push(text.last())
    }
}

/// What a reader takes a field for.
pub open spec fn field_value(field: Seq<char>) -> Seq<char> {
    if field.len() >= 2 && field[0] == '"' {
        quotes_halved(field.subrange(1, field.len() - 1))
    } else {
        field
    }
}

proof fn lemma_doubled_then_halved(value: Seq<char>)
    ensures
        quotes_halved(quotes_doubled(value)) == value,
    decreases value.len(),
{
    if value.len() > 0 {
        let rest = value.drop_last();
        lemma_doubled_then_halved(rest);
        let inner = quotes_doubled(rest);
        if value.last() == '"' {
            assert(inner.push('"').push('"').drop_last().drop_last() =~= inner);
        } else {
            assert(inner.push(value.last()).drop_last() =~= inner);
        }
        assert(rest.push(value.last()) =~= value);
    }
}

/// A field gives its value back.
pub proof fn law_field_gives_its_value_back(value: Seq<char>)
    ensures
        field_value(escaped(value)) == value,
{
    lemma_doubled_then_halved(value);
    let field = escaped(value);
    if needs_quotes(value) {
        assert(field.subrange(1, field.len() - 1) =~= quotes_doubled(value));
    } else if value.len() >= 2 {
        assert(!is_special(value[0]));
    }
}

/// A field without quotes holds no separator and no line end.
pub proof fn law_plain_field_holds_no_separator(value: Seq<char>, i: int)
    requires
        !needs_quotes(value),
        0 <= i < escaped(value).len(),
    ensures
        escaped(value)[i] != ',',
        escaped(value)[i] != '\n',
        escaped(value)[i] != '\r',
{
    assert(!is_special(value[i]));
}

/// A number between two texts.
pub open spec fn numbered(before: Seq<char>, number: usize, after: Seq<char>) -> Seq<char> {
    before + text::decimal(number as nat) + after
}

fn numbered_text(before: &str, number: usize, after: &str) -> (name: String)
    ensures
        name@ == numbered(before@, number, after@),
{
    let mut name = before.to_string();
    push_decimal(&mut name, number as u64);
    name.append(after);
    name
}

fn add_field(fields: &mut Vec<String>, field: String)
    ensures
        text::texts(final(fields)@) == text::texts(old(fields)@).push(field@),
{
    let ghost before = fields@;
    fields.push(field);
    assert(text::texts(fields@) =~= text::texts(before).push(field@));
}

fn add_number(fields: &mut Vec<String>, number: usize)
    ensures
        text::texts(final(fields)@) == text::texts(old(fields)@).push(
            text::decimal(number as nat),
        ),
{
    add_field(fields, decimal_text(number as u64));
}

/// The names of the columns that every pipeline has.
pub open spec fn common_names() -> Seq<Seq<char>> {
    seq![
        "elapsed_ms"@,
        "shutdown_requested"@,
        "abort_requested"@,
        "pending_scale_operation"@,
        "parked_threads"@,
        "total_active_workers"@,
        "global_worker_cap"@,
        "budget_pressure"@,
        "output_backpressure"@,
        "anchor_count"@,
    ]
}

/// The names of an anchor's columns.
pub open spec fn anchor_names(index: usize) -> Seq<Seq<char>> {
    seq![
        numbered("anchor"@, index, "_index"@),
        numbered("anchor"@, index, "_name"@),
        numbered("anchor"@, index, "_active_threads"@),
        numbered("anchor"@, index, "_max_threads"@),
        numbered("anchor"@, index, "_fixed_threads"@),
        numbered("anchor"@, index, "_probe_state"@),
        numbered("anchor"@, index, "_last_probe_outcome"@),
        numbered("anchor"@, index, "_last_probe_reason"@),
    ]
}

/// The names of a link's columns.
pub open spec fn link_names(index: usize) -> Seq<Seq<char>> {
    seq![
        numbered("link"@, index, "_len"@),
        numbered("link"@, index, "_trend"@),
        numbered("link"@, index, "_arrival_rate"@),
        numbered("link"@, index, "_drain_rate"@),
        numbered("link"@, index, "_net_rate"@),
        numbered("link"@, index, "_smoothed_len"@),
    ]
}

/// The names of a stage's columns.
pub open spec fn stage_names(index: usize) -> Seq<Seq<char>> {
    seq![
        numbered("stage"@, index, "_name"@),
        numbered("stage"@, index, "_input_link"@),
        numbered("stage"@, index, "_output_link"@),
        numbered("stage"@, index, "_active_threads"@),
        numbered("stage"@, index, "_processed_count"@),
        numbered("stage"@, index, "_busy_ratio"@),
        numbered("stage"@, index, "_service_time_ms"@),
        numbered("stage"@, index, "_per_worker_throughput"@),
        numbered("stage"@, index, "_desired_workers"@),
        numbered("stage"@, index, "_scaling_state"@),
        numbered("stage"@, index, "_is_anchor"@),
        numbered("stage"@, index, "_is_fixed_anchor"@),
    ]
}

/// The groups of a list, one after another.
pub open spec fn flattened(groups: Seq<Seq<Seq<char>>>) -> Seq<Seq<char>>
    decreases groups.len(),
{
    if groups.len() == 0 {
        Seq::empty()
    } else {
        flattened(groups.drop_last()) + groups.last()
    }
}

/// The column names of a pipeline: the common ones, then those of its anchors,
/// links and stages.
pub open spec fn header_fields<G, D>(snapshot: PiperSnapshot<G, D>) -> Seq<Seq<char>> {
    common_names() + flattened(
        Seq::new(snapshot.anchors@.len(), |i: int| anchor_names(i as usize)),
    ) + flattened(Seq::new(snapshot.links@.len(), |i: int| link_names(snapshot.links@[i].index)))
        + flattened(
        Seq::new(snapshot.stages@.len(), |i: int| stage_names(snapshot.stages@[i].index)),
    )
}

fn add_anchor_names(fields: &mut Vec<String>, index: usize)
    ensures
        text::texts(final(fields)@) == text::texts(old(fields)@) + anchor_names(index),
{
    add_field(fields, numbered_text("anchor", index, "_index"));
    add_field(fields, numbered_text("anchor", index, "_name"));
    add_field(fields, numbered_text("anchor", index, "_active_threads"));
    add_field(fields, numbered_text("anchor", index, "_max_threads"));
    add_field(fields, numbered_text("anchor", index, "_fixed_threads"));
    add_field(fields, numbered_text("anchor", index, "_probe_state"));
    add_field(fields, numbered_text("anchor", index, "_last_probe_outcome"));
    add_field(fields, numbered_text("anchor", index, "_last_probe_reason"));
}

fn add_link_names(fields: &mut Vec<String>, index: usize)
    ensures
        text::texts(final(fields)@) == text::texts(old(fields)@) + link_names(index),
{
    add_field(fields, numbered_text("link", index, "_len"));
    add_field(fields, numbered_text("link", index, "_trend"));
    add_field(fields, numbered_text("link", index, "_arrival_rate"));
    add_field(fields, numbered_text("link", index, "_drain_rate"));
    add_field(fields, numbered_text("link", index, "_net_rate"));
    add_field(fields, numbered_text("link", index, "_smoothed_len"));
}

fn add_stage_names(fields: &mut Vec<String>, index: usize)
    ensures
        text::texts(final(fields)@) == text::texts(old(fields)@) + stage_names(index),
{
    add_field(fields, numbered_text("stage", index, "_name"));
    add_field(fields, numbered_text("stage", index, "_input_link"));
    add_field(fields, numbered_text("stage", index, "_output_link"));
    add_field(fields, numbered_text("stage", index, "_active_threads"));
    add_field(fields, numbered_text("stage", index, "_processed_count"));
    add_field(fields, numbered_text("stage", index, "_busy_ratio"));
    add_field(fields, numbered_text("stage", index, "_service_time_ms"));
    add_field(fields, numbered_text("stage", index, "_per_worker_throughput"));
    add_field(fields, numbered_text("stage", index, "_desired_workers"));
    add_field(fields, numbered_text("stage", index, "_scaling_state"));
    add_field(fields, numbered_text("stage", index, "_is_anchor"));
    add_field(fields, numbered_text("stage", index, "_is_fixed_anchor"));
}

/// The header of a pipeline's telemetry.
pub fn csv_header<G, D>(snapshot: &PiperSnapshot<G, D>) -> (line: String)
    ensures
        line@ == text::comma_separated(header_fields(*snapshot)),
{
    let mut fields: Vec<String> = Vec::new();
    add_field(&mut fields, "elapsed_ms".to_string());
    add_field(&mut fields, "shutdown_requested".to_string());
    add_field(&mut fields, "abort_requested".to_string());
    add_field(&mut fields, "pending_scale_operation".to_string());
    add_field(&mut fields, "parked_threads".to_string());
    add_field(&mut fields, "total_active_workers".to_string());
    add_field(&mut fields, "global_worker_cap".to_string());
    add_field(&mut fields, "budget_pressure".to_string());
    add_field(&mut fields, "output_backpressure".to_string());
    add_field(&mut fields, "anchor_count".to_string());
    assert(text::texts(fields@) =~= common_names());
    let ghost start = text::texts(fields@);
    let ghost groups = Seq::new(snapshot.anchors@.len(), |i: int| anchor_names(i as usize));
    let mut index: usize = 0;
    assert(text::texts(fields@) =~= start + flattened(groups.take(0)));
    while index < snapshot.anchors.len()
        invariant
            index <= snapshot.anchors@.len(),
            groups == Seq::new(snapshot.anchors@.len(), |i: int| anchor_names(i as usize)),
            text::texts(fields@) == start + flattened(groups.take(index as int)),
        decreases snapshot.anchors@.len() - index,
    {
        add_anchor_names(&mut fields, index);
        assert(groups.take(index + 1).drop_last() =~= groups.take(index as int));
        index += 1;
        assert(text::texts(fields@) =~= start + flattened(groups.take(index as int)));
    }
    assert(groups.take(index as int) =~= groups);
    let ghost start = text::texts(fields@);
    let ghost groups = Seq::new(
        snapshot.links@.len(),
        |i: int| link_names(snapshot.links@[i].index),
    );
    let mut index: usize = 0;
    assert(text::texts(fields@) =~= start + flattened(groups.take(0)));
    while index < snapshot.links.len()
        invariant
            index <= snapshot.links@.len(),
            groups == Seq::new(
                snapshot.links@.len(),
                |i: int| link_names(snapshot.links@[i].index),
            ),
            text::texts(fields@) == start + flattened(groups.take(index as int)),
        decreases snapshot.links@.len() - index,
    {
        add_link_names(&mut fields, snapshot.links[index].index);
        assert(groups.take(index + 1).drop_last() =~= groups.take(index as int));
        index += 1;
        assert(text::texts(fields@) =~= start + flattened(groups.take(index as int)));
    }
    assert(groups.take(index as int) =~= groups);
    let ghost start = text::texts(fields@);
    let ghost groups = Seq::new(
        snapshot.stages@.len(),
        |i: int| stage_names(snapshot.stages@[i].index),
    );
    let mut index: usize = 0;
    assert(text::texts(fields@) =~= start + flattened(groups.take(0)));
    while index < snapshot.stages.len()
        invariant
            index <= snapshot.stages@.len(),
            groups == Seq::new(
                snapshot.stages@.len(),
                |i: int| stage_names(snapshot.stages@[i].index),
            ),
            text::texts(fields@) == start + flattened(groups.take(index as int)),
        decreases snapshot.stages@.len() - index,
    {
        add_stage_names(&mut fields, snapshot.stages[index].index);
        assert(groups.take(index + 1).drop_last() =~= groups.take(index as int));
        index += 1;
        assert(text::texts(fields@) =~= start + flattened(groups.take(index as int)));
    }
    assert(groups.take(index as int) =~= groups);
    assert(text::texts(fields@) =~= header_fields(*snapshot));
    join_with_commas(&fields)
}

/// The name of the state in a row.
pub open spec fn probe_state_word(value: AnchorProbeState) -> Seq<char> {
    match value {
        AnchorProbeState::WarmingUp => "WarmingUp"@,
        AnchorProbeState::Eligible => "Eligible"@,
        AnchorProbeState::Probing => "Probing"@,
        AnchorProbeState::BackingOff => "BackingOff"@,
        AnchorProbeState::AtMax => "AtMax"@,
    }
}

fn probe_state_text(value: AnchorProbeState) -> (text: String)
    ensures
        text@ == probe_state_word(value),
{
    match value {
        AnchorProbeState::WarmingUp => "WarmingUp".to_string(),
        AnchorProbeState::Eligible => "Eligible".to_string(),
        AnchorProbeState::Probing => "Probing".to_string(),
        AnchorProbeState::BackingOff => "BackingOff".to_string(),
        AnchorProbeState::AtMax => "AtMax".to_string(),
    }
}

/// The name of the outcome in a row.
pub open spec fn probe_outcome_word(value: AnchorProbeOutcome) -> Seq<char> {
    match value {
        AnchorProbeOutcome::Unset => "None"@,
        AnchorProbeOutcome::Kept => "Kept"@,
        AnchorProbeOutcome::Reverted => "Reverted"@,
    }
}

fn probe_outcome_text(value: AnchorProbeOutcome) -> (text: String)
    ensures
        text@ == probe_outcome_word(value),
{
    match value {
        AnchorProbeOutcome::Unset => "None".to_string(),
        AnchorProbeOutcome::Kept => "Kept".to_string(),
        AnchorProbeOutcome::Reverted => "Reverted".to_string(),
    }
}

/// The name of the reason in a row.
pub open spec fn probe_reason_word(value: AnchorProbeReason) -> Seq<char> {
    match value {
        AnchorProbeReason::Unset => "None"@,
        AnchorProbeReason::InputUnderfed => "InputUnderfed"@,
        AnchorProbeReason::OutputBackpressure => "OutputBackpressure"@,
        AnchorProbeReason::BudgetPressure => "BudgetPressure"@,
        AnchorProbeReason::SupportUnstable => "SupportUnstable"@,
        AnchorProbeReason::Idle => "Idle"@,
    }
}

fn probe_reason_text(value: AnchorProbeReason) -> (text: String)
    ensures
        text@ == probe_reason_word(value),
{
    match value {
        AnchorProbeReason::Unset => "None".to_string(),
        AnchorProbeReason::InputUnderfed => "InputUnderfed".to_string(),
        AnchorProbeReason::OutputBackpressure => "OutputBackpressure".to_string(),
        AnchorProbeReason::BudgetPressure => "BudgetPressure".to_string(),
        AnchorProbeReason::SupportUnstable => "SupportUnstable".to_string(),
        AnchorProbeReason::Idle => "Idle".to_string(),
    }
}

/// The name of the state in a row.
pub open spec fn scaling_state_word(value: StageScalingState) -> Seq<char> {
    match value {
        StageScalingState::Eligible => "Eligible"@,
        StageScalingState::Settling => "Settling"@,
        StageScalingState::Probing => "Probing"@,
        StageScalingState::BackingOff => "BackingOff"@,
    }
}

fn scaling_state_text(value: StageScalingState) -> (text: String)
    ensures
        text@ == scaling_state_word(value),
{
    match value {
        StageScalingState::Eligible => "Eligible".to_string(),
        StageScalingState::Settling => "Settling".to_string(),
        StageScalingState::Probing => "Probing".to_string(),
        StageScalingState::BackingOff => "BackingOff".to_string(),
    }
}

/// The columns that every pipeline has.
pub open spec fn common_fields(
    elapsed_ms: Seq<char>,
    snapshot: PiperSnapshot<String, String>,
) -> Seq<Seq<char>> {
    seq![
        elapsed_ms,
        text::bool_word(snapshot.shutdown_requested),
        text::bool_word(snapshot.abort_requested),
        text::bool_word(snapshot.pending_scale_operation),
        text::decimal(snapshot.parked_threads as nat),
        text::decimal(snapshot.total_active_workers as nat),
        text::decimal(snapshot.global_worker_cap as nat),
        text::bool_word(snapshot.budget_pressure),
        text::bool_word(snapshot.output_backpressure),
        text::decimal(snapshot.anchors@.len()),
    ]
}

/// A fixed thread count, or nothing.
pub open spec fn optional_number(number: Option<usize>) -> Seq<char> {
    match number {
        Some(number) => text::decimal(number as nat),
        None => Seq::empty(),
    }
}

/// An anchor's columns.
pub open spec fn anchor_fields(anchor: AnchorSnapshot) -> Seq<Seq<char>> {
    seq![
        text::decimal(anchor.stage_index as nat),
        escaped(anchor.stage_name@),
        text::decimal(anchor.active_threads as nat),
        text::decimal(anchor.max_threads as nat),
        optional_number(anchor.fixed_threads),
        probe_state_word(anchor.probe_state),
        probe_outcome_word(anchor.last_probe_outcome),
        probe_reason_word(anchor.last_probe_reason),
    ]
}

/// A link's columns.
pub open spec fn link_fields(link: LinkSnapshot<String>) -> Seq<Seq<char>> {
    seq![
        text::decimal(link.len as nat),
        text::decimal(trend::trend_code(link.trend) as nat),
        link.arrival_rate@,
        link.drain_rate@,
        link.net_rate@,
        link.smoothed_len@,
    ]
}

/// A stage's columns.
pub open spec fn stage_fields(stage: StageSnapshot<String, String>) -> Seq<Seq<char>> {
    seq![
        escaped(stage.name@),
        text::decimal(stage.input_link as nat),
        text::decimal(stage.output_link as nat),
        text::decimal(stage.active_threads as nat),
        text::decimal(stage.processed_count as nat),
        stage.busy_ratio@,
        stage.service_time@,
        stage.per_worker_throughput@,
        text::decimal(stage.desired_workers as nat),
        scaling_state_word(stage.scaling_state),
        text::bool_word(stage.is_anchor),
        text::bool_word(stage.is_fixed_anchor),
    ]
}

/// The columns of a snapshot, in the order of the header.
pub open spec fn row_fields(
    elapsed_ms: Seq<char>,
    snapshot: PiperSnapshot<String, String>,
) -> Seq<Seq<char>> {
    common_fields(elapsed_ms, snapshot) + flattened(
        Seq::new(snapshot.anchors@.len(), |i: int| anchor_fields(snapshot.anchors@[i])),
    ) + flattened(Seq::new(snapshot.links@.len(), |i: int| link_fields(snapshot.links@[i])))
        + flattened(
        Seq::new(snapshot.stages@.len(), |i: int| stage_fields(snapshot.stages@[i])),
    )
}

fn add_anchor_fields(fields: &mut Vec<String>, anchor: &AnchorSnapshot)
    ensures
        text::texts(final(fields)@) == text::texts(old(fields)@) + anchor_fields(*anchor),
{
    add_number(fields, anchor.stage_index);
    add_field(fields, csv_escape(anchor.stage_name.as_str()));
    add_number(fields, anchor.active_threads);
    add_number(fields, anchor.max_threads);
    match anchor.fixed_threads {
        Some(threads) => add_number(fields, threads),
        None => add_field(fields, String::new()),
    }
    add_field(fields, probe_state_text(anchor.probe_state));
    add_field(fields, probe_outcome_text(anchor.last_probe_outcome));
    add_field(fields, probe_reason_text(anchor.last_probe_reason));
}

fn add_link_fields(fields: &mut Vec<String>, link: &LinkSnapshot<String>)
    ensures
        text::texts(final(fields)@) == text::texts(old(fields)@) + link_fields(*link),
{
    add_number(fields, link.len);
    add_field(fields, decimal_text(link.trend.code() as u64));
    add_field(fields, link.arrival_rate.clone());
    add_field(fields, link.drain_rate.clone());
    add_field(fields, link.net_rate.clone());
    add_field(fields, link.smoothed_len.clone());
}

fn add_stage_fields(fields: &mut Vec<String>, stage: &StageSnapshot<String, String>)
    ensures
        text::texts(final(fields)@) == text::texts(old(fields)@) + stage_fields(*stage),
{
    add_field(fields, csv_escape(stage.name.as_str()));
    add_number(fields, stage.input_link);
    add_number(fields, stage.output_link);
    add_number(fields, stage.active_threads);
    add_field(fields, decimal_text(stage.processed_count));
    add_field(fields, stage.busy_ratio.clone());
    add_field(fields, stage.service_time.clone());
    add_field(fields, stage.per_worker_throughput.clone());
    add_number(fields, stage.desired_workers);
    add_field(fields, scaling_state_text(stage.scaling_state));
    add_field(fields, bool_text(stage.is_anchor));
    add_field(fields, bool_text(stage.is_fixed_anchor));
}

/// The row of a snapshot.
pub fn csv_row(elapsed_ms: &str, snapshot: &PiperSnapshot<String, String>) -> (line: String)
    ensures
        line@ == text::comma_separated(row_fields(elapsed_ms@, *snapshot)),
{
    let mut fields: Vec<String> = Vec::new();
    add_field(&mut fields, elapsed_ms.to_string());
    add_field(&mut fields, bool_text(snapshot.shutdown_requested));
    add_field(&mut fields, bool_text(snapshot.abort_requested));
    add_field(&mut fields, bool_text(snapshot.pending_scale_operation));
    add_number(&mut fields, snapshot.parked_threads);
    add_number(&mut fields, snapshot.total_active_workers);
    add_number(&mut fields, snapshot.global_worker_cap);
    add_field(&mut fields, bool_text(snapshot.budget_pressure));
    add_field(&mut fields, bool_text(snapshot.output_backpressure));
    add_number(&mut fields, snapshot.anchors.len());
    assert(text::texts(fields@) =~= common_fields(elapsed_ms@, *snapshot));
    let ghost start = text::texts(fields@);
    let ghost groups = Seq::new(
        snapshot.anchors@.len(),
        |i: int| anchor_fields(snapshot.anchors@[i]),
    );
    let mut index: usize = 0;
    assert(text::texts(fields@) =~= start + flattened(groups.take(0)));
    while index < snapshot.anchors.len()
        invariant
            index <= snapshot.anchors@.len(),
            groups == Seq::new(snapshot.anchors@.len(), |i: int| anchor_fields(snapshot.anchors@[i])),
            text::texts(fields@) == start + flattened(groups.take(index as int)),
        decreases snapshot.anchors@.len() - index,
    {
        add_anchor_fields(&mut fields, &snapshot.anchors[index]);
        assert(groups.take(index + 1).drop_last() =~= groups.take(index as int));
        index += 1;
        assert(text::texts(fields@) =~= start + flattened(groups.take(index as int)));
    }
    assert(groups.take(index as int) =~= groups);
    let ghost start = text::texts(fields@);
    let ghost groups = Seq::new(
        snapshot.links@.len(),
        |i: int| link_fields(snapshot.links@[i]),
    );
    let mut index: usize = 0;
    assert(text::texts(fields@) =~= start + flattened(groups.take(0)));
    while index < snapshot.links.len()
        invariant
            index <= snapshot.links@.len(),
            groups == Seq::new(snapshot.links@.len(), |i: int| link_fields(snapshot.links@[i])),
            text::texts(fields@) == start + flattened(groups.take(index as int)),
        decreases snapshot.links@.len() - index,
    {
        add_link_fields(&mut fields, &snapshot.links[index]);
        assert(groups.take(index + 1).drop_last() =~= groups.take(index as int));
        index += 1;
        assert(text::texts(fields@) =~= start + flattened(groups.take(index as int)));
    }
    assert(groups.take(index as int) =~= groups);
    let ghost start = text::texts(fields@);
    let ghost groups = Seq::new(
        snapshot.stages@.len(),
        |i: int| stage_fields(snapshot.stages@[i]),
    );
    let mut index: usize = 0;
    assert(text::texts(fields@) =~= start + flattened(groups.take(0)));
    while index < snapshot.stages.len()
        invariant
            index <= snapshot.stages@.len(),
            groups == Seq::new(snapshot.stages@.len(), |i: int| stage_fields(snapshot.stages@[i])),
            text::texts(fields@) == start + flattened(groups.take(index as int)),
        decreases snapshot.stages@.len() - index,
    {
        add_stage_fields(&mut fields, &snapshot.stages[index]);
        assert(groups.take(index + 1).drop_last() =~= groups.take(index as int));
        index += 1;
        assert(text::texts(fields@) =~= start + flattened(groups.take(index as int)));
    }
    assert(groups.take(index as int) =~= groups);
    assert(text::texts(fields@) =~= row_fields(elapsed_ms@, *snapshot));
    join_with_commas(&fields)
}

proof fn lemma_flattened_len(groups: Seq<Seq<Seq<char>>>, size: nat)
    requires
        forall|i: int| 0 <= i < groups.len() ==> (#[trigger] groups[i]).len() == size,
    ensures
        flattened(groups).len() == groups.len() * size,
    decreases groups.len(),
{
    if groups.len() > 0 {
        lemma_flattened_len(groups.drop_last(), size);
        assert(groups.len() * size == (groups.len() - 1) * size + size) by (nonlinear_arith)
            requires
                groups.len() > 0,
        ;
    } else {
        assert(0 * size == 0) by (nonlinear_arith);
    }
}

/// A row has as many columns as the header of the same pipeline names.
pub proof fn law_row_fits_the_header<G, D>(
    first: PiperSnapshot<G, D>,
    later: PiperSnapshot<String, String>,
    elapsed_ms: Seq<char>,
)
    requires
        first.anchors@.len() == later.anchors@.len(),
        first.links@.len() == later.links@.len(),
        first.stages@.len() == later.stages@.len(),
    ensures
        header_fields(first).len() == row_fields(elapsed_ms, later).len(),
        header_fields(first).len() == 10 + 8 * first.anchors@.len() + 6 * first.links@.len() + 12
            * first.stages@.len(),
{
    lemma_flattened_len(
        Seq::new(first.anchors@.len(), |i: int| anchor_names(i as usize)),
        8,
    );
    lemma_flattened_len(
        Seq::new(first.links@.len(), |i: int| link_names(first.links@[i].index)),
        6,
    );
    lemma_flattened_len(
        Seq::new(first.stages@.len(), |i: int| stage_names(first.stages@[i].index)),
        12,
    );
    lemma_flattened_len(
        Seq::new(later.anchors@.len(), |i: int| anchor_fields(later.anchors@[i])),
        8,
    );
    lemma_flattened_len(
        Seq::new(later.links@.len(), |i: int| link_fields(later.links@[i])),
        6,
    );
    lemma_flattened_len(
        Seq::new(later.stages@.len(), |i: int| stage_fields(later.stages@[i])),
        12,
    );
}

/// How far a reader of a line has come: the fields that it has read, the value of
/// the one that it reads, and whether it is between quotes.
pub struct Reading {
    pub done: Seq<Seq<char>>,
    pub value: Seq<char>,
    pub mode: ReadingMode,
}

/// Where a reader is in a field: outside of quotes, between them, or behind a
/// quote that may be the last or the first of two.
pub enum ReadingMode {
    Plain,
    Quoted,
    QuoteSeen,
}

/// A reader takes one character more.
pub open spec fn read_char(reading: Reading, ch: char) -> Reading {
    if reading.mode is Quoted && ch != '"' {
        Reading { value: reading.value.push(ch), ..reading }
    } else if reading.mode is Quoted {
        Reading { mode: ReadingMode::QuoteSeen, ..reading }
    } else if ch == ',' {
        Reading {
            done: reading.done.push(reading.value),
            value: Seq::empty(),
            mode: ReadingMode::Plain,
        }
    } else if reading.mode is QuoteSeen && ch == '"' {
        Reading { value: reading.value.push('"'), mode: ReadingMode::Quoted, ..reading }
    } else if ch == '"' && reading.value.len() == 0 {
        Reading { mode: ReadingMode::Quoted, ..reading }
    } else {
        Reading { value: reading.value.push(ch), mode: ReadingMode::Plain, ..reading }
    }
}

/// A reader takes a text more.
pub open spec fn read_text(reading: Reading, text: Seq<char>) -> Reading
    decreases text.len(),
{
    if text.len() == 0 {
        reading
    } else {
        read_char(read_text(reading, text.drop_last()), text.last())
    }
}

/// A reader at the start of a field, behind those that it has read.
pub open spec fn new_field(done: Seq<Seq<char>>) -> Reading {
    Reading { done, value: Seq::empty(), mode: ReadingMode::Plain }
}

/// The fields of a line, as a reader of comma-separated values takes them.
pub open spec fn line_fields(line: Seq<char>) -> Seq<Seq<char>> {
    let reading = read_text(new_field(Seq::empty()), line);
    reading.done.push(reading.value)
}

proof fn lemma_read_both(reading: Reading, a: Seq<char>, b: Seq<char>)
    ensures
        read_text(reading, a + b) == read_text(read_text(reading, a), b),
    decreases b.len(),
{
    if b.len() == 0 {
        assert(a + b =~= a);
    } else {
        assert((a + b).drop_last() =~= a + b.drop_last());
        lemma_read_both(reading, a, b.drop_last());
    }
}

proof fn lemma_read_one(reading: Reading, ch: char)
    ensures
        read_text(reading, seq![ch]) == read_char(reading, ch),
{
    assert(seq![ch].drop_last() =~= Seq::<char>::empty());
    assert(read_text(reading, seq![ch].drop_last()) == reading);
}

proof fn lemma_read_doubled(reading: Reading, value: Seq<char>)
    requires
        reading.mode is Quoted,
        reading.value.len() == 0,
    ensures
        read_text(reading, quotes_doubled(value)) == (Reading { value, ..reading }),
    decreases value.len(),
{
    if value.len() == 0 {
        assert(reading.value =~= value);
    } else {
        let rest = value.drop_last();
        let inner = quotes_doubled(rest);
        lemma_read_doubled(reading, rest);
        assert(rest.push(value.last()) =~= value);
        let once = inner.push(value.last());
        assert(once.drop_last() =~= inner);
        assert(read_text(reading, once) == read_char(Reading { value: rest, ..reading }, once.last()));
        if value.last() == '"' {
            assert(once.push('"').drop_last() =~= once);
        }
    }
}

proof fn lemma_read_plain(done: Seq<Seq<char>>, value: Seq<char>)
    requires
        !needs_quotes(value),
    ensures
        read_text(new_field(done), value) == (Reading { done, value, mode: ReadingMode::Plain }),
    decreases value.len(),
{
    if value.len() == 0 {
        assert(value =~= Seq::empty());
    } else {
        let rest = value.drop_last();
        assert forall|i: int| 0 <= i < rest.len() implies !is_special(#[trigger] rest[i]) by {
            assert(!is_special(value[i]));
        }
        lemma_read_plain(done, rest);
        assert(!is_special(value[value.len() - 1]));
        assert(rest.push(value.last()) =~= value);
    }
}

/// A reader takes a field for the value that it was made of.
proof fn lemma_read_field(done: Seq<Seq<char>>, value: Seq<char>)
    ensures
        ({
            let reading = read_text(new_field(done), escaped(value));
            reading.done == done && reading.value == value && !(reading.mode is Quoted)
        }),
{
    if needs_quotes(value) {
        let start = new_field(done);
        let quoted = Reading { mode: ReadingMode::Quoted, ..start };
        let open = seq!['"'];
        let inner = quotes_doubled(value);
        lemma_read_both(start, open + inner, seq!['"']);
        lemma_read_both(start, open, inner);
        lemma_read_one(start, '"');
        assert(read_text(start, open) == quoted);
        lemma_read_doubled(quoted, value);
        lemma_read_one(Reading { value, ..quoted }, '"');
    } else {
        lemma_read_plain(done, value);
    }
}

/// The fields are made of the values, one by one.
pub open spec fn are_fields_of(fields: Seq<Seq<char>>, values: Seq<Seq<char>>) -> bool {
    fields.len() == values.len() && forall|i: int|
        0 <= i < fields.len() ==> #[trigger] fields[i] == escaped(values[i])
}

/// Fields that are joined by commas are read back as the values that they were
/// made of.
pub proof fn law_joined_fields_are_read_back(fields: Seq<Seq<char>>, values: Seq<Seq<char>>)
    requires
        are_fields_of(fields, values),
        fields.len() > 0,
    ensures
        line_fields(text::comma_separated(fields)) == values,
        !(read_text(
            new_field(Seq::empty()),
            text::comma_separated(fields),
        ).mode is Quoted),
    decreases fields.len(),
{
    let start = new_field(Seq::empty());
    if fields.len() == 1 {
        lemma_read_field(Seq::empty(), values[0]);
        assert(line_fields(fields[0]) =~= values);
    } else {
        let before = fields.drop_last();
        let line = text::comma_separated(before);
        assert(are_fields_of(before, values.drop_last()));
        law_joined_fields_are_read_back(before, values.drop_last());
        assert(line.push(',') + fields.last() =~= line + seq![','] + fields.last());
        lemma_read_both(start, line + seq![','], fields.last());
        lemma_read_both(start, line, seq![',']);
        lemma_read_one(read_text(start, line), ',');
        lemma_read_field(values.drop_last(), values.last());
        assert(read_text(start, line + seq![',']) == new_field(values.drop_last()));
        assert(fields.last() == escaped(values.last()));
        assert(values.drop_last().push(values.last()) =~= values);
    }
}

/// An anchor's columns, with its name as it is.
pub open spec fn anchor_values(anchor: AnchorSnapshot) -> Seq<Seq<char>> {
    anchor_fields(anchor).update(1, anchor.stage_name@)
}

/// A stage's columns, with its name as it is.
pub open spec fn stage_values(stage: StageSnapshot<String, String>) -> Seq<Seq<char>> {
    stage_fields(stage).update(0, stage.name@)
}

/// The columns of a snapshot, with the names as they are.
pub open spec fn row_values(
    elapsed_ms: Seq<char>,
    snapshot: PiperSnapshot<String, String>,
) -> Seq<Seq<char>> {
    common_fields(elapsed_ms, snapshot) + flattened(
        Seq::new(snapshot.anchors@.len(), |i: int| anchor_values(snapshot.anchors@[i])),
    ) + flattened(Seq::new(snapshot.links@.len(), |i: int| link_fields(snapshot.links@[i])))
        + flattened(
        Seq::new(snapshot.stages@.len(), |i: int| stage_values(snapshot.stages@[i])),
    )
}

/// The characters that numbers are printed with: digits, signs, a point, and the
/// letters of `e`, `inf` and `NaN`.
pub open spec fn is_number_char(ch: char) -> bool {
    ||| '0' <= ch <= '9' || ch == '+' || ch == '-' || ch == '.'
    ||| 'a' <= ch <= 'z' || 'A' <= ch <= 'Z'
}

/// A printed number needs no quotes.
pub proof fn law_printed_number_is_plain(number: Seq<char>)
    requires
        forall|i: int| 0 <= i < number.len() ==> is_number_char(#[trigger] number[i]),
    ensures
        !needs_quotes(number),
{
    assert forall|i: int| 0 <= i < number.len() implies !is_special(#[trigger] number[i]) by {
        assert(is_number_char(number[i]));
    }
}

/// The measured numbers of a link need no quotes.
pub open spec fn link_is_plain(link: LinkSnapshot<String>) -> bool {
    !needs_quotes(link.arrival_rate@) && !needs_quotes(link.drain_rate@) && !needs_quotes(
        link.net_rate@,
    ) && !needs_quotes(link.smoothed_len@)
}

/// The measured numbers of a stage need no quotes.
pub open spec fn stage_is_plain(stage: StageSnapshot<String, String>) -> bool {
    !needs_quotes(stage.busy_ratio@) && !needs_quotes(stage.service_time@) && !needs_quotes(
        stage.per_worker_throughput@,
    )
}

/// No measured number of the snapshot needs quotes.
pub open spec fn numbers_are_plain(
    elapsed_ms: Seq<char>,
    snapshot: PiperSnapshot<String, String>,
) -> bool {
    &&& !needs_quotes(elapsed_ms)
    &&& forall|i: int|
        0 <= i < snapshot.links@.len() ==> link_is_plain(#[trigger] snapshot.links@[i])
    &&& forall|i: int|
        0 <= i < snapshot.stages@.len() ==> stage_is_plain(#[trigger] snapshot.stages@[i])
}

proof fn lemma_decimal_is_plain(number: nat)
    ensures
        !needs_quotes(text::decimal(number)),
    decreases number,
{
    let digits = text::decimal(number);
    if number >= 10 {
        lemma_decimal_is_plain(number / 10);
        let rest = text::decimal(number / 10);
        assert forall|i: int| 0 <= i < digits.len() implies !is_special(#[trigger] digits[i]) by {
            if i < rest.len() {
                assert(!is_special(rest[i]));
            }
        }
    }
}

proof fn lemma_words_are_plain(yes: bool)
    ensures
        !needs_quotes(text::bool_word(yes)),
        forall|state: AnchorProbeState| !needs_quotes(#[trigger] probe_state_word(state)),
        forall|outcome: AnchorProbeOutcome| !needs_quotes(#[trigger] probe_outcome_word(outcome)),
        forall|reason: AnchorProbeReason| !needs_quotes(#[trigger] probe_reason_word(reason)),
        forall|state: StageScalingState| !needs_quotes(#[trigger] scaling_state_word(state)),
{
    reveal_strlit("true");
    reveal_strlit("false");
    reveal_strlit("WarmingUp");
    reveal_strlit("Eligible");
    reveal_strlit("Probing");
    reveal_strlit("BackingOff");
    reveal_strlit("AtMax");
    reveal_strlit("None");
    reveal_strlit("Kept");
    reveal_strlit("Reverted");
    reveal_strlit("InputUnderfed");
    reveal_strlit("OutputBackpressure");
    reveal_strlit("BudgetPressure");
    reveal_strlit("SupportUnstable");
    reveal_strlit("Idle");
    reveal_strlit("Settling");
}

proof fn lemma_fields_of_both(
    a: Seq<Seq<char>>,
    b: Seq<Seq<char>>,
    c: Seq<Seq<char>>,
    d: Seq<Seq<char>>,
)
    requires
        are_fields_of(a, b),
        are_fields_of(c, d),
    ensures
        are_fields_of(a + c, b + d),
{
    assert forall|i: int| 0 <= i < (a + c).len() implies #[trigger] (a + c)[i] == escaped(
        (b + d)[i],
    ) by {
        if i < a.len() {
            assert(a[i] == escaped(b[i]));
        } else {
            assert(c[i - a.len()] == escaped(d[i - a.len()]));
        }
    }
}

proof fn lemma_fields_of_groups(fields: Seq<Seq<Seq<char>>>, values: Seq<Seq<Seq<char>>>)
    requires
        fields.len() == values.len(),
        forall|i: int| 0 <= i < fields.len() ==> are_fields_of(#[trigger] fields[i], values[i]),
    ensures
        are_fields_of(flattened(fields), flattened(values)),
    decreases fields.len(),
{
    if fields.len() > 0 {
        lemma_fields_of_groups(fields.drop_last(), values.drop_last());
        assert(are_fields_of(fields[fields.len() - 1], values[values.len() - 1]));
        lemma_fields_of_both(
            flattened(fields.drop_last()),
            flattened(values.drop_last()),
            fields.last(),
            values.last(),
        );
    }
}

proof fn lemma_anchor_fields(anchor: AnchorSnapshot)
    ensures
        are_fields_of(anchor_fields(anchor), anchor_values(anchor)),
{
    lemma_words_are_plain(true);
    lemma_decimal_is_plain(anchor.stage_index as nat);
    lemma_decimal_is_plain(anchor.active_threads as nat);
    lemma_decimal_is_plain(anchor.max_threads as nat);
    if let Some(threads) = anchor.fixed_threads {
        lemma_decimal_is_plain(threads as nat);
    }
}

proof fn lemma_link_fields(link: LinkSnapshot<String>)
    requires
        link_is_plain(link),
    ensures
        are_fields_of(link_fields(link), link_fields(link)),
{
    lemma_decimal_is_plain(link.len as nat);
    lemma_decimal_is_plain(trend::trend_code(link.trend) as nat);
}

proof fn lemma_stage_fields(stage: StageSnapshot<String, String>)
    requires
        stage_is_plain(stage),
    ensures
        are_fields_of(stage_fields(stage), stage_values(stage)),
{
    lemma_words_are_plain(stage.is_anchor);
    lemma_words_are_plain(stage.is_fixed_anchor);
    lemma_decimal_is_plain(stage.input_link as nat);
    lemma_decimal_is_plain(stage.output_link as nat);
    lemma_decimal_is_plain(stage.active_threads as nat);
    lemma_decimal_is_plain(stage.processed_count as nat);
    lemma_decimal_is_plain(stage.desired_workers as nat);
}

proof fn lemma_common_fields(elapsed_ms: Seq<char>, snapshot: PiperSnapshot<String, String>)
    requires
        !needs_quotes(elapsed_ms),
    ensures
        are_fields_of(common_fields(elapsed_ms, snapshot), common_fields(elapsed_ms, snapshot)),
{
    lemma_words_are_plain(snapshot.shutdown_requested);
    lemma_words_are_plain(snapshot.abort_requested);
    lemma_words_are_plain(snapshot.pending_scale_operation);
    lemma_words_are_plain(snapshot.budget_pressure);
    lemma_words_are_plain(snapshot.output_backpressure);
    lemma_decimal_is_plain(snapshot.parked_threads as nat);
    lemma_decimal_is_plain(snapshot.total_active_workers as nat);
    lemma_decimal_is_plain(snapshot.global_worker_cap as nat);
    lemma_decimal_is_plain(snapshot.anchors@.len());
}

/// A row is read back field by field, and the names of anchors and stages come
/// out as they are, whatever they hold.
pub proof fn law_row_is_read_back(elapsed_ms: Seq<char>, snapshot: PiperSnapshot<String, String>)
    requires
        numbers_are_plain(elapsed_ms, snapshot),
    ensures
        line_fields(text::comma_separated(row_fields(elapsed_ms, snapshot))) == row_values(
            elapsed_ms,
            snapshot,
        ),
{
    let anchors = snapshot.anchors@;
    let links = snapshot.links@;
    let stages = snapshot.stages@;
    let anchor_groups = Seq::new(anchors.len(), |i: int| anchor_fields(anchors[i]));
    let anchor_names = Seq::new(anchors.len(), |i: int| anchor_values(anchors[i]));
    let link_groups = Seq::new(links.len(), |i: int| link_fields(links[i]));
    let stage_groups = Seq::new(stages.len(), |i: int| stage_fields(stages[i]));
    let stage_names = Seq::new(stages.len(), |i: int| stage_values(stages[i]));
    assert forall|i: int| 0 <= i < anchors.len() implies are_fields_of(
        #[trigger] anchor_groups[i],
        anchor_names[i],
    ) by {
        lemma_anchor_fields(anchors[i]);
    }
    assert forall|i: int| 0 <= i < links.len() implies are_fields_of(
        #[trigger] link_groups[i],
        link_groups[i],
    ) by {
        lemma_link_fields(links[i]);
    }
    assert forall|i: int| 0 <= i < stages.len() implies are_fields_of(
        #[trigger] stage_groups[i],
        stage_names[i],
    ) by {
        lemma_stage_fields(stages[i]);
    }
    let common = common_fields(elapsed_ms, snapshot);
    lemma_common_fields(elapsed_ms, snapshot);
    lemma_fields_of_groups(anchor_groups, anchor_names);
    lemma_fields_of_groups(link_groups, link_groups);
    lemma_fields_of_groups(stage_groups, stage_names);
    let (a, b) = (flattened(anchor_groups), flattened(anchor_names));
    let l = flattened(link_groups);
    lemma_fields_of_both(common, common, a, b);
    lemma_fields_of_both(common + a, common + b, l, l);
    lemma_fields_of_both(
        common + a + l,
        common + b + l,
        flattened(stage_groups),
        flattened(stage_names),
    );
    law_joined_fields_are_read_back(
        row_fields(elapsed_ms, snapshot),
        row_values(elapsed_ms, snapshot),
    );
}

proof fn lemma_numbered_is_plain(before: Seq<char>, number: usize, after: Seq<char>)
    requires
        !needs_quotes(before),
        !needs_quotes(after),
    ensures
        !needs_quotes(numbered(before, number, after)),
{
    let digits = text::decimal(number as nat);
    lemma_decimal_is_plain(number as nat);
    let name = numbered(before, number, after);
    assert forall|i: int| 0 <= i < name.len() implies !is_special(#[trigger] name[i]) by {
        if i < before.len() {
            assert(!is_special(before[i]));
        } else if i < before.len() + digits.len() {
            assert(!is_special(digits[i - before.len()]));
        } else {
            assert(!is_special(after[i - before.len() - digits.len()]));
        }
    }
}

proof fn lemma_common_names()
    ensures
        are_fields_of(common_names(), common_names()),
{
    reveal_strlit("elapsed_ms");
    reveal_strlit("shutdown_requested");
    reveal_strlit("abort_requested");
    reveal_strlit("pending_scale_operation");
    reveal_strlit("parked_threads");
    reveal_strlit("total_active_workers");
    reveal_strlit("global_worker_cap");
    reveal_strlit("budget_pressure");
    reveal_strlit("output_backpressure");
    reveal_strlit("anchor_count");
}

proof fn lemma_anchor_names(index: usize)
    ensures
        are_fields_of(anchor_names(index), anchor_names(index)),
{
    reveal_strlit("anchor");
    reveal_strlit("_index");
    reveal_strlit("_name");
    reveal_strlit("_active_threads");
    reveal_strlit("_max_threads");
    reveal_strlit("_fixed_threads");
    reveal_strlit("_probe_state");
    reveal_strlit("_last_probe_outcome");
    reveal_strlit("_last_probe_reason");
    lemma_numbered_is_plain("anchor"@, index, "_index"@);
    lemma_numbered_is_plain("anchor"@, index, "_name"@);
    lemma_numbered_is_plain("anchor"@, index, "_active_threads"@);
    lemma_numbered_is_plain("anchor"@, index, "_max_threads"@);
    lemma_numbered_is_plain("anchor"@, index, "_fixed_threads"@);
    lemma_numbered_is_plain("anchor"@, index, "_probe_state"@);
    lemma_numbered_is_plain("anchor"@, index, "_last_probe_outcome"@);
    lemma_numbered_is_plain("anchor"@, index, "_last_probe_reason"@);
}

proof fn lemma_link_names(index: usize)
    ensures
        are_fields_of(link_names(index), link_names(index)),
{
    reveal_strlit("link");
    reveal_strlit("_len");
    reveal_strlit("_trend");
    reveal_strlit("_arrival_rate");
    reveal_strlit("_drain_rate");
    reveal_strlit("_net_rate");
    reveal_strlit("_smoothed_len");
    lemma_numbered_is_plain("link"@, index, "_len"@);
    lemma_numbered_is_plain("link"@, index, "_trend"@);
    lemma_numbered_is_plain("link"@, index, "_arrival_rate"@);
    lemma_numbered_is_plain("link"@, index, "_drain_rate"@);
    lemma_numbered_is_plain("link"@, index, "_net_rate"@);
    lemma_numbered_is_plain("link"@, index, "_smoothed_len"@);
}

proof fn lemma_stage_names(index: usize)
    ensures
        are_fields_of(stage_names(index), stage_names(index)),
{
    reveal_strlit("stage");
    reveal_strlit("_name");
    reveal_strlit("_input_link");
    reveal_strlit("_output_link");
    reveal_strlit("_active_threads");
    reveal_strlit("_processed_count");
    reveal_strlit("_busy_ratio");
    reveal_strlit("_service_time_ms");
    reveal_strlit("_per_worker_throughput");
    reveal_strlit("_desired_workers");
    reveal_strlit("_scaling_state");
    reveal_strlit("_is_anchor");
    reveal_strlit("_is_fixed_anchor");
    lemma_numbered_is_plain("stage"@, index, "_name"@);
    lemma_numbered_is_plain("stage"@, index, "_input_link"@);
    lemma_numbered_is_plain("stage"@, index, "_output_link"@);
    lemma_numbered_is_plain("stage"@, index, "_active_threads"@);
    lemma_numbered_is_plain("stage"@, index, "_processed_count"@);
    lemma_numbered_is_plain("stage"@, index, "_busy_ratio"@);
    lemma_numbered_is_plain("stage"@, index, "_service_time_ms"@);
    lemma_numbered_is_plain("stage"@, index, "_per_worker_throughput"@);
    lemma_numbered_is_plain("stage"@, index, "_desired_workers"@);
    lemma_numbered_is_plain("stage"@, index, "_scaling_state"@);
    lemma_numbered_is_plain("stage"@, index, "_is_anchor"@);
    lemma_numbered_is_plain("stage"@, index, "_is_fixed_anchor"@);
}

/// A header is read back as the names of its columns.
pub proof fn law_header_is_read_back<G, D>(snapshot: PiperSnapshot<G, D>)
    ensures
        line_fields(text::comma_separated(header_fields(snapshot))) == header_fields(snapshot),
{
    let anchors = Seq::new(snapshot.anchors@.len(), |i: int| anchor_names(i as usize));
    let links = Seq::new(snapshot.links@.len(), |i: int| link_names(snapshot.links@[i].index));
    let stages = Seq::new(snapshot.stages@.len(), |i: int| stage_names(snapshot.stages@[i].index));
    assert forall|i: int| 0 <= i < anchors.len() implies are_fields_of(
        #[trigger] anchors[i],
        anchors[i],
    ) by {
        lemma_anchor_names(i as usize);
    }
    assert forall|i: int| 0 <= i < links.len() implies are_fields_of(
        #[trigger] links[i],
        links[i],
    ) by {
        lemma_link_names(snapshot.links@[i].index);
    }
    assert forall|i: int| 0 <= i < stages.len() implies are_fields_of(
        #[trigger] stages[i],
        stages[i],
    ) by {
        lemma_stage_names(snapshot.stages@[i].index);
    }
    let common = common_names();
    lemma_common_names();
    lemma_fields_of_groups(anchors, anchors);
    lemma_fields_of_groups(links, links);
    lemma_fields_of_groups(stages, stages);
    let (a, l, s) = (flattened(anchors), flattened(links), flattened(stages));
    lemma_fields_of_both(common, common, a, a);
    lemma_fields_of_both(common + a, common + a, l, l);
    lemma_fields_of_both(common + a + l, common + a + l, s, s);
    law_joined_fields_are_read_back(header_fields(snapshot), header_fields(snapshot));
}

proof fn lemma_flattened_at(groups: Seq<Seq<Seq<char>>>, width: nat, i: int, j: int)
    requires
        forall|k: int| 0 <= k < groups.len() ==> (#[trigger] groups[k]).len() == width,
        0 <= i < groups.len(),
        0 <= j < width,
    ensures
        0 <= width * i + j < flattened(groups).len(),
        flattened(groups)[width * i + j] == groups[i][j],
    decreases groups.len(),
{
    let rest = groups.drop_last();
    lemma_flattened_len(groups, width);
    lemma_flattened_len(rest, width);
    assert(groups.last().len() == width);
    if i < rest.len() {
        lemma_flattened_at(rest, width, i, j);
    } else {
        assert(rest.len() * width == width * i) by (nonlinear_arith)
            requires
                rest.len() == i,
        ;
    }
}

/// Under the name of an anchor's name column, a row that is read back holds the
/// anchor's name.
pub proof fn law_anchor_name_stands_in_its_column<G, D>(
    first: PiperSnapshot<G, D>,
    later: PiperSnapshot<String, String>,
    elapsed_ms: Seq<char>,
    i: int,
)
    requires
        first.anchors@.len() == later.anchors@.len(),
        0 <= i < later.anchors@.len(),
    ensures
        header_fields(first)[10 + 8 * i + 1] == numbered("anchor"@, i as usize, "_name"@),
        row_values(elapsed_ms, later)[10 + 8 * i + 1] == later.anchors@[i].stage_name@,
{
    let names = Seq::new(first.anchors@.len(), |k: int| anchor_names(k as usize));
    let values = Seq::new(later.anchors@.len(), |k: int| anchor_values(later.anchors@[k]));
    lemma_flattened_at(names, 8, i, 1);
    lemma_flattened_at(values, 8, i, 1);
}

/// Under the name of a stage's name column, a row that is read back holds the
/// stage's name.
pub proof fn law_stage_name_stands_in_its_column<G, D>(
    first: PiperSnapshot<G, D>,
    later: PiperSnapshot<String, String>,
    elapsed_ms: Seq<char>,
    i: int,
)
    requires
        first.anchors@.len() == later.anchors@.len(),
        first.links@.len() == later.links@.len(),
        first.stages@.len() == later.stages@.len(),
        0 <= i < later.stages@.len(),
    ensures
        ({
            let column = 10 + 8 * later.anchors@.len() + 6 * later.links@.len() + 12 * i;
            header_fields(first)[column] == numbered(
                "stage"@,
                first.stages@[i].index,
                "_name"@,
            ) && row_values(elapsed_ms, later)[column] == later.stages@[i].name@
        }),
{
    lemma_flattened_len(Seq::new(first.anchors@.len(), |k: int| anchor_names(k as usize)), 8);
    lemma_flattened_len(
        Seq::new(first.links@.len(), |k: int| link_names(first.links@[k].index)),
        6,
    );
    lemma_flattened_at(
        Seq::new(first.stages@.len(), |k: int| stage_names(first.stages@[k].index)),
        12,
        i,
        0,
    );
    lemma_flattened_len(
        Seq::new(later.anchors@.len(), |k: int| anchor_values(later.anchors@[k])),
        8,
    );
    lemma_flattened_len(
        Seq::new(later.links@.len(), |k: int| link_fields(later.links@[k])),
        6,
    );
    lemma_flattened_at(
        Seq::new(later.stages@.len(), |k: int| stage_values(later.stages@[k])),
        12,
        i,
        0,
    );
}

/// What a recorder does with its file.
#[derive(Clone, Copy, Debug, PartialEq, Eq, Structural)]
pub enum RecorderAction {
    Create,
    WriteHeader,
    FlushHeader,
    WriteRow,
}

/// The words for an action that failed.
pub open spec fn action_words(action: RecorderAction) -> Seq<char> {
    match action {
        RecorderAction::Create => "failed to create CSV telemetry file `"@,
        RecorderAction::WriteHeader => "failed to write CSV telemetry header `"@,
        RecorderAction::FlushHeader => "failed to flush CSV telemetry header `"@,
        RecorderAction::WriteRow => "failed to write CSV telemetry file `"@,
    }
}

/// The message for an action on a file that failed for a reason.
pub fn recorder_failure(action: RecorderAction, path: &str, reason: &str) -> (message: String)
    ensures
        message@ == action_words(action) + path@ + "`: "@ + reason@,
{
    let words: String = match action {
        RecorderAction::Create => "failed to create CSV telemetry file `".to_string(),
        RecorderAction::WriteHeader => "failed to write CSV telemetry header `".to_string(),
        RecorderAction::FlushHeader => "failed to flush CSV telemetry header `".to_string(),
        RecorderAction::WriteRow => "failed to write CSV telemetry file `".to_string(),
    };
    text::enclose(words.as_str(), path, "`: ").concat(reason)
}

/// Whether a recorder goes on after a row: it does while the row was written and
/// it was not asked to stop. The last row is written after it was asked.
pub fn recorder_goes_on(written: bool, stopping: bool) -> (goes_on: bool)
    ensures
        goes_on == (written && !stopping),
{
    written && !stopping
}

/// A value is written as it is where it holds no separator, no quote and no line end,
/// and is read back as it is whatever it holds.
pub proof fn law_written_value_is_read_back(value: &str, field: String)
    requires
        call_ensures(csv_escape, (value,), field),
    ensures
        line_fields(field@) == seq![value@],
        (forall|i: int|
            0 <= i < value@.len() ==> (#[trigger] value@[i]) != ',' && value@[i] != '"' && value@[i]
                != '\n' && value@[i] != '\r') ==> field@ == value@,
        (exists|i: int|
            0 <= i < value@.len() && ((#[trigger] value@[i]) == ',' || value@[i] == '"' || value@[i]
                == '\n' || value@[i] == '\r')) ==> field@[0] == '"' && field@.last() == '"',
{
    let fields = seq![field@];
    let values = seq![value@];
    assert(are_fields_of(fields, values));
    law_joined_fields_are_read_back(fields, values);
    if exists|i: int|
        0 <= i < value@.len() && ((#[trigger] value@[i]) == ',' || value@[i] == '"' || value@[i]
            == '\n' || value@[i] == '\r') {
        let i = choose|i: int|
            0 <= i < value@.len() && ((#[trigger] value@[i]) == ',' || value@[i] == '"' || value@[i]
                == '\n' || value@[i] == '\r');
        assert(is_special(value@[i]));
    }
}

/// Each column that every pipeline has is named in the header for what it holds in a
/// row.
pub proof fn law_common_columns_hold_what_they_name<G, D>(
    first: PiperSnapshot<G, D>,
    header: String,
    elapsed_ms: &str,
    later: PiperSnapshot<String, String>,
    row: String,
)
    requires
        call_ensures(csv_header::<G, D>, (&first,), header),
        call_ensures(csv_row, (elapsed_ms, &later), row),
        numbers_are_plain(elapsed_ms@, later),
    ensures
        ({
            let names = line_fields(header@);
            let values = line_fields(row@);
            &&& names[0] == "elapsed_ms"@
            &&& values[0] == elapsed_ms@
            &&& names[1] == "shutdown_requested"@
            &&& values[1] == text::bool_word(later.shutdown_requested)
            &&& names[2] == "abort_requested"@
            &&& values[2] == text::bool_word(later.abort_requested)
            &&& names[3] == "pending_scale_operation"@
            &&& values[3] == text::bool_word(later.pending_scale_operation)
            &&& names[4] == "parked_threads"@
            &&& values[4] == text::decimal(later.parked_threads as nat)
            &&& names[5] == "total_active_workers"@
            &&& values[5] == text::decimal(later.total_active_workers as nat)
            &&& names[6] == "global_worker_cap"@
            &&& values[6] == text::decimal(later.global_worker_cap as nat)
            &&& names[7] == "budget_pressure"@
            &&& values[7] == text::bool_word(later.budget_pressure)
            &&& names[8] == "output_backpressure"@
            &&& values[8] == text::bool_word(later.output_backpressure)
            &&& names[9] == "anchor_count"@
            &&& values[9] == text::decimal(later.anchors@.len())
        }),
{
    law_header_is_read_back(first);
    law_row_is_read_back(elapsed_ms@, later);
}

/// Each column of an anchor is named in the header for what it holds in a row.
pub proof fn law_anchor_columns_hold_what_they_name<G, D>(
    first: PiperSnapshot<G, D>,
    header: String,
    elapsed_ms: &str,
    later: PiperSnapshot<String, String>,
    row: String,
    i: int,
)
    requires
        call_ensures(csv_header::<G, D>, (&first,), header),
        call_ensures(csv_row, (elapsed_ms, &later), row),
        numbers_are_plain(elapsed_ms@, later),
        first.anchors@.len() == later.anchors@.len(),
        first.links@.len() == later.links@.len(),
        first.stages@.len() == later.stages@.len(),
        0 <= i < later.anchors@.len() <= usize::MAX,
    ensures
        ({
            let names = line_fields(header@);
            let values = line_fields(row@);
            let column = 10 + 8 * i;
            &&& names[column] == "anchor"@ + text::decimal(i as nat) + "_index"@
            &&& values[column] == text::decimal(later.anchors@[i].stage_index as nat)
            &&& names[column + 1] == "anchor"@ + text::decimal(i as nat) + "_name"@
            &&& values[column + 1] == later.anchors@[i].stage_name@
            &&& names[column + 2] == "anchor"@ + text::decimal(i as nat) + "_active_threads"@
            &&& values[column + 2] == text::decimal(later.anchors@[i].active_threads as nat)
            &&& names[column + 3] == "anchor"@ + text::decimal(i as nat) + "_max_threads"@
            &&& values[column + 3] == text::decimal(later.anchors@[i].max_threads as nat)
            &&& names[column + 4] == "anchor"@ + text::decimal(i as nat) + "_fixed_threads"@
            &&& values[column + 4] == match later.anchors@[i].fixed_threads {
                Some(threads) => text::decimal(threads as nat),
                None => Seq::empty(),
            }
            &&& names[column + 5] == "anchor"@ + text::decimal(i as nat) + "_probe_state"@
            &&& values[column + 5] == probe_state_word(later.anchors@[i].probe_state)
            &&& names[column + 6] == "anchor"@ + text::decimal(i as nat) + "_last_probe_outcome"@
            &&& values[column + 6] == probe_outcome_word(later.anchors@[i].last_probe_outcome)
            &&& names[column + 7] == "anchor"@ + text::decimal(i as nat) + "_last_probe_reason"@
            &&& values[column + 7] == probe_reason_word(later.anchors@[i].last_probe_reason)
        }),
{
    law_header_is_read_back(first);
    law_row_is_read_back(elapsed_ms@, later);
    let names = Seq::new(first.anchors@.len(), |k: int| anchor_names(k as usize));
    let values = Seq::new(later.anchors@.len(), |k: int| anchor_values(later.anchors@[k]));
    lemma_flattened_at(names, 8, i, 0);
    lemma_flattened_at(values, 8, i, 0);
    lemma_flattened_at(names, 8, i, 1);
    lemma_flattened_at(values, 8, i, 1);
    lemma_flattened_at(names, 8, i, 2);
    lemma_flattened_at(values, 8, i, 2);
    lemma_flattened_at(names, 8, i, 3);
    lemma_flattened_at(values, 8, i, 3);
    lemma_flattened_at(names, 8, i, 4);
    lemma_flattened_at(values, 8, i, 4);
    lemma_flattened_at(names, 8, i, 5);
    lemma_flattened_at(values, 8, i, 5);
    lemma_flattened_at(names, 8, i, 6);
    lemma_flattened_at(values, 8, i, 6);
    lemma_flattened_at(names, 8, i, 7);
    lemma_flattened_at(values, 8, i, 7);
}

/// Each column of a link is named in the header for what it holds in a row.
pub proof fn law_link_columns_hold_what_they_name<G, D>(
    first: PiperSnapshot<G, D>,
    header: String,
    elapsed_ms: &str,
    later: PiperSnapshot<String, String>,
    row: String,
    i: int,
)
    requires
        call_ensures(csv_header::<G, D>, (&first,), header),
        call_ensures(csv_row, (elapsed_ms, &later), row),
        numbers_are_plain(elapsed_ms@, later),
        first.anchors@.len() == later.anchors@.len(),
        first.links@.len() == later.links@.len(),
        first.stages@.len() == later.stages@.len(),
        0 <= i < later.links@.len(),
    ensures
        ({
            let names = line_fields(header@);
            let values = line_fields(row@);
            let column = 10 + 8 * later.anchors@.len() + 6 * i;
            &&& names[column] == "link"@ + text::decimal(first.links@[i].index as nat) + "_len"@
            &&& values[column] == text::decimal(later.links@[i].len as nat)
            &&& names[column + 1] == "link"@ + text::decimal(first.links@[i].index as nat) + "_trend"@
            &&& values[column + 1] == text::decimal(trend::trend_code(later.links@[i].trend) as nat)
            &&& names[column + 2] == "link"@ + text::decimal(first.links@[i].index as nat) + "_arrival_rate"@
            &&& values[column + 2] == later.links@[i].arrival_rate@
            &&& names[column + 3] == "link"@ + text::decimal(first.links@[i].index as nat) + "_drain_rate"@
            &&& values[column + 3] == later.links@[i].drain_rate@
            &&& names[column + 4] == "link"@ + text::decimal(first.links@[i].index as nat) + "_net_rate"@
            &&& values[column + 4] == later.links@[i].net_rate@
            &&& names[column + 5] == "link"@ + text::decimal(first.links@[i].index as nat) + "_smoothed_len"@
            &&& values[column + 5] == later.links@[i].smoothed_len@
        }),
{
    law_header_is_read_back(first);
    law_row_is_read_back(elapsed_ms@, later);
    lemma_flattened_len(Seq::new(first.anchors@.len(), |k: int| anchor_names(k as usize)), 8);
    lemma_flattened_len(
        Seq::new(later.anchors@.len(), |k: int| anchor_values(later.anchors@[k])),
        8,
    );
    let names = Seq::new(first.links@.len(), |k: int| link_names(first.links@[k].index));
    let values = Seq::new(later.links@.len(), |k: int| link_fields(later.links@[k]));
    lemma_flattened_at(names, 6, i, 0);
    lemma_flattened_at(values, 6, i, 0);
    lemma_flattened_at(names, 6, i, 1);
    lemma_flattened_at(values, 6, i, 1);
    lemma_flattened_at(names, 6, i, 2);
    lemma_flattened_at(values, 6, i, 2);
    lemma_flattened_at(names, 6, i, 3);
    lemma_flattened_at(values, 6, i, 3);
    lemma_flattened_at(names, 6, i, 4);
    lemma_flattened_at(values, 6, i, 4);
    lemma_flattened_at(names, 6, i, 5);
    lemma_flattened_at(values, 6, i, 5);
}

/// Each column of a stage is named in the header for what it holds in a row.
pub proof fn law_stage_columns_hold_what_they_name<G, D>(
    first: PiperSnapshot<G, D>,
    header: String,
    elapsed_ms: &str,
    later: PiperSnapshot<String, String>,
    row: String,
    i: int,
)
    requires
        call_ensures(csv_header::<G, D>, (&first,), header),
        call_ensures(csv_row, (elapsed_ms, &later), row),
        numbers_are_plain(elapsed_ms@, later),
        first.anchors@.len() == later.anchors@.len(),
        first.links@.len() == later.links@.len(),
        first.stages@.len() == later.stages@.len(),
        0 <= i < later.stages@.len(),
    ensures
        ({
            let names = line_fields(header@);
            let values = line_fields(row@);
            let column = 10 + 8 * later.anchors@.len() + 6 * later.links@.len() + 12 * i;
            &&& names[column] == "stage"@ + text::decimal(first.stages@[i].index as nat) + "_name"@
            &&& values[column] == later.stages@[i].name@
            &&& names[column + 1] == "stage"@ + text::decimal(first.stages@[i].index as nat) + "_input_link"@
            &&& values[column + 1] == text::decimal(later.stages@[i].input_link as nat)
            &&& names[column + 2] == "stage"@ + text::decimal(first.stages@[i].index as nat) + "_output_link"@
            &&& values[column + 2] == text::decimal(later.stages@[i].output_link as nat)
            &&& names[column + 3] == "stage"@ + text::decimal(first.stages@[i].index as nat) + "_active_threads"@
            &&& values[column + 3] == text::decimal(later.stages@[i].active_threads as nat)
            &&& names[column + 4] == "stage"@ + text::decimal(first.stages@[i].index as nat) + "_processed_count"@
            &&& values[column + 4] == text::decimal(later.stages@[i].processed_count as nat)
            &&& names[column + 5] == "stage"@ + text::decimal(first.stages@[i].index as nat) + "_busy_ratio"@
            &&& values[column + 5] == later.stages@[i].busy_ratio@
            &&& names[column + 6] == "stage"@ + text::decimal(first.stages@[i].index as nat) + "_service_time_ms"@
            &&& values[column + 6] == later.stages@[i].service_time@
            &&& names[column + 7] == "stage"@ + text::decimal(first.stages@[i].index as nat) + "_per_worker_throughput"@
            &&& values[column + 7] == later.stages@[i].per_worker_throughput@
            &&& names[column + 8] == "stage"@ + text::decimal(first.stages@[i].index as nat) + "_desired_workers"@
            &&& values[column + 8] == text::decimal(later.stages@[i].desired_workers as nat)
            &&& names[column + 9] == "stage"@ + text::decimal(first.stages@[i].index as nat) + "_scaling_state"@
            &&& values[column + 9] == scaling_state_word(later.stages@[i].scaling_state)
            &&& names[column + 10] == "stage"@ + text::decimal(first.stages@[i].index as nat) + "_is_anchor"@
            &&& values[column + 10] == text::bool_word(later.stages@[i].is_anchor)
            &&& names[column + 11] == "stage"@ + text::decimal(first.stages@[i].index as nat) + "_is_fixed_anchor"@
            &&& values[column + 11] == text::bool_word(later.stages@[i].is_fixed_anchor)
        }),
{
    law_header_is_read_back(first);
    law_row_is_read_back(elapsed_ms@, later);
    lemma_flattened_len(Seq::new(first.anchors@.len(), |k: int| anchor_names(k as usize)), 8);
    lemma_flattened_len(
        Seq::new(first.links@.len(), |k: int| link_names(first.links@[k].index)),
        6,
    );
    lemma_flattened_len(
        Seq::new(later.anchors@.len(), |k: int| anchor_values(later.anchors@[k])),
        8,
    );
    lemma_flattened_len(
        Seq::new(later.links@.len(), |k: int| link_fields(later.links@[k])),
        6,
    );
    let names = Seq::new(first.stages@.len(), |k: int| stage_names(first.stages@[k].index));
    let values = Seq::new(later.stages@.len(), |k: int| stage_values(later.stages@[k]));
    lemma_flattened_at(names, 12, i, 0);
    lemma_flattened_at(values, 12, i, 0);
    lemma_flattened_at(names, 12, i, 1);
    lemma_flattened_at(values, 12, i, 1);
    lemma_flattened_at(names, 12, i, 2);
    lemma_flattened_at(values, 12, i, 2);
    lemma_flattened_at(names, 12, i, 3);
    lemma_flattened_at(values, 12, i, 3);
    lemma_flattened_at(names, 12, i, 4);
    lemma_flattened_at(values, 12, i, 4);
    lemma_flattened_at(names, 12, i, 5);
    lemma_flattened_at(values, 12, i, 5);
    lemma_flattened_at(names, 12, i, 6);
    lemma_flattened_at(values, 12, i, 6);
    lemma_flattened_at(names, 12, i, 7);
    lemma_flattened_at(values, 12, i, 7);
    lemma_flattened_at(names, 12, i, 8);
    lemma_flattened_at(values, 12, i, 8);
    lemma_flattened_at(names, 12, i, 9);
    lemma_flattened_at(values, 12, i, 9);
    lemma_flattened_at(names, 12, i, 10);
    lemma_flattened_at(values, 12, i, 10);
    lemma_flattened_at(names, 12, i, 11);
    lemma_flattened_at(values, 12, i, 11);
}

/// The states of anchors and stages, and the outcomes and reasons of probes, are worded
/// by their names, and what is not set as none.
pub proof fn law_states_are_worded_by_name(
    probe: AnchorProbeState,
    outcome: AnchorProbeOutcome,
    reason: AnchorProbeReason,
    scaling: StageScalingState,
)
    ensures
        probe is WarmingUp ==> probe_state_word(probe) == "WarmingUp"@,
        probe is Eligible ==> probe_state_word(probe) == "Eligible"@,
        probe is Probing ==> probe_state_word(probe) == "Probing"@,
        probe is BackingOff ==> probe_state_word(probe) == "BackingOff"@,
        probe is AtMax ==> probe_state_word(probe) == "AtMax"@,
        outcome is Unset ==> probe_outcome_word(outcome) == "None"@,
        outcome is Kept ==> probe_outcome_word(outcome) == "Kept"@,
        outcome is Reverted ==> probe_outcome_word(outcome) == "Reverted"@,
        reason is Unset ==> probe_reason_word(reason) == "None"@,
        reason is InputUnderfed ==> probe_reason_word(reason) == "InputUnderfed"@,
        reason is OutputBackpressure ==> probe_reason_word(reason) == "OutputBackpressure"@,
        reason is BudgetPressure ==> probe_reason_word(reason) == "BudgetPressure"@,
        reason is SupportUnstable ==> probe_reason_word(reason) == "SupportUnstable"@,
        reason is Idle ==> probe_reason_word(reason) == "Idle"@,
        scaling is Eligible ==> scaling_state_word(scaling) == "Eligible"@,
        scaling is Settling ==> scaling_state_word(scaling) == "Settling"@,
        scaling is Probing ==> scaling_state_word(scaling) == "Probing"@,
        scaling is BackingOff ==> scaling_state_word(scaling) == "BackingOff"@,
{
}

/// A recorder's failure is worded by what it did, with the path between backquotes and
/// the reason at the end.
pub proof fn law_recorder_failure_is_worded(
    action: RecorderAction,
    path: &str,
    reason: &str,
    message: String,
)
    requires
        call_ensures(recorder_failure, (action, path, reason), message),
    ensures
        action is Create ==> message@ == "failed to create CSV telemetry file `"@ + path@ + "`: "@
            + reason@,
        action is WriteHeader ==> message@ == "failed to write CSV telemetry header `"@ + path@
            + "`: "@ + reason@,
        action is FlushHeader ==> message@ == "failed to flush CSV telemetry header `"@ + path@
            + "`: "@ + reason@,
        action is WriteRow ==> message@ == "failed to write CSV telemetry file `"@ + path@ + "`: "@
            + reason@,
{
}

/// A recorder stops once a row could not be written, and once it was asked to.
pub proof fn law_recorder_stops(written: bool, stopping: bool, goes_on: bool)
    requires
        call_ensures(recorder_goes_on, (written, stopping), goes_on),
    ensures
        !written ==> !goes_on,
        stopping ==> !goes_on,
        written && !stopping ==> goes_on,
{
}

} // verus!
