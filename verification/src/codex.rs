//! The scanner for Codex logs: one JSON object per line, with the model named
//! in `turn_context` records and the usage in `token_count` events.

use vstd::prelude::*;
use vstd::string::StringExecFns;
use crate::entry::{none_blank, records, Tool, UsageEntry, UsageRecord};
use crate::json::{child, get_child, owned, text_of, token_count, value_u64, Json};
use crate::lines::{documents, read_documents};
use crate::pricing::{estimate_cost, estimated_cost, or_else, PricingInfo, PricingTable};
use crate::text::{str_eq, trim, trimmed};
use crate::timestamp::{chars_of, timestamp_or, timestamp_or_fallback};

verus! {

/// Input, output and cached-input token counts.
pub type Counts = (u64, u64, u64);

/// What a Codex scan carries from line to line, as a mathematical value.
pub struct CodexContext {
    /// The model that the latest record named.
    pub model: Option<Seq<char>>,
    /// The latest cumulative counts seen in this scan.
    pub last_total: Option<Counts>,
}

/// What a Codex scan carries from line to line.
#[derive(Debug)]
pub struct CodexState {
    pub model: Option<String>,
    pub last_total: Option<Counts>,
}

impl View for CodexState {
    type V = CodexContext;

    open spec fn view(&self) -> CodexContext {
        CodexContext { model: chars_of(self.model), last_total: self.last_total }
    }
}

/// The trimmed text of `value`, where it is a string that is not blank.
pub open spec fn named(value: Option<Json>) -> Option<Seq<char>> {
    match text_of(value) {
        Some(s) => if trimmed(s).len() > 0 {
            Some(trimmed(s))
        } else {
            None
        },
        None => None,
    }
}

/// The model that a Codex record names: the first that is there of
/// `payload.info.model`, `payload.info.model_name`,
/// `payload.info.metadata.model` and `payload.model`.
pub open spec fn codex_model(line: Json) -> Option<Seq<char>> {
    let payload = line.field("payload"@);
    let info = child(payload, "info"@);
    or_else(
        named(child(info, "model"@)),
        or_else(
            named(child(info, "model_name"@)),
            or_else(named(child(child(info, "metadata"@), "model"@)), named(child(payload, "model"@))),
        ),
    )
}

/// The value that carries the time of a Codex record: the first that is
/// present of `timestamp`, `time`, `created_at`, `payload.info.time` and
/// `payload.time`.
pub open spec fn codex_time(line: Json) -> Option<Json> {
    let payload = line.field("payload"@);
    or_else(
        line.field("timestamp"@),
        or_else(
            line.field("time"@),
            or_else(
                line.field("created_at"@),
                or_else(child(child(payload, "info"@), "time"@), child(payload, "time"@)),
            ),
        ),
    )
}

/// The counts that a token usage object holds; the cached input under
/// `cached_input_tokens` where that member is present, else under
/// `cache_read_input_tokens`.
pub open spec fn usage_counts(usage: Option<Json>) -> Counts {
    (
        token_count(child(usage, "input_tokens"@)),
        token_count(child(usage, "output_tokens"@)),
        token_count(
            or_else(child(usage, "cached_input_tokens"@), child(usage, "cache_read_input_tokens"@)),
        ),
    )
}

/// `now - before`, or 0 where the counter went down.
pub open spec fn increase(before: u64, now: u64) -> u64 {
    if now > before {
        (now - before) as u64
    } else {
        0
    }
}

/// The counts of one event, given the cumulative counts `now` and those of
/// the previous event of the scan, if there was one.
pub open spec fn delta(previous: Option<Counts>, now: Counts) -> Counts {
    match previous {
        Some(before) => (
            increase(before.0, now.0),
            increase(before.1, now.1),
            increase(before.2, now.2),
        ),
        None => now,
    }
}

/// Whether `line` is a token count event.
pub open spec fn is_token_count(line: Json) -> bool {
    &&& text_of(line.field("type"@)) == Some("event_msg"@)
    &&& text_of(child(line.field("payload"@), "type"@)) == Some("token_count"@)
}

/// What one line does to a Codex scan: the context after it and the record it
/// emits, if any.
///
/// A `turn_context` record sets the model, where it names one. A token count
/// event takes its counts from `payload.info.last_token_usage` where that is
/// present, and else from the increase of `payload.info.total_token_usage`
/// over the previous totals of the scan; with counts that are not all zero it
/// emits a record, for the model it names, else the model of the context,
/// else `gpt-5`. Any other line changes nothing.
pub open spec fn codex_step(
    context: CodexContext,
    line: Json,
    fallback: Seq<char>,
    prices: Seq<(Seq<char>, PricingInfo)>,
) -> (CodexContext, Option<UsageRecord>) {
    let info = child(line.field("payload"@), "info"@);
    let last = child(info, "last_token_usage"@);
    let total = child(info, "total_token_usage"@);
    let inline = codex_model(line);
    if text_of(line.field("type"@)) == Some("turn_context"@) {
        (CodexContext { model: or_else(inline, context.model), last_total: context.last_total }, None)
    } else if !is_token_count(line) || (last is None && total is None) {
        (context, None)
    } else {
        let counts = if last is Some {
            usage_counts(last)
        } else {
            delta(context.last_total, usage_counts(total))
        };
        let last_total = if last is Some {
            context.last_total
        } else {
            Some(usage_counts(total))
        };
        if counts.0 == 0 && counts.1 == 0 && counts.2 == 0 {
            (CodexContext { model: context.model, last_total }, None)
        } else {
            let model = match or_else(inline, context.model) {
                Some(name) => name,
                None => "gpt-5"@,
            };
            (
                CodexContext { model: or_else(inline, context.model), last_total },
                Some(
                    UsageRecord {
                        timestamp: timestamp_or(codex_time(line), fallback),
                        tool: Tool::Codex,
                        model,
                        input_tokens: counts.0,
                        output_tokens: counts.1,
                        cache_read_tokens: counts.2,
                        cache_write_tokens: 0,
                        cost: estimated_cost(prices, model, counts.0, counts.1, counts.2, 0),
                    },
                ),
            )
        }
    }
}

/// What a sequence of lines does to a Codex scan: the context after them and
/// the records they emit, in order.
pub open spec fn codex_run(
    context: CodexContext,
    lines: Seq<Json>,
    fallback: Seq<char>,
    prices: Seq<(Seq<char>, PricingInfo)>,
) -> (CodexContext, Seq<UsageRecord>)
    decreases lines.len(),
{
    if lines.len() == 0 {
        (context, Seq::empty())
    } else {
        let before = codex_run(context, lines.drop_last(), fallback, prices);
        let step = codex_step(before.0, lines.last(), fallback, prices);
        match step.1 {
            Some(record) => (step.0, before.1.push(record)),
            None => (step.0, before.1),
        }
    }
}

/// The context in which the scan of a file starts: the model that earlier
/// scans of the file left, and no totals.
pub open spec fn starting_context(model: Option<Seq<char>>) -> CodexContext {
    CodexContext { model, last_total: None }
}

/// No record of a Codex log is blank.
pub proof fn lemma_codex_run_none_blank(
    context: CodexContext,
    lines: Seq<Json>,
    fallback: Seq<char>,
    prices: Seq<(Seq<char>, PricingInfo)>,
)
    ensures
        none_blank(codex_run(context, lines, fallback, prices).1),
    decreases lines.len(),
{
    if lines.len() > 0 {
        lemma_codex_run_none_blank(context, lines.drop_last(), fallback, prices);
    }
}

/// Reads a name: the trimmed text of a string that is not blank.
fn read_name(value: Option<&Json>) -> (name: Option<String>)
    ensures
        chars_of(name) == named(owned(value)),
{
    match value {
        Some(Json::Text(s)) => {
            let text = trim(s.as_str());
            if text.unicode_len() > 0 {
                Some(String::from_str(text))
            } else {
                None
            }
        },
        _ => None,
    }
}

/// Reads the model that a Codex record names.
pub fn extract_codex_model(line: &Json) -> (model: Option<String>)
    ensures
        chars_of(model) == codex_model(*line),
{
    let payload = line.get("payload");
    let info = get_child(payload, "info");
    if let Some(name) = read_name(get_child(info, "model")) {
        return Some(name);
    }
    if let Some(name) = read_name(get_child(info, "model_name")) {
        return Some(name);
    }
    if let Some(name) = read_name(get_child(get_child(info, "metadata"), "model")) {
        return Some(name);
    }
    read_name(get_child(payload, "model"))
}

/// The first of two lookups that found something.
fn first_of<'a>(first: Option<&'a Json>, second: Option<&'a Json>) -> (found: Option<&'a Json>)
    ensures
        owned(found) == or_else(owned(first), owned(second)),
{
    match first {
        Some(_) => first,
        None => second,
    }
}

/// Finds the value that carries the time of a Codex record.
fn find_time(line: &Json) -> (time: Option<&Json>)
    ensures
        owned(time) == codex_time(*line),
{
    let payload = line.get("payload");
    first_of(
        line.get("timestamp"),
        first_of(
            line.get("time"),
            first_of(
                line.get("created_at"),
                first_of(get_child(get_child(payload, "info"), "time"), get_child(payload, "time")),
            ),
        ),
    )
}

/// Reads the counts of a token usage object.
fn read_counts(usage: Option<&Json>) -> (counts: Counts)
    ensures
        counts == usage_counts(owned(usage)),
{
    (
        value_u64(get_child(usage, "input_tokens")),
        value_u64(get_child(usage, "output_tokens")),
        value_u64(
            first_of(get_child(usage, "cached_input_tokens"), get_child(usage, "cache_read_input_tokens")),
        ),
    )
}

/// The increase of a counter, 0 where it went down.
fn counter_increase(before: u64, now: u64) -> (grown: u64)
    ensures
        grown == increase(before, now),
{
    if now > before {
        now - before
    } else {
        0
    }
}

/// The counts of one event from cumulative counts.
pub fn counts_delta(previous: Option<Counts>, now: Counts) -> (counts: Counts)
    ensures
        counts == delta(previous, now),
{
    match previous {
        Some(before) => (
            counter_increase(before.0, now.0),
            counter_increase(before.1, now.1),
            counter_increase(before.2, now.2),
        ),
        None => now,
    }
}

/// Whether the text of `value` is `expected`.
fn has_text(value: Option<&Json>, expected: &str) -> (same: bool)
    ensures
        same == (text_of(owned(value)) == Some(expected@)),
{
    match value {
        Some(Json::Text(s)) => str_eq(s.as_str(), expected),
        _ => false,
    }
}

/// A copy of an optional string.
fn copy_name(name: &Option<String>) -> (copy: Option<String>)
    ensures
        chars_of(copy) == chars_of(*name),
{
    match name {
        Some(s) => Some(s.clone()),
        None => None,
    }
}

/// Takes one line of a Codex log into the scan.
pub fn read_codex_line(
    state: &mut CodexState,
    line: &Json,
    fallback_ts: &str,
    pricing: &PricingTable,
) -> (entry: Option<UsageEntry>)
    ensures
        final(state)@ == codex_step(old(state)@, *line, fallback_ts@, pricing@).0,
        match entry {
            Some(e) => codex_step(old(state)@, *line, fallback_ts@, pricing@).1 == Some(e@),
            None => codex_step(old(state)@, *line, fallback_ts@, pricing@).1 is None,
        },
{
    let kind = line.get("type");
    let payload = line.get("payload");
    if has_text(kind, "turn_context") {
        if let Some(name) = extract_codex_model(line) {
            state.model = Some(name);
        }
        return None;
    }
    if !has_text(kind, "event_msg") || !has_text(get_child(payload, "type"), "token_count") {
        return None;
    }
    let info = get_child(payload, "info");
    let last = get_child(info, "last_token_usage");
    let total = get_child(info, "total_token_usage");
    let counts = match last {
        Some(_) => read_counts(last),
        None => match total {
            Some(_) => {
                let now = read_counts(total);
                let counts = counts_delta(state.last_total, now);
                state.last_total = Some(now);
                counts
            },
            None => {
                return None;
            },
        },
    };
    if counts.0 == 0 && counts.1 == 0 && counts.2 == 0 {
        return None;
    }
    if let Some(name) = extract_codex_model(line) {
        state.model = Some(name);
    }
    let model = match copy_name(&state.model) {
        Some(name) => name,
        None => String::from_str("gpt-5"),
    };
    let timestamp = timestamp_or_fallback(find_time(line), fallback_ts);
    let cost = estimate_cost(pricing, model.as_str(), counts.0, counts.1, counts.2, 0);
    Some(
        UsageEntry {
            timestamp,
            tool: Tool::Codex,
            model,
            input_tokens: counts.0,
            output_tokens: counts.1,
            cache_read_tokens: counts.2,
            cache_write_tokens: 0,
            cost,
        },
    )
}

/// Scans the bytes of a Codex log, from the start of a line on, into usage
/// entries; `model` is the model that earlier scans of the same file left.
/// Returns the entries and the model that this scan leaves. Cumulative counts
/// are compared within this scan only: the first cumulative event of a scan
/// counts in full.
pub fn scan_codex_lines(
    bytes: &[u8],
    model: Option<String>,
    fallback_ts: &str,
    pricing: &PricingTable,
) -> (scan: (Vec<UsageEntry>, Option<String>))
    ensures
        records(scan.0@) == codex_run(
            starting_context(chars_of(model)),
            documents(bytes@),
            fallback_ts@,
            pricing@,
        ).1,
        chars_of(scan.1) == codex_run(
            starting_context(chars_of(model)),
            documents(bytes@),
            fallback_ts@,
            pricing@,
        ).0.model,
        none_blank(records(scan.0@)),
{
    let ghost start = starting_context(chars_of(model));
    let lines = read_documents(bytes);
    let mut state = CodexState { model, last_total: None };
    let mut found: Vec<UsageEntry> = Vec::new();
    let mut i: usize = 0;
    assert(lines@.take(0) =~= Seq::empty());
    assert(records(found@) =~= Seq::empty());
    while i < lines.len()
        invariant
            i <= lines.len(),
            state@ == codex_run(start, lines@.take(i as int), fallback_ts@, pricing@).0,
            records(found@) == codex_run(start, lines@.take(i as int), fallback_ts@, pricing@).1,
        decreases lines.len() - i,
    {
        assert(lines@.take(i + 1).drop_last() =~= lines@.take(i as int));
        let ghost before = found@;
        if let Some(entry) = read_codex_line(&mut state, &lines[i], fallback_ts, pricing) {
            found.push(entry);
            assert(records(before.push(entry)) =~= records(before).push(entry@));
        }
        i += 1;
    }
    assert(lines@.take(lines.len() as int) =~= lines@);
    proof {
        lemma_codex_run_none_blank(start, documents(bytes@), fallback_ts@, pricing@);
    }
    (found, state.model)
}

} // verus!
