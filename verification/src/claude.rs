//! The scanner for transcript logs: one JSON object per line, with the usage
//! of a message under `message.usage`.

use vstd::prelude::*;
use vstd::string::StringExecFns;
use crate::entry::{none_blank, records, Tool, UsageEntry, UsageRecord};
use crate::json::{
    child, cost_amount, get_child, text_of, token_count, value_cost, value_u64, Json,
};
use crate::lines::{documents, lemma_documents_of_parts, read_documents, NEWLINE};
use crate::pricing::{estimate_cost, estimated_cost, PricingInfo, PricingTable};
use crate::text::str_eq;
use crate::timestamp::{timestamp_or, timestamp_or_fallback};

verus! {

/// The model of a transcript line: `message.model` where it is a string other
/// than `unknown`, else the top-level `model` where it is a string, else
/// `unknown`.
pub open spec fn claude_model(line: Json) -> Seq<char> {
    let inner = text_of(child(line.field("message"@), "model"@));
    let outer = text_of(line.field("model"@));
    if inner is Some && inner->0 != "unknown"@ {
        inner->0
    } else if outer is Some {
        outer->0
    } else {
        "unknown"@
    }
}

/// The usage record of one transcript line, or `None` where the line reports
/// no tokens and no cost. A reported cost stands; without one the cost is
/// estimated, unless the model is unknown.
pub open spec fn claude_record(
    line: Json,
    fallback: Seq<char>,
    prices: Seq<(Seq<char>, PricingInfo)>,
) -> Option<UsageRecord> {
    let usage = child(line.field("message"@), "usage"@);
    let input = token_count(child(usage, "input_tokens"@));
    let output = token_count(child(usage, "output_tokens"@));
    let cache_write = token_count(child(usage, "cache_creation_input_tokens"@));
    let cache_read = token_count(child(usage, "cache_read_input_tokens"@));
    let reported = cost_amount(line.field("costUSD"@));
    let model = claude_model(line);
    if input == 0 && output == 0 && cache_write == 0 && cache_read == 0 && reported == 0 {
        None
    } else {
        Some(
            UsageRecord {
                timestamp: timestamp_or(line.field("timestamp"@), fallback),
                tool: Tool::Claude,
                model,
                input_tokens: input,
                output_tokens: output,
                cache_read_tokens: cache_read,
                cache_write_tokens: cache_write,
                cost: if reported == 0 && model != "unknown"@ {
                    estimated_cost(prices, model, input, output, cache_read, cache_write)
                } else {
                    reported
                },
            },
        )
    }
}

/// The usage records of a sequence of transcript lines, in order.
pub open spec fn claude_records(
    lines: Seq<Json>,
    fallback: Seq<char>,
    prices: Seq<(Seq<char>, PricingInfo)>,
) -> Seq<UsageRecord>
    decreases lines.len(),
{
    if lines.len() == 0 {
        Seq::empty()
    } else {
        let before = claude_records(lines.drop_last(), fallback, prices);
        match claude_record(lines.last(), fallback, prices) {
            Some(record) => before.push(record),
            None => before,
        }
    }
}

/// No record of a transcript is blank.
pub proof fn lemma_claude_records_none_blank(
    lines: Seq<Json>,
    fallback: Seq<char>,
    prices: Seq<(Seq<char>, PricingInfo)>,
)
    ensures
        none_blank(claude_records(lines, fallback, prices)),
    decreases lines.len(),
{
    if lines.len() > 0 {
        lemma_claude_records_none_blank(lines.drop_last(), fallback, prices);
    }
}

/// The records of two runs of lines, one after the other, are those of the
/// first followed by those of the second.
pub proof fn lemma_claude_records_of_parts(
    first: Seq<Json>,
    second: Seq<Json>,
    fallback: Seq<char>,
    prices: Seq<(Seq<char>, PricingInfo)>,
)
    ensures
        claude_records(first + second, fallback, prices) == claude_records(first, fallback, prices)
            + claude_records(second, fallback, prices),
    decreases second.len(),
{
    if second.len() == 0 {
        assert(first + second =~= first);
        assert(claude_records(first, fallback, prices) + Seq::<UsageRecord>::empty()
            =~= claude_records(first, fallback, prices));
    } else {
        lemma_claude_records_of_parts(first, second.drop_last(), fallback, prices);
        assert((first + second).drop_last() =~= first + second.drop_last());
        assert((first + second).last() == second.last());
        let head = claude_records(first, fallback, prices);
        let tail = claude_records(second.drop_last(), fallback, prices);
        match claude_record(second.last(), fallback, prices) {
            Some(record) => {
                assert((head + tail).push(record) =~= head + tail.push(record));
            },
            None => {},
        }
    }
}

/// A transcript read in two parts, the first ending at the end of a line,
/// gives the records that it gives read in one.
pub proof fn lemma_claude_scan_in_parts(
    before: Seq<u8>,
    after: Seq<u8>,
    fallback: Seq<char>,
    prices: Seq<(Seq<char>, PricingInfo)>,
)
    requires
        before.len() == 0 || before.last() == NEWLINE,
    ensures
        claude_records(documents(before + after), fallback, prices) == claude_records(
            documents(before),
            fallback,
            prices,
        ) + claude_records(documents(after), fallback, prices),
{
    lemma_documents_of_parts(before, after);
    lemma_claude_records_of_parts(documents(before), documents(after), fallback, prices);
}

/// Reads the model of a transcript line.
fn read_model(line: &Json) -> (model: String)
    ensures
        model@ == claude_model(*line),
{
    if let Some(inner) = get_child(line.get("message"), "model") {
        if let Some(name) = inner.as_str() {
            if !str_eq(name, "unknown") {
                return String::from_str(name);
            }
        }
    }
    if let Some(outer) = line.get("model") {
        if let Some(name) = outer.as_str() {
            return String::from_str(name);
        }
    }
    String::from_str("unknown")
}

/// Reads the usage entry of one transcript line.
pub fn read_claude_line(line: &Json, fallback_ts: &str, pricing: &PricingTable) -> (entry: Option<
    UsageEntry,
>)
    ensures
        match entry {
            Some(e) => claude_record(*line, fallback_ts@, pricing@) == Some(e@),
            None => claude_record(*line, fallback_ts@, pricing@) is None,
        },
{
    let usage = get_child(line.get("message"), "usage");
    let input_tokens = value_u64(get_child(usage, "input_tokens"));
    let output_tokens = value_u64(get_child(usage, "output_tokens"));
    let cache_write_tokens = value_u64(get_child(usage, "cache_creation_input_tokens"));
    let cache_read_tokens = value_u64(get_child(usage, "cache_read_input_tokens"));
    let reported = value_cost(line.get("costUSD"));
    if input_tokens == 0 && output_tokens == 0 && cache_write_tokens == 0 && cache_read_tokens == 0
        && reported == 0 {
        return None;
    }
    let timestamp = timestamp_or_fallback(line.get("timestamp"), fallback_ts);
    let model = read_model(line);
    let cost = if reported == 0 && !str_eq(model.as_str(), "unknown") {
        estimate_cost(
            pricing,
            model.as_str(),
            input_tokens,
            output_tokens,
            cache_read_tokens,
            cache_write_tokens,
        )
    } else {
        reported
    };
    Some(
        UsageEntry {
            timestamp,
            tool: Tool::Claude,
            model,
            input_tokens,
            output_tokens,
            cache_read_tokens,
            cache_write_tokens,
            cost,
        },
    )
}

/// Scans the bytes of a transcript, from the start of a line on, into usage
/// entries. Lines that are not JSON are passed over; a line without tokens
/// and without cost gives no entry. `fallback_ts` stands in wherever a line
/// has no readable timestamp.
pub fn scan_claude_lines(bytes: &[u8], fallback_ts: &str, pricing: &PricingTable) -> (found: Vec<
    UsageEntry,
>)
    ensures
        records(found@) == claude_records(documents(bytes@), fallback_ts@, pricing@),
        none_blank(records(found@)),
{
    let lines = read_documents(bytes);
    let mut found: Vec<UsageEntry> = Vec::new();
    let mut i: usize = 0;
    assert(lines@.take(0) =~= Seq::empty());
    assert(records(found@) =~= Seq::empty());
    while i < lines.len()
        invariant
            i <= lines.len(),
            records(found@) == claude_records(lines@.take(i as int), fallback_ts@, pricing@),
        decreases lines.len() - i,
    {
        assert(lines@.take(i + 1).drop_last() =~= lines@.take(i as int));
        let ghost before = found@;
        if let Some(entry) = read_claude_line(&lines[i], fallback_ts, pricing) {
            found.push(entry);
            assert(records(before.push(entry)) =~= records(before).push(entry@));
        }
        i += 1;
    }
    assert(lines@.take(lines.len() as int) =~= lines@);
    proof {
        lemma_claude_records_none_blank(documents(bytes@), fallback_ts@, pricing@);
    }
    found
}

} // verus!
