//! The scanner for OpenCode logs: one JSON object per file.

use vstd::prelude::*;
use vstd::string::StringExecFns;
use vstd::utf8::{decode_utf8, valid_utf8};
use crate::entry::{Tool, UsageEntry, UsageRecord};
use crate::json::{
    child, cost_amount, from_str, get_child, parsed_json, text_of, token_count, value_cost,
    value_u64, Json,
};
use crate::lines::from_utf8;
use crate::pricing::{estimate_cost, estimated_cost, PricingInfo, PricingTable};
use crate::text::str_eq;
use crate::timestamp::{timestamp_or, timestamp_or_fallback};

verus! {

/// What the scan of one OpenCode file found.
#[derive(Debug, PartialEq, Eq)]
pub enum FileOutcome {
    /// The file is not UTF-8 or not JSON.
    Unreadable,
    /// The file is JSON but reports no tokens and no cost.
    Blank,
    /// The file reports usage.
    Entry(UsageEntry),
}

/// The document that the bytes of a file hold: what they parse to, read as
/// UTF-8. `None` where they are not UTF-8 or not JSON.
pub open spec fn file_document(bytes: Seq<u8>) -> Option<Json> {
    if valid_utf8(bytes) {
        parsed_json(decode_utf8(bytes))
    } else {
        None
    }
}

/// The model of an OpenCode message: `modelID` where it is a string, else
/// `unknown`.
pub open spec fn opencode_model(message: Json) -> Seq<char> {
    match text_of(message.field("modelID"@)) {
        Some(name) => name,
        None => "unknown"@,
    }
}

/// The usage record of one OpenCode message, or `None` where the message
/// reports no tokens and no cost. A reported cost stands; without one the
/// cost is estimated, unless the model is unknown.
pub open spec fn opencode_record(
    message: Json,
    fallback: Seq<char>,
    prices: Seq<(Seq<char>, PricingInfo)>,
) -> Option<UsageRecord> {
    let tokens = message.field("tokens"@);
    let cache = child(tokens, "cache"@);
    let input = token_count(child(tokens, "input"@));
    let output = token_count(child(tokens, "output"@));
    let cache_read = token_count(child(cache, "read"@));
    let cache_write = token_count(child(cache, "write"@));
    let reported = cost_amount(message.field("cost"@));
    let model = opencode_model(message);
    if input == 0 && output == 0 && cache_write == 0 && cache_read == 0 && reported == 0 {
        None
    } else {
        Some(
            UsageRecord {
                timestamp: timestamp_or(child(message.field("time"@), "created"@), fallback),
                tool: Tool::OpenCode,
                model,
                input_tokens: input,
                output_tokens: output,
                cache_read_tokens: cache_read,
                cache_write_tokens: cache_write,
                cost: if reported == 0 && model != "unknown"@ {
                    estimated_cost(prices, model, input, output, cache_read, cache_write)
                } else {
                    reported
                },
            },
        )
    }
}

/// Whether `outcome` is what the scan of `bytes` finds.
pub open spec fn is_outcome_of(
    outcome: FileOutcome,
    bytes: Seq<u8>,
    fallback: Seq<char>,
    prices: Seq<(Seq<char>, PricingInfo)>,
) -> bool {
    match file_document(bytes) {
        None => outcome is Unreadable,
        Some(message) => match opencode_record(message, fallback, prices) {
            None => outcome is Blank,
            Some(record) => outcome is Entry && outcome->Entry_0@ == record,
        },
    }
}

/// Reads the usage entry of one OpenCode message.
pub fn read_opencode_message(message: &Json, fallback_ts: &str, pricing: &PricingTable) -> (entry:
    Option<UsageEntry>)
    ensures
        match entry {
            Some(e) => opencode_record(*message, fallback_ts@, pricing@) == Some(e@),
            None => opencode_record(*message, fallback_ts@, pricing@) is None,
        },
        entry is Some ==> !entry->0@.is_blank(),
{
    let tokens = message.get("tokens");
    let cache = get_child(tokens, "cache");
    let input_tokens = value_u64(get_child(tokens, "input"));
    let output_tokens = value_u64(get_child(tokens, "output"));
    let cache_read_tokens = value_u64(get_child(cache, "read"));
    let cache_write_tokens = value_u64(get_child(cache, "write"));
    let reported = value_cost(message.get("cost"));
    if input_tokens == 0 && output_tokens == 0 && cache_write_tokens == 0 && cache_read_tokens == 0
        && reported == 0 {
        return None;
    }
    let timestamp = timestamp_or_fallback(get_child(message.get("time"), "created"), fallback_ts);
    let model = match message.get("modelID") {
        Some(Json::Text(name)) => name.clone(),
        _ => String::from_str("unknown"),
    };
    let cost = if reported == 0 && !str_eq(model.as_str(), "unknown") {
        estimate_cost(
            pricing,
            model.as_str(),
            input_tokens,
            output_tokens,
            cache_read_tokens,
            cache_write_tokens,
        )
    } else {
        reported
    };
    Some(
        UsageEntry {
            timestamp,
            tool: Tool::OpenCode,
            model,
            input_tokens,
            output_tokens,
            cache_read_tokens,
            cache_write_tokens,
            cost,
        },
    )
}

/// Scans the bytes of one OpenCode message file. `fallback_ts` stands in
/// where the message has no readable creation time.
pub fn scan_opencode_file(bytes: &[u8], fallback_ts: &str, pricing: &PricingTable) -> (outcome:
    FileOutcome)
    ensures
        is_outcome_of(outcome, bytes@, fallback_ts@, pricing@),
        outcome is Entry ==> !outcome->Entry_0@.is_blank(),
{
    let text = match from_utf8(bytes) {
        Some(text) => text,
        None => {
            return FileOutcome::Unreadable;
        },
    };
    let message = match from_str(text) {
        Some(message) => message,
        None => {
            return FileOutcome::Unreadable;
        },
    };
    match read_opencode_message(&message, fallback_ts, pricing) {
        Some(entry) => FileOutcome::Entry(entry),
        None => FileOutcome::Blank,
    }
}

} // verus!
