//! Per-token price schedules and the tiered cost formula.

use vstd::prelude::*;
use vstd::string::StringExecFns;
use crate::json::{
    child, cost_amount, first_member, from_str, owned, parsed_json, value_cost, Json,
};
use crate::table::{index_of, lemma_index_of, lookup, Table};
use crate::text::{
    all_digits,
    chars_of_str,
    contains_chars,
    is_substring,
    lowercase,
    str_eq,
    strip_date_suffix,
    strip_suffix,
    to_lowercase,
    without_date_suffix,
    without_suffix,
};

verus! {

/// Token count up to which the base rate applies; the higher tier, where a
/// schedule has one, prices only the tokens beyond it.
pub const TIERED_THRESHOLD: u64 = 200_000;

/// Price schedule of one model. Every rate is in picodollars per token; an
/// `above_200k` rate of zero means that the category has no higher tier.
#[derive(Clone, Copy, Debug, PartialEq, Eq)]
pub struct PricingInfo {
    pub input_cost_per_token: u64,
    pub output_cost_per_token: u64,
    pub cache_read_cost: u64,
    pub cache_write_cost: u64,
    pub input_cost_above_200k: u64,
    pub output_cost_above_200k: u64,
    pub cache_read_cost_above_200k: u64,
    pub cache_write_cost_above_200k: u64,
}

/// The amount `v`, capped at the largest cost that can be represented.
pub open spec fn saturated(v: int) -> u64 {
    if v >= u64::MAX {
        u64::MAX
    } else if v <= 0 {
        0
    } else {
        v as u64
    }
}

/// Exact cost of `tokens` tokens of one category: the base rate up to the
/// threshold and, where `above_price` is nonzero, that rate beyond it.
pub open spec fn tiered_cost_exact(tokens: u64, base_price: u64, above_price: u64) -> int {
    if above_price > 0 && tokens > TIERED_THRESHOLD {
        TIERED_THRESHOLD * base_price + (tokens - TIERED_THRESHOLD) * above_price
    } else {
        tokens * base_price
    }
}

/// The exact tiered cost never exceeds the square of the largest `u64`.
pub proof fn lemma_tiered_cost_bounds(tokens: u64, base_price: u64, above_price: u64)
    ensures
        0 <= tiered_cost_exact(tokens, base_price, above_price) <= u64::MAX * u64::MAX,
{
    let m = u64::MAX as int;
    if above_price > 0 && tokens > TIERED_THRESHOLD {
        let t = TIERED_THRESHOLD as int;
        let rest = tokens - TIERED_THRESHOLD;
        assert(0 <= t * base_price <= t * m) by (nonlinear_arith)
            requires
                0 <= base_price <= m,
                t >= 0,
        ;
        assert(0 <= rest * above_price <= rest * m) by (nonlinear_arith)
            requires
                0 <= above_price <= m,
                rest >= 0,
        ;
        assert(t * m + rest * m == (t + rest) * m) by (nonlinear_arith);
        assert((t + rest) * m <= m * m) by (nonlinear_arith)
            requires
                t + rest <= m,
                m >= 0,
        ;
    } else {
        assert(0 <= tokens * base_price <= m * m) by (nonlinear_arith)
            requires
                0 <= tokens <= m,
                0 <= base_price <= m,
        ;
    }
}

/// Cost of `tokens` tokens of one category in picodollars, capped at
/// `u64::MAX`.
pub fn tiered_cost(tokens: u64, base_price: u64, above_price: u64) -> (cost: u64)
    ensures
        cost == saturated(tiered_cost_exact(tokens, base_price, above_price)),
{
    proof {
        lemma_tiered_cost_bounds(tokens, base_price, above_price);
        assert(u64::MAX * u64::MAX < u128::MAX) by (nonlinear_arith);
    }
    let exact: u128 = if above_price > 0 && tokens > TIERED_THRESHOLD {
        let rest: u64 = tokens - TIERED_THRESHOLD;
        proof {
            let m = u64::MAX as int;
            assert(0 <= TIERED_THRESHOLD * base_price <= TIERED_THRESHOLD * m) by (nonlinear_arith)
                requires
                    0 <= base_price <= m,
            ;
            assert(0 <= rest * above_price) by (nonlinear_arith);
        }
        (TIERED_THRESHOLD as u128) * (base_price as u128) + (rest as u128) * (above_price as u128)
    } else {
        proof {
            assert(0 <= tokens * base_price) by (nonlinear_arith);
        }
        (tokens as u128) * (base_price as u128)
    };
    if exact >= u64::MAX as u128 {
        u64::MAX
    } else {
        exact as u64
    }
}

/// The price schedules by model key, in the order in which they were loaded.
pub type PricingTable = Table<PricingInfo>;

/// The first of two results that is present.
pub open spec fn or_else<T>(first: Option<T>, second: Option<T>) -> Option<T> {
    if first is Some {
        first
    } else {
        second
    }
}

/// The schedule stored under `name` behind one of the provider prefixes, the
/// prefixes tried in a fixed order.
pub open spec fn prefixed_match(prices: Seq<(Seq<char>, PricingInfo)>, name: Seq<char>) -> Option<
    PricingInfo,
> {
    or_else(
        lookup(prices, "anthropic/"@ + name),
        or_else(
            lookup(prices, "openai/"@ + name),
            or_else(
                lookup(prices, "azure/"@ + name),
                or_else(
                    lookup(prices, "google/"@ + name),
                    or_else(
                        lookup(prices, "vertex_ai/"@ + name),
                        lookup(prices, "gemini/"@ + name),
                    ),
                ),
            ),
        ),
    )
}

/// Whether `key` and `name` match loosely: in lowercase, one occurs in the
/// other.
pub open spec fn loosely_matches(key: Seq<char>, name: Seq<char>) -> bool {
    is_substring(lowercase(key), lowercase(name)) || is_substring(lowercase(name), lowercase(key))
}

/// The schedule of the first entry, in table order, whose key matches `name`
/// loosely.
pub open spec fn loose_match(prices: Seq<(Seq<char>, PricingInfo)>, name: Seq<char>) -> Option<
    PricingInfo,
>
    decreases prices.len(),
{
    if prices.len() == 0 {
        None
    } else if loosely_matches(prices[0].0, name) {
        Some(prices[0].1)
    } else {
        loose_match(prices.drop_first(), name)
    }
}

/// The schedule found for `name` as it stands: under the exact key, else
/// behind a provider prefix, else by a loose match.
pub open spec fn direct_match(prices: Seq<(Seq<char>, PricingInfo)>, name: Seq<char>) -> Option<
    PricingInfo,
> {
    or_else(lookup(prices, name), or_else(prefixed_match(prices, name), loose_match(prices, name)))
}

/// The schedule found for what `stripped` holds, if it holds a name.
pub open spec fn match_of(prices: Seq<(Seq<char>, PricingInfo)>, stripped: Option<Seq<char>>) -> Option<
    PricingInfo,
> {
    match stripped {
        Some(name) => direct_match(prices, name),
        None => None,
    }
}

/// `stripped` without `suffix`, where it holds a name that ends with it.
pub open spec fn then_without_suffix(stripped: Option<Seq<char>>, suffix: Seq<char>) -> Option<
    Seq<char>,
> {
    match stripped {
        Some(name) => without_suffix(name, suffix),
        None => None,
    }
}

/// `stripped` without a version date, where it holds a name that ends in one.
pub open spec fn then_without_date(stripped: Option<Seq<char>>) -> Option<Seq<char>> {
    match stripped {
        Some(name) => without_date_suffix(name),
        None => None,
    }
}

/// The schedule that `model` resolves to: the first that is found for the
/// name as it stands; without `-thinking`; without `-thinking` and a version
/// date before it; without a version date; without a version date and
/// `-thinking` before it; without `-high`, `-low` or `-medium`.
pub open spec fn resolved(prices: Seq<(Seq<char>, PricingInfo)>, model: Seq<char>) -> Option<
    PricingInfo,
> {
    let plain = without_suffix(model, "-thinking"@);
    let undated = without_date_suffix(model);
    or_else(
        direct_match(prices, model),
        or_else(
            match_of(prices, plain),
            or_else(
                match_of(prices, then_without_date(plain)),
                or_else(
                    match_of(prices, undated),
                    or_else(
                        match_of(prices, then_without_suffix(undated, "-thinking"@)),
                        or_else(
                            match_of(prices, without_suffix(model, "-high"@)),
                            or_else(
                                match_of(prices, without_suffix(model, "-low"@)),
                                match_of(prices, without_suffix(model, "-medium"@)),
                            ),
                        ),
                    ),
                ),
            ),
        ),
    )
}

/// Looks `name` up behind one provider prefix.
fn find_prefixed(table: &PricingTable, prefix: &str, name: &str) -> (found: Option<PricingInfo>)
    ensures
        found == lookup(table@, prefix@ + name@),
{
    let key = String::from_str(prefix).concat(name);
    match table.get(key.as_str()) {
        Some(info) => Some(*info),
        None => None,
    }
}

/// Looks `name` up behind each provider prefix in turn.
fn find_any_prefixed(table: &PricingTable, name: &str) -> (found: Option<PricingInfo>)
    ensures
        found == prefixed_match(table@, name@),
{
    if let Some(info) = find_prefixed(table, "anthropic/", name) {
        return Some(info);
    }
    if let Some(info) = find_prefixed(table, "openai/", name) {
        return Some(info);
    }
    if let Some(info) = find_prefixed(table, "azure/", name) {
        return Some(info);
    }
    if let Some(info) = find_prefixed(table, "google/", name) {
        return Some(info);
    }
    if let Some(info) = find_prefixed(table, "vertex_ai/", name) {
        return Some(info);
    }
    find_prefixed(table, "gemini/", name)
}

/// Whether two names, both in lowercase, match loosely: one occurs in the
/// other.
pub fn lowercase_names_match(key_lower: &str, name_lower: &str) -> (matched: bool)
    ensures
        matched == (is_substring(key_lower@, name_lower@) || is_substring(
            name_lower@,
            key_lower@,
        )),
{
    let key = chars_of_str(key_lower);
    let name = chars_of_str(name_lower);
    contains_chars(&key, &name) || contains_chars(&name, &key)
}

/// Finds the first entry whose key matches `name` loosely.
fn find_loose(table: &PricingTable, name: &str) -> (found: Option<PricingInfo>)
    ensures
        found == loose_match(table@, name@),
{
    let lower = to_lowercase(name);
    let n = table.len();
    let mut i: usize = 0;
    assert(table@.skip(0) =~= table@);
    while i < n
        invariant
            i <= n == table@.len(),
            lower@ == lowercase(name@),
            loose_match(table@, name@) == loose_match(table@.skip(i as int), name@),
        decreases n - i,
    {
        let key_lower = to_lowercase(table.key_at(i));
        assert(table@.skip(i as int).drop_first() =~= table@.skip(i + 1));
        assert(table@.skip(i as int)[0] == table@[i as int]);
        if lowercase_names_match(key_lower.as_str(), lower.as_str()) {
            return Some(*table.value_at(i));
        }
        i += 1;
    }
    None
}

/// Finds the schedule for `name` as it stands.
fn try_find(table: &PricingTable, name: &str) -> (found: Option<PricingInfo>)
    ensures
        found == direct_match(table@, name@),
{
    if let Some(info) = table.get(name) {
        return Some(*info);
    }
    if let Some(info) = find_any_prefixed(table, name) {
        return Some(info);
    }
    find_loose(table, name)
}

/// Finds the schedule for what `stripped` holds, if it holds a name.
fn try_find_stripped(table: &PricingTable, stripped: Option<&str>) -> (found: Option<PricingInfo>)
    ensures
        found == match_of(
            table@,
            match stripped {
                Some(name) => Some(name@),
                None => None,
            },
        ),
{
    match stripped {
        Some(name) => try_find(table, name),
        None => None,
    }
}

/// Resolves a model name to its price schedule.
///
/// Where several keys match loosely, the one that stands first in the table
/// wins; the order of a table is the order in which its keys were inserted.
pub fn find_pricing(table: &PricingTable, model: &str) -> (found: Option<PricingInfo>)
    ensures
        found == resolved(table@, model@),
{
    if let Some(info) = try_find(table, model) {
        return Some(info);
    }
    let plain = strip_suffix(model, "-thinking");
    if let Some(info) = try_find_stripped(table, plain) {
        return Some(info);
    }
    let plain_undated = match plain {
        Some(name) => strip_date_suffix(name),
        None => None,
    };
    if let Some(info) = try_find_stripped(table, plain_undated) {
        return Some(info);
    }
    let undated = strip_date_suffix(model);
    if let Some(info) = try_find_stripped(table, undated) {
        return Some(info);
    }
    let undated_plain = match undated {
        Some(name) => strip_suffix(name, "-thinking"),
        None => None,
    };
    if let Some(info) = try_find_stripped(table, undated_plain) {
        return Some(info);
    }
    if let Some(info) = try_find_stripped(table, strip_suffix(model, "-high")) {
        return Some(info);
    }
    if let Some(info) = try_find_stripped(table, strip_suffix(model, "-low")) {
        return Some(info);
    }
    try_find_stripped(table, strip_suffix(model, "-medium"))
}

/// Exact cost in picodollars of one request under the schedule `p`: each of
/// the four token counts priced on its own, the input count in full, whatever
/// part of it was read from cache.
pub open spec fn schedule_cost(
    p: PricingInfo,
    input: u64,
    output: u64,
    cache_read: u64,
    cache_write: u64,
) -> int {
    tiered_cost_exact(input, p.input_cost_per_token, p.input_cost_above_200k) + tiered_cost_exact(
        output,
        p.output_cost_per_token,
        p.output_cost_above_200k,
    ) + tiered_cost_exact(cache_read, p.cache_read_cost, p.cache_read_cost_above_200k)
        + tiered_cost_exact(cache_write, p.cache_write_cost, p.cache_write_cost_above_200k)
}

/// Estimated cost in picodollars of one request of `model`, capped at
/// `u64::MAX`; 0 where the model resolves to no schedule.
pub open spec fn estimated_cost(
    prices: Seq<(Seq<char>, PricingInfo)>,
    model: Seq<char>,
    input: u64,
    output: u64,
    cache_read: u64,
    cache_write: u64,
) -> u64 {
    match resolved(prices, model) {
        Some(p) => saturated(schedule_cost(p, input, output, cache_read, cache_write)),
        None => 0,
    }
}

/// Cost in picodollars of one request under the schedule `p`, capped at
/// `u64::MAX`.
pub fn cost_under(p: &PricingInfo, input: u64, output: u64, cache_read: u64, cache_write: u64) -> (cost:
    u64)
    ensures
        cost == saturated(schedule_cost(*p, input, output, cache_read, cache_write)),
{
    proof {
        lemma_tiered_cost_bounds(input, p.input_cost_per_token, p.input_cost_above_200k);
        lemma_tiered_cost_bounds(output, p.output_cost_per_token, p.output_cost_above_200k);
        lemma_tiered_cost_bounds(cache_read, p.cache_read_cost, p.cache_read_cost_above_200k);
        lemma_tiered_cost_bounds(cache_write, p.cache_write_cost, p.cache_write_cost_above_200k);
    }
    let input_cost = tiered_cost(input, p.input_cost_per_token, p.input_cost_above_200k);
    let output_cost = tiered_cost(output, p.output_cost_per_token, p.output_cost_above_200k);
    let cache_read_cost = tiered_cost(cache_read, p.cache_read_cost, p.cache_read_cost_above_200k);
    let cache_write_cost = tiered_cost(
        cache_write,
        p.cache_write_cost,
        p.cache_write_cost_above_200k,
    );
    let total: u128 = input_cost as u128 + output_cost as u128 + cache_read_cost as u128
        + cache_write_cost as u128;
    if total >= u64::MAX as u128 {
        u64::MAX
    } else {
        total as u64
    }
}

/// Estimates the cost in picodollars of one request of `model`; 0 where no
/// schedule is known for it.
pub fn estimate_cost(
    table: &PricingTable,
    model: &str,
    input: u64,
    output: u64,
    cache_read: u64,
    cache_write: u64,
) -> (cost: u64)
    ensures
        cost == estimated_cost(table@, model@, input, output, cache_read, cache_write),
{
    match find_pricing(table, model) {
        Some(p) => cost_under(&p, input, output, cache_read, cache_write),
        None => 0,
    }
}

/// The rate in picodollars per token that `value` holds as a number of
/// dollars; 0 where it is absent or no number.
pub open spec fn rate_amount(value: Option<Json>) -> u64 {
    match value {
        Some(Json::Number(_)) => cost_amount(value),
        _ => 0,
    }
}

/// The schedule that one entry of a price feed describes; `None` where both
/// its input rate and its output rate are zero.
pub open spec fn schedule_of(entry: Json) -> Option<PricingInfo> {
    let input = rate_amount(entry.field("input_cost_per_token"@));
    let output = rate_amount(entry.field("output_cost_per_token"@));
    if input == 0 && output == 0 {
        None
    } else {
        Some(
            PricingInfo {
                input_cost_per_token: input,
                output_cost_per_token: output,
                cache_read_cost: rate_amount(entry.field("cache_read_input_token_cost"@)),
                cache_write_cost: rate_amount(entry.field("cache_creation_input_token_cost"@)),
                input_cost_above_200k: rate_amount(
                    entry.field("input_cost_per_token_above_200k_tokens"@),
                ),
                output_cost_above_200k: rate_amount(
                    entry.field("output_cost_per_token_above_200k_tokens"@),
                ),
                cache_read_cost_above_200k: rate_amount(
                    entry.field("cache_read_input_token_cost_above_200k_tokens"@),
                ),
                cache_write_cost_above_200k: rate_amount(
                    entry.field("cache_creation_input_token_cost_above_200k_tokens"@),
                ),
            },
        )
    }
}

/// The index of the first of the first `n` members whose key is `key`.
pub open spec fn first_with_key(members: Seq<(String, Json)>, n: int, key: Seq<char>) -> Option<int>
    decreases n,
{
    if n <= 0 {
        None
    } else if first_with_key(members, n - 1, key) is Some {
        first_with_key(members, n - 1, key)
    } else if members[n - 1].0@ == key {
        Some(n - 1)
    } else {
        None
    }
}

/// Whether no member before the one at `index` has its key. A lookup in the
/// feed finds such a member, and no other.
pub open spec fn is_first_with_key(members: Seq<(String, Json)>, index: int) -> bool {
    first_with_key(members, index, members[index].0@) is None
}

/// The table that the first `n` members of a price feed give: each member
/// that is the first with its key and describes a schedule, under its key, in
/// the members' order.
pub open spec fn schedules_upto(members: Seq<(String, Json)>, n: int) -> Seq<
    (Seq<char>, PricingInfo),
>
    decreases n,
{
    if n <= 0 {
        Seq::empty()
    } else {
        let before = schedules_upto(members, n - 1);
        match schedule_of(members[n - 1].1) {
            Some(info) => if is_first_with_key(members, n - 1) {
                before.push((members[n - 1].0@, info))
            } else {
                before
            },
            None => before,
        }
    }
}

/// The table that the members of a price feed give.
pub open spec fn schedules_of(members: Seq<(String, Json)>) -> Seq<(Seq<char>, PricingInfo)> {
    schedules_upto(members, members.len() as int)
}

/// The schedule that a price feed holds for `key`: that which its member
/// `key` describes, if it has the member and the member describes one.
pub open spec fn feed_schedule(feed: Option<Json>, key: Seq<char>) -> Option<PricingInfo> {
    match child(feed, key) {
        Some(entry) => schedule_of(entry),
        None => None,
    }
}

/// `first_with_key` finds the first member with the key among the first `n`,
/// and none where none of them has it.
pub proof fn lemma_first_with_key(members: Seq<(String, Json)>, n: int, key: Seq<char>)
    requires
        0 <= n <= members.len(),
    ensures
        match first_with_key(members, n, key) {
            Some(j) => {
                &&& 0 <= j < n
                &&& members[j].0@ == key
                &&& forall|i: int| 0 <= i < j ==> (#[trigger] members[i]).0@ != key
            },
            None => forall|i: int| 0 <= i < n ==> (#[trigger] members[i]).0@ != key,
        },
    decreases n,
{
    if n > 0 {
        lemma_first_with_key(members, n - 1, key);
    }
}

/// A lookup in an object finds the value of the first member with the key.
pub proof fn lemma_first_member(members: Seq<(String, Json)>, key: Seq<char>)
    ensures
        first_member(members, key) == match first_with_key(members, members.len() as int, key) {
            Some(j) => Some(members[j].1),
            None => None,
        },
    decreases members.len(),
{
    let n = members.len() as int;
    lemma_first_with_key(members, n, key);
    if n > 0 {
        let rest = members.drop_first();
        lemma_first_member(rest, key);
        lemma_first_with_key(rest, n - 1, key);
        if members[0].0@ == key {
            match first_with_key(members, n, key) {
                Some(j) => {
                    if j > 0 {
                        assert(members[0].0@ != key);
                    }
                },
                None => {
                    assert(members[0].0@ != key);
                },
            }
        } else {
            match first_with_key(rest, n - 1, key) {
                Some(j) => {
                    assert(rest[j] == members[j + 1]);
                    assert forall|i: int| 0 <= i < j + 1 implies (#[trigger] members[i]).0@
                        != key by {
                        if i > 0 {
                            assert(rest[i - 1] == members[i]);
                        }
                    }
                    match first_with_key(members, n, key) {
                        Some(k) => {
                            if k < j + 1 {
                                assert(members[k].0@ != key);
                            } else if k > j + 1 {
                                assert(members[j + 1].0@ != key);
                            }
                        },
                        None => {
                            assert(members[j + 1].0@ != key);
                        },
                    }
                },
                None => {
                    match first_with_key(members, n, key) {
                        Some(k) => {
                            if k > 0 {
                                assert(rest[k - 1] == members[k]);
                                assert(rest[k - 1].0@ != key);
                            }
                        },
                        None => {},
                    }
                },
            }
        }
    }
}

/// Under each key, the table of the first `n` members holds the schedule
/// that the first of them with the key describes, if any.
pub proof fn lemma_schedules_upto_lookup(members: Seq<(String, Json)>, n: int, key: Seq<char>)
    requires
        0 <= n <= members.len(),
    ensures
        lookup(schedules_upto(members, n), key) == match first_with_key(members, n, key) {
            Some(j) => schedule_of(members[j].1),
            None => None,
        },
    decreases n,
{
    if n > 0 {
        let before = schedules_upto(members, n - 1);
        let last = members[n - 1];
        lemma_schedules_upto_lookup(members, n - 1, key);
        lemma_schedules_upto_lookup(members, n - 1, last.0@);
        match schedule_of(last.1) {
            Some(info) => {
                if is_first_with_key(members, n - 1) {
                    let after = before.push((last.0@, info));
                    assert(after.drop_last() =~= before);
                    assert(after.last() == (last.0@, info));
                    assert(index_of(before, last.0@) is None);
                    if last.0@ != key {
                        lemma_index_of(before, key);
                        match index_of(before, key) {
                            Some(i) => {
                                assert(after[i] == before[i]);
                            },
                            None => {},
                        }
                    }
                }
            },
            None => {},
        }
    }
}

/// The table of a price feed holds under each key the schedule that the feed
/// holds for it, and nothing under any other key.
pub proof fn lemma_feed_pricing_lookup(feed: Option<Json>, key: Seq<char>)
    ensures
        lookup(feed_pricing(feed), key) == feed_schedule(feed, key),
{
    match feed {
        Some(Json::Object(members)) => {
            lemma_first_member(members@, key);
            lemma_schedules_upto_lookup(members@, members@.len() as int, key);
        },
        _ => {},
    }
}

/// The table that a price feed gives; empty where the feed is no JSON
/// object.
pub open spec fn feed_pricing(feed: Option<Json>) -> Seq<(Seq<char>, PricingInfo)> {
    match feed {
        Some(Json::Object(members)) => schedules_of(members@),
        _ => Seq::empty(),
    }
}

/// The table that the text of a price feed gives; empty where the text is no
/// JSON object.
pub open spec fn loaded_pricing(body: Seq<char>) -> Seq<(Seq<char>, PricingInfo)> {
    feed_pricing(parsed_json(body))
}

/// Reads one rate of a price feed entry.
fn rate(value: Option<&Json>) -> (amount: u64)
    ensures
        amount == rate_amount(owned(value)),
{
    match value {
        Some(Json::Number(_)) => value_cost(value),
        _ => 0,
    }
}

/// Reads the schedule of one price feed entry.
fn schedule(entry: &Json) -> (info: Option<PricingInfo>)
    ensures
        info == schedule_of(*entry),
{
    let input = rate(entry.get("input_cost_per_token"));
    let output = rate(entry.get("output_cost_per_token"));
    if input == 0 && output == 0 {
        return None;
    }
    Some(
        PricingInfo {
            input_cost_per_token: input,
            output_cost_per_token: output,
            cache_read_cost: rate(entry.get("cache_read_input_token_cost")),
            cache_write_cost: rate(entry.get("cache_creation_input_token_cost")),
            input_cost_above_200k: rate(entry.get("input_cost_per_token_above_200k_tokens")),
            output_cost_above_200k: rate(entry.get("output_cost_per_token_above_200k_tokens")),
            cache_read_cost_above_200k: rate(
                entry.get("cache_read_input_token_cost_above_200k_tokens"),
            ),
            cache_write_cost_above_200k: rate(
                entry.get("cache_creation_input_token_cost_above_200k_tokens"),
            ),
        },
    )
}

/// Whether a member before the one at `index` has its key.
fn has_earlier_key(members: &Vec<(String, Json)>, index: usize) -> (earlier: bool)
    requires
        index < members@.len(),
    ensures
        earlier == !is_first_with_key(members@, index as int),
{
    let mut j: usize = 0;
    while j < index
        invariant
            j <= index < members@.len(),
            first_with_key(members@, j as int, members@[index as int].0@) is None,
        decreases index - j,
    {
        if str_eq(members[j].0.as_str(), members[index].0.as_str()) {
            proof {
                lemma_first_with_key(members@, index as int, members@[index as int].0@);
                assert(members@[j as int].0@ == members@[index as int].0@);
            }
            return true;
        }
        j += 1;
    }
    false
}

/// Builds the price table from a price feed: a JSON object from model key to
/// rates in dollars per token. Entries without an input or an output rate are
/// left out, and so is a member whose key an earlier member has: the table
/// holds for each key what a lookup in the feed finds. A feed that is no JSON
/// object gives an empty table.
pub fn pricing_from_feed(feed: Option<&Json>) -> (table: PricingTable)
    ensures
        table@ == feed_pricing(owned(feed)),
        forall|key: Seq<char>|
            #[trigger] lookup(table@, key) == feed_schedule(owned(feed), key),
{
    let mut table = PricingTable::new();
    proof {
        assert forall|key: Seq<char>|
            #[trigger] lookup(feed_pricing(owned(feed)), key) == feed_schedule(
                owned(feed),
                key,
            ) by {
            lemma_feed_pricing_lookup(owned(feed), key);
        }
    }
    match feed {
        Some(Json::Object(members)) => {
            let mut i: usize = 0;
            while i < members.len()
                invariant
                    i <= members.len(),
                    table@ == schedules_upto(members@, i as int),
                decreases members.len() - i,
            {
                if let Some(info) = schedule(&members[i].1) {
                    if !has_earlier_key(members, i) {
                        proof {
                            lemma_schedules_upto_lookup(
                                members@,
                                i as int,
                                members@[i as int].0@,
                            );
                        }
                        table.insert(members[i].0.clone(), info);
                    }
                }
                i += 1;
            }
            table
        },
        _ => table,
    }
}

/// Builds the price table from the text of a price feed; text that is no
/// JSON object gives an empty table.
pub fn load_pricing(body: &str) -> (table: PricingTable)
    ensures
        table@ == loaded_pricing(body@),
{
    match from_str(body) {
        Some(feed) => pricing_from_feed(Some(&feed)),
        None => pricing_from_feed(None),
    }
}

/// Above the threshold, and with a higher rate, a token count costs the base
/// rate for the first 200,000 tokens and the higher rate for the rest.
pub proof fn lemma_tiered_cost_above_threshold(tokens: u64, base_price: u64, above_price: u64)
    requires
        above_price > 0,
        tokens > TIERED_THRESHOLD,
    ensures
        tiered_cost_exact(tokens, base_price, above_price) == 200_000 * base_price + (tokens
            - 200_000) * above_price,
        200_000 * base_price + (tokens - 200_000) * above_price < u64::MAX ==> saturated(
            tiered_cost_exact(tokens, base_price, above_price),
        ) == 200_000 * base_price + (tokens - 200_000) * above_price,
{
    lemma_tiered_cost_bounds(tokens, base_price, above_price);
}

/// Up to the threshold, the threshold included, a token count costs the base
/// rate throughout, whatever the higher rate is.
pub proof fn lemma_tiered_cost_up_to_threshold(tokens: u64, base_price: u64, above_price: u64)
    requires
        tokens <= TIERED_THRESHOLD,
    ensures
        tiered_cost_exact(tokens, base_price, above_price) == tokens * base_price,
        tokens * base_price < u64::MAX ==> saturated(
            tiered_cost_exact(tokens, base_price, above_price),
        ) == tokens * base_price,
{
    lemma_tiered_cost_bounds(tokens, base_price, above_price);
}

/// A name followed by a hyphen and an eight-digit version date resolves
/// whenever the name is found as it stands.
pub proof fn lemma_dated_name_resolves(
    prices: Seq<(Seq<char>, PricingInfo)>,
    name: Seq<char>,
    date: Seq<char>,
)
    requires
        date.len() == 8,
        all_digits(date),
        direct_match(prices, name) is Some,
    ensures
        resolved(prices, name + seq!['-'] + date) is Some,
{
    let dated = name + seq!['-'] + date;
    assert(dated.skip(dated.len() - 8) =~= date);
    assert(dated[dated.len() - 9] == '-');
    assert(dated.take(dated.len() - 9) =~= name);
    assert(without_date_suffix(dated) == Some(name));
}

} // verus!
