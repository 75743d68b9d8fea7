use usage_scanner::pricing::{
    cost_under, estimate_cost, find_pricing, load_pricing, tiered_cost, PricingInfo, PricingTable,
};

fn flat(input: u64, output: u64) -> PricingInfo {
    PricingInfo {
        input_cost_per_token: input,
        output_cost_per_token: output,
        cache_read_cost: 0,
        cache_write_cost: 0,
        input_cost_above_200k: 0,
        output_cost_above_200k: 0,
        cache_read_cost_above_200k: 0,
        cache_write_cost_above_200k: 0,
    }
}

fn table_of(keys: &[(&str, PricingInfo)]) -> PricingTable {
    let mut table = PricingTable::new();
    for (key, info) in keys {
        table.insert(key.to_string(), *info);
    }
    table
}

#[test]
fn tiered_cost_above_threshold() {
    let base: u64 = 3_000_000;
    let above: u64 = 6_000_000;
    assert_eq!(tiered_cost(250_000, base, above), 200_000 * base + 50_000 * above);
    assert_eq!(tiered_cost(250_000, base, above), 900_000_000_000);
}

#[test]
fn tiered_cost_at_threshold_uses_base_rate() {
    let base: u64 = 3_000_000;
    let above: u64 = 6_000_000;
    assert_eq!(tiered_cost(200_000, base, above), 200_000 * base);
    assert_eq!(tiered_cost(200_001, base, above), 200_000 * base + above);
}

#[test]
fn tiered_cost_without_higher_tier() {
    assert_eq!(tiered_cost(250_000, 3_000_000, 0), 750_000_000_000);
    assert_eq!(tiered_cost(0, 3_000_000, 6_000_000), 0);
}

#[test]
fn tiered_cost_is_capped() {
    assert_eq!(tiered_cost(u64::MAX, u64::MAX, 0), u64::MAX);
    assert_eq!(tiered_cost(u64::MAX, 1, u64::MAX), u64::MAX);
    assert_eq!(tiered_cost(u64::MAX, 1, 0), u64::MAX);
    assert_eq!(tiered_cost(u64::MAX - 1, 1, 0), u64::MAX - 1);
}

#[test]
fn cost_sums_the_four_categories() {
    let p = PricingInfo {
        input_cost_per_token: 3_000_000,
        output_cost_per_token: 15_000_000,
        cache_read_cost: 300_000,
        cache_write_cost: 3_750_000,
        input_cost_above_200k: 6_000_000,
        output_cost_above_200k: 22_500_000,
        cache_read_cost_above_200k: 600_000,
        cache_write_cost_above_200k: 7_500_000,
    };
    // The input count is priced in full, whatever was read from cache.
    assert_eq!(
        cost_under(&p, 1000, 500, 400, 100),
        1000 * 3_000_000 + 500 * 15_000_000 + 400 * 300_000 + 100 * 3_750_000
    );
    assert_eq!(
        cost_under(&p, 300_000, 0, 250_000, 0),
        200_000 * 3_000_000 + 100_000 * 6_000_000 + 200_000 * 300_000 + 50_000 * 600_000
    );
    assert_eq!(cost_under(&flat(u64::MAX, u64::MAX), 2, 2, 0, 0), u64::MAX);
}

#[test]
fn dated_name_resolves_like_plain_name() {
    let table = table_of(&[("gpt-4", flat(30_000_000, 60_000_000))]);
    assert_eq!(find_pricing(&table, "gpt-4"), Some(flat(30_000_000, 60_000_000)));
    assert_eq!(find_pricing(&table, "gpt-4-20240101"), Some(flat(30_000_000, 60_000_000)));
}

#[test]
fn exact_key_wins_over_loose_match() {
    let table = table_of(&[("gpt-4o-mini", flat(1, 2)), ("gpt-4o", flat(3, 4))]);
    assert_eq!(find_pricing(&table, "gpt-4o"), Some(flat(3, 4)));
}

#[test]
fn provider_prefix_is_tried() {
    let table = table_of(&[
        ("unrelated", flat(9, 9)),
        ("gemini/model-x", flat(5, 6)),
        ("openai/model-x", flat(1, 2)),
    ]);
    // Prefixes are tried in a fixed order, not in table order.
    assert_eq!(find_pricing(&table, "model-x"), Some(flat(1, 2)));
    let table = table_of(&[("vertex_ai/model-y", flat(7, 8))]);
    assert_eq!(find_pricing(&table, "model-y"), Some(flat(7, 8)));
}

#[test]
fn loose_match_ignores_case_both_ways() {
    let table = table_of(&[("Provider/Big-Model-V2", flat(1, 2))]);
    // The name occurs in the key.
    assert_eq!(find_pricing(&table, "big-model"), Some(flat(1, 2)));
    // The key occurs in the name.
    assert_eq!(find_pricing(&table, "x-PROVIDER/BIG-MODEL-V2-preview"), Some(flat(1, 2)));
    assert_eq!(find_pricing(&table, "other"), None);
}

#[test]
fn loose_match_takes_first_in_table_order() {
    let table = table_of(&[("alpha-model-a", flat(1, 1)), ("alpha-model-b", flat(2, 2))]);
    assert_eq!(find_pricing(&table, "alpha-model"), Some(flat(1, 1)));
}

#[test]
fn suffixes_are_stripped() {
    let table = table_of(&[("zed-1", flat(1, 2))]);
    // A loose match would find these too, so use a key that the stripped
    // name matches only behind a prefix of another spelling.
    let strict = table_of(&[("openai/qq", flat(4, 5))]);
    assert_eq!(find_pricing(&strict, "qq-thinking"), Some(flat(4, 5)));
    assert_eq!(find_pricing(&strict, "qq-20250918"), Some(flat(4, 5)));
    assert_eq!(find_pricing(&strict, "qq-20250918-thinking"), Some(flat(4, 5)));
    assert_eq!(find_pricing(&strict, "qq-thinking-20250918"), Some(flat(4, 5)));
    assert_eq!(find_pricing(&strict, "qq-high"), Some(flat(4, 5)));
    assert_eq!(find_pricing(&strict, "qq-low"), Some(flat(4, 5)));
    assert_eq!(find_pricing(&strict, "qq-medium"), Some(flat(4, 5)));
    assert_eq!(find_pricing(&table, "zed-1"), Some(flat(1, 2)));
}

#[test]
fn unknown_suffixes_are_not_stripped() {
    let strict = table_of(&[("openai/qq", flat(4, 5))]);
    assert_eq!(find_pricing(&strict, "qq-2025091"), None);
    assert_eq!(find_pricing(&strict, "qq-2025091x"), None);
    assert_eq!(find_pricing(&strict, "qq-ultra"), None);
    assert_eq!(find_pricing(&strict, "qq-high-20250918-20250919"), None);
    assert_eq!(find_pricing(&PricingTable::new(), "qq"), None);
}

#[test]
fn unresolved_model_costs_nothing() {
    let table = table_of(&[("gpt-4", flat(30_000_000, 60_000_000))]);
    assert_eq!(estimate_cost(&table, "nothing-like-it", 1000, 1000, 0, 0), 0);
    assert_eq!(estimate_cost(&table, "gpt-4", 1000, 500, 0, 0), 60_000_000_000);
}

#[test]
fn price_feed_is_loaded() {
    let feed = r#"{
        "sample_spec": {"note": "no rates at all"},
        "model-a": {"input_cost_per_token": 3e-06, "output_cost_per_token": 1.5e-05,
                    "cache_read_input_token_cost": 3e-07,
                    "cache_creation_input_token_cost": 3.75e-06,
                    "input_cost_per_token_above_200k_tokens": 6e-06,
                    "output_cost_per_token_above_200k_tokens": 2.25e-05,
                    "cache_read_input_token_cost_above_200k_tokens": 6e-07,
                    "cache_creation_input_token_cost_above_200k_tokens": 7.5e-06},
        "model-b": {"input_cost_per_token": 0.0, "output_cost_per_token": 0},
        "model-c": {"input_cost_per_token": 0, "output_cost_per_token": 1.25e-7},
        "model-d": {"input_cost_per_token": "0.5", "output_cost_per_token": null},
        "model-e": {"input_cost_per_token": 2}
    }"#;
    let table = load_pricing(feed);
    assert_eq!(table.len(), 3);
    assert_eq!(
        table.get("model-a"),
        Some(&PricingInfo {
            input_cost_per_token: 3_000_000,
            output_cost_per_token: 15_000_000,
            cache_read_cost: 300_000,
            cache_write_cost: 3_750_000,
            input_cost_above_200k: 6_000_000,
            output_cost_above_200k: 22_500_000,
            cache_read_cost_above_200k: 600_000,
            cache_write_cost_above_200k: 7_500_000,
        })
    );
    assert_eq!(table.get("model-b"), None);
    assert_eq!(table.get("model-c"), Some(&flat(0, 125_000)));
    assert_eq!(table.get("model-d"), None);
    assert_eq!(table.get("model-e"), Some(&flat(2_000_000_000_000, 0)));
    assert_eq!(table.get("sample_spec"), None);
}

#[test]
fn malformed_price_feed_gives_empty_table() {
    assert_eq!(load_pricing("").len(), 0);
    assert_eq!(load_pricing("not json").len(), 0);
    assert_eq!(load_pricing("[1, 2, 3]").len(), 0);
    assert_eq!(load_pricing("{\"a\": {\"input_cost_per_token\": 1e-6}").len(), 0);
    assert_eq!(load_pricing("{}").len(), 0);
}
