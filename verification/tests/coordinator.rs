use usage_scanner::entry::{Tool, UsageEntry};
use usage_scanner::opencode::FileOutcome;
use usage_scanner::paths::unique_paths;
use usage_scanner::pricing::{load_pricing, PricingTable};
use usage_scanner::scan::{
    plan_lines, plan_whole, previous_offset, scan_all_usage, scan_all_usage_incremental,
    scan_claude_file, scan_claude_incremental, scan_codex_file, scan_codex_incremental,
    scan_opencode_incremental, ReadPlan, ScanState,
};
use usage_scanner::table::Table;

const FALLBACK: &str = "2020-02-02T02:02:02+00:00";

fn table() -> PricingTable {
    load_pricing(r#"{"gpt-5": {"input_cost_per_token": 1e-06, "output_cost_per_token": 1e-05}}"#)
}

fn transcript_line(input: u64) -> String {
    format!("{{\"message\":{{\"model\":\"gpt-5\",\"usage\":{{\"input_tokens\":{input}}}}}}}\n")
}

fn total_line(input: u64) -> String {
    format!(
        "{{\"type\":\"event_msg\",\"payload\":{{\"type\":\"token_count\",\"info\":{{\"total_token_usage\":{{\"input_tokens\":{input}}}}}}}}}\n"
    )
}

fn context_line(model: &str) -> String {
    format!("{{\"type\":\"turn_context\",\"payload\":{{\"model\":\"{model}\"}}}}\n")
}

fn entry(tool: Tool, model: &str, input: u64, cost: u64) -> UsageEntry {
    UsageEntry {
        timestamp: FALLBACK.to_string(),
        tool,
        model: model.to_string(),
        input_tokens: input,
        output_tokens: 0,
        cache_read_tokens: 0,
        cache_write_tokens: 0,
        cost,
    }
}

#[test]
fn plans_for_line_files() {
    // Not seen before.
    assert_eq!(plan_lines(None, 0), ReadPlan::ReadFrom(0));
    assert_eq!(plan_lines(None, 100), ReadPlan::ReadFrom(0));
    // Grown, unchanged, shrunk.
    assert_eq!(plan_lines(Some(40), 100), ReadPlan::ReadFrom(40));
    assert_eq!(plan_lines(Some(100), 100), ReadPlan::Skip);
    assert_eq!(plan_lines(Some(100), 99), ReadPlan::ReadFrom(0));
    assert_eq!(plan_lines(Some(100), 0), ReadPlan::ReadFrom(0));
    // Seen while empty.
    assert_eq!(plan_lines(Some(0), 0), ReadPlan::Skip);
    assert_eq!(plan_lines(Some(0), 7), ReadPlan::ReadFrom(0));
    assert_eq!(plan_lines(Some(u64::MAX), u64::MAX), ReadPlan::Skip);
}

#[test]
fn plans_for_whole_files() {
    assert_eq!(plan_whole(None, 0), ReadPlan::ReadFrom(0));
    assert_eq!(plan_whole(None, 10), ReadPlan::ReadFrom(0));
    assert_eq!(plan_whole(Some(10), 10), ReadPlan::Skip);
    assert_eq!(plan_whole(Some(0), 0), ReadPlan::Skip);
    assert_eq!(plan_whole(Some(10), 11), ReadPlan::ReadFrom(0));
    assert_eq!(plan_whole(Some(10), 9), ReadPlan::ReadFrom(0));
}

#[test]
fn appended_lines_are_read_alone() {
    let prices = table();
    let mut offsets: Table<u64> = Table::new();
    let first = transcript_line(1000) + &transcript_line(2000);
    let found = scan_claude_file(&mut offsets, "/logs/a.jsonl", first.as_bytes(), FALLBACK, &prices);
    assert_eq!(
        found,
        vec![
            entry(Tool::Claude, "gpt-5", 1000, 1_000_000_000),
            entry(Tool::Claude, "gpt-5", 2000, 2_000_000_000)
        ]
    );
    assert_eq!(previous_offset(&offsets, "/logs/a.jsonl"), Some(first.len() as u64));

    // Unchanged: nothing is read.
    let found = scan_claude_file(&mut offsets, "/logs/a.jsonl", first.as_bytes(), FALLBACK, &prices);
    assert_eq!(found, vec![]);
    assert_eq!(previous_offset(&offsets, "/logs/a.jsonl"), Some(first.len() as u64));

    // Grown: only the appended line is read.
    let grown = first.clone() + &transcript_line(3000);
    let found = scan_claude_file(&mut offsets, "/logs/a.jsonl", grown.as_bytes(), FALLBACK, &prices);
    assert_eq!(found, vec![entry(Tool::Claude, "gpt-5", 3000, 3_000_000_000)]);
    assert_eq!(previous_offset(&offsets, "/logs/a.jsonl"), Some(grown.len() as u64));

    // Another file has its own offset.
    let found = scan_claude_file(&mut offsets, "/logs/b.jsonl", first.as_bytes(), FALLBACK, &prices);
    assert_eq!(found.len(), 2);
    assert_eq!(previous_offset(&offsets, "/logs/a.jsonl"), Some(grown.len() as u64));
    assert_eq!(previous_offset(&offsets, "/logs/b.jsonl"), Some(first.len() as u64));
    assert_eq!(previous_offset(&offsets, "/logs/c.jsonl"), None);
}

#[test]
fn truncated_file_is_read_from_the_start() {
    let prices = table();
    let mut offsets: Table<u64> = Table::new();
    let first = transcript_line(1000) + &transcript_line(2000);
    scan_claude_file(&mut offsets, "a", first.as_bytes(), FALLBACK, &prices);
    let shorter = transcript_line(1000);
    let found = scan_claude_file(&mut offsets, "a", shorter.as_bytes(), FALLBACK, &prices);
    // The entry was emitted before and is emitted again.
    assert_eq!(found, vec![entry(Tool::Claude, "gpt-5", 1000, 1_000_000_000)]);
    assert_eq!(previous_offset(&offsets, "a"), Some(shorter.len() as u64));
    let found = scan_claude_file(&mut offsets, "a", b"", FALLBACK, &prices);
    assert_eq!(found, vec![]);
    assert_eq!(previous_offset(&offsets, "a"), Some(0));
}

#[test]
fn tail_and_position_are_taken_as_given() {
    let prices = table();
    let mut offsets: Table<u64> = Table::new();
    let tail = transcript_line(5);
    let found =
        scan_claude_incremental(&mut offsets, "a", tail.as_bytes(), 12_345, FALLBACK, &prices);
    assert_eq!(found, vec![entry(Tool::Claude, "gpt-5", 5, 5_000_000)]);
    assert_eq!(previous_offset(&offsets, "a"), Some(12_345));
}

#[test]
fn event_log_keeps_its_model_but_not_its_totals() {
    let prices = table();
    let mut offsets: Table<u64> = Table::new();
    let mut models: Table<String> = Table::new();
    let first = context_line("gpt-5") + &total_line(100);
    let found =
        scan_codex_file(&mut offsets, &mut models, "s.jsonl", first.as_bytes(), FALLBACK, &prices);
    assert_eq!(found, vec![entry(Tool::Codex, "gpt-5", 100, 100_000_000)]);
    assert_eq!(models.get("s.jsonl"), Some(&"gpt-5".to_string()));
    assert_eq!(previous_offset(&offsets, "s.jsonl"), Some(first.len() as u64));

    // The appended totals are the first of their scan and count in full; the
    // model comes from the scan before.
    let grown = first.clone() + &total_line(150) + &total_line(175);
    let found =
        scan_codex_file(&mut offsets, &mut models, "s.jsonl", grown.as_bytes(), FALLBACK, &prices);
    assert_eq!(
        found,
        vec![
            entry(Tool::Codex, "gpt-5", 150, 150_000_000),
            entry(Tool::Codex, "gpt-5", 25, 25_000_000)
        ]
    );
    let found =
        scan_codex_file(&mut offsets, &mut models, "s.jsonl", grown.as_bytes(), FALLBACK, &prices);
    assert_eq!(found, vec![]);

    // A file without a model leaves none behind.
    let plain = total_line(10);
    let found = scan_codex_incremental(
        &mut offsets,
        &mut models,
        "t.jsonl",
        0,
        plain.as_bytes(),
        77,
        FALLBACK,
        &prices,
    );
    assert_eq!(found, vec![entry(Tool::Codex, "gpt-5", 10, 10_000_000)]);
    assert_eq!(models.get("t.jsonl"), None);
    assert_eq!(models.len(), 1);
    assert_eq!(previous_offset(&offsets, "t.jsonl"), Some(77));
}

#[test]
fn message_files_are_tracked_by_length() {
    let prices = table();
    let mut seen: Table<u64> = Table::new();
    let file = br#"{"modelID":"gpt-5","tokens":{"input":1000}}"#;
    let outcome =
        scan_opencode_incremental(&mut seen, "m.json", file.len() as u64, file, FALLBACK, &prices);
    assert_eq!(outcome, FileOutcome::Entry(entry(Tool::OpenCode, "gpt-5", 1000, 1_000_000_000)));
    assert_eq!(previous_offset(&seen, "m.json"), Some(file.len() as u64));
    assert_eq!(plan_whole(previous_offset(&seen, "m.json"), file.len() as u64), ReadPlan::Skip);

    let blank = br#"{"modelID":"gpt-5"}"#;
    let outcome =
        scan_opencode_incremental(&mut seen, "n.json", blank.len() as u64, blank, FALLBACK, &prices);
    assert_eq!(outcome, FileOutcome::Blank);
    assert_eq!(previous_offset(&seen, "n.json"), Some(blank.len() as u64));

    let broken = b"{";
    let outcome = scan_opencode_incremental(&mut seen, "o.json", 1, broken, FALLBACK, &prices);
    assert_eq!(outcome, FileOutcome::Unreadable);
    assert_eq!(previous_offset(&seen, "o.json"), None);
    assert_eq!(seen.len(), 2);
}

#[test]
fn full_scan_resets_and_incremental_scan_accumulates() {
    let mut state = ScanState::new();
    state.file_offsets.insert("a".to_string(), 10);
    state.codex_file_models.insert("s".to_string(), "gpt-5".to_string());
    state.cached_entries.push(entry(Tool::Claude, "old", 1, 0));

    let all = scan_all_usage(
        &mut state,
        vec![entry(Tool::Claude, "m", 1, 0), entry(Tool::Claude, "m", 2, 0)],
        vec![entry(Tool::Codex, "m", 3, 0)],
        vec![entry(Tool::OpenCode, "m", 4, 0)],
    );
    let expected = vec![
        entry(Tool::Claude, "m", 1, 0),
        entry(Tool::Claude, "m", 2, 0),
        entry(Tool::Codex, "m", 3, 0),
        entry(Tool::OpenCode, "m", 4, 0),
    ];
    assert_eq!(all, expected);
    assert_eq!(state.cached_entries, expected);
    assert_eq!(state.file_offsets.len(), 0);
    assert_eq!(state.codex_file_models.len(), 0);

    state.file_offsets.insert("a".to_string(), 10);
    let all = scan_all_usage_incremental(
        &mut state,
        vec![entry(Tool::Claude, "m", 5, 0)],
        vec![],
        vec![entry(Tool::OpenCode, "m", 6, 0)],
    );
    let mut expected = expected;
    expected.push(entry(Tool::Claude, "m", 5, 0));
    expected.push(entry(Tool::OpenCode, "m", 6, 0));
    assert_eq!(all, expected);
    assert_eq!(state.cached_entries, expected);
    assert_eq!(state.file_offsets.get("a"), Some(&10));

    let all = scan_all_usage_incremental(&mut state, vec![], vec![], vec![]);
    assert_eq!(all, expected);
}

#[test]
fn paths_are_kept_where_first_seen() {
    let found: Vec<String> =
        ["b", "a", "b", "c", "a", "a", "d"].iter().map(|p| p.to_string()).collect();
    assert_eq!(unique_paths(found), vec!["b", "a", "c", "d"]);
    assert_eq!(unique_paths(vec![]), Vec::<String>::new());
    assert_eq!(unique_paths(vec!["x".to_string()]), vec!["x"]);
}

#[test]
fn two_scans_emit_what_one_scan_of_the_grown_file_emits() {
    let prices = table();
    let first = transcript_line(1000) + "not json\n" + &transcript_line(2000);
    let appended = transcript_line(3000) + &transcript_line(4000);
    let grown = first.clone() + &appended;

    let mut offsets: Table<u64> = Table::new();
    let mut in_parts = scan_claude_file(&mut offsets, "a", first.as_bytes(), FALLBACK, &prices);
    in_parts.extend(scan_claude_file(&mut offsets, "a", grown.as_bytes(), FALLBACK, &prices));

    let mut fresh: Table<u64> = Table::new();
    let at_once = scan_claude_file(&mut fresh, "a", grown.as_bytes(), FALLBACK, &prices);
    assert_eq!(in_parts, at_once);
    assert_eq!(at_once.len(), 4);
    assert_eq!(previous_offset(&offsets, "a"), previous_offset(&fresh, "a"));
}

#[test]
fn tools_are_reported_by_name() {
    assert_eq!(format!("{:?}", Tool::Codex), "Codex");
    assert_eq!(format!("{:?}", Tool::OpenCode), "OpenCode");
    assert_eq!(format!("{:?}", Tool::Claude).len(), 6);
    assert_ne!(Tool::Claude, Tool::Codex);
}

fn last_usage_line(input: u64, output: u64) -> String {
    format!(
        "{{\"type\":\"event_msg\",\"payload\":{{\"type\":\"token_count\",\"info\":{{\"last_token_usage\":{{\"input_tokens\":{input},\"output_tokens\":{output},\"cached_input_tokens\":0}}}}}}}}\n"
    )
}

fn codex_entry(model: &str, input: u64, output: u64, cost: u64) -> UsageEntry {
    UsageEntry {
        timestamp: FALLBACK.to_string(),
        tool: Tool::Codex,
        model: model.to_string(),
        input_tokens: input,
        output_tokens: output,
        cache_read_tokens: 0,
        cache_write_tokens: 0,
        cost,
    }
}

#[test]
fn shrunk_event_log_starts_without_the_old_model() {
    let prices = table();
    let mut offsets: Table<u64> = Table::new();
    let mut models: Table<String> = Table::new();
    let first = context_line("old-model") + &total_line(100) + &total_line(200);
    let found =
        scan_codex_file(&mut offsets, &mut models, "s.jsonl", first.as_bytes(), FALLBACK, &prices);
    assert_eq!(found.len(), 2);
    assert_eq!(found[0].model, "old-model");
    assert_eq!(models.get("s.jsonl"), Some(&"old-model".to_string()));

    // Another, shorter file now stands under the path; it names no model.
    let other = last_usage_line(10, 5);
    assert!(other.len() < first.len());
    let found =
        scan_codex_file(&mut offsets, &mut models, "s.jsonl", other.as_bytes(), FALLBACK, &prices);
    assert_eq!(found, vec![codex_entry("gpt-5", 10, 5, 60_000_000)]);
    assert_eq!(models.get("s.jsonl"), None);
    assert_eq!(previous_offset(&offsets, "s.jsonl"), Some(other.len() as u64));

    // What is appended to it goes on without a model too.
    let grown = other.clone() + &last_usage_line(1, 0);
    let found =
        scan_codex_file(&mut offsets, &mut models, "s.jsonl", grown.as_bytes(), FALLBACK, &prices);
    assert_eq!(found, vec![codex_entry("gpt-5", 1, 0, 1_000_000)]);
    assert_eq!(models.get("s.jsonl"), None);
}

#[test]
fn model_is_carried_only_from_the_offset_reached() {
    let prices = table();
    let line = last_usage_line(10, 5);
    let scan = |start: u64| {
        let mut offsets: Table<u64> = Table::new();
        let mut models: Table<String> = Table::new();
        offsets.insert("s".to_string(), 100);
        models.insert("s".to_string(), "old-model".to_string());
        models.insert("t".to_string(), "other".to_string());
        let found = scan_codex_incremental(
            &mut offsets,
            &mut models,
            "s",
            start,
            line.as_bytes(),
            start + line.len() as u64,
            FALLBACK,
            &prices,
        );
        (found[0].model.clone(), models.get("s").cloned(), models.get("t").cloned())
    };
    assert_eq!(
        scan(100),
        ("old-model".to_string(), Some("old-model".to_string()), Some("other".to_string()))
    );
    assert_eq!(scan(0), ("gpt-5".to_string(), None, Some("other".to_string())));
    assert_eq!(scan(99), ("gpt-5".to_string(), None, Some("other".to_string())));

    // A file not seen before has no model to carry, whatever the table holds.
    let mut offsets: Table<u64> = Table::new();
    let mut models: Table<String> = Table::new();
    models.insert("s".to_string(), "old-model".to_string());
    let found =
        scan_codex_file(&mut offsets, &mut models, "s", line.as_bytes(), FALLBACK, &prices);
    assert_eq!(found, vec![codex_entry("gpt-5", 10, 5, 60_000_000)]);
    assert_eq!(models.len(), 0);
}
