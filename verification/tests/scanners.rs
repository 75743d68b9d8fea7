use usage_scanner::claude::scan_claude_lines;
use usage_scanner::codex::{counts_delta, extract_codex_model, scan_codex_lines};
use usage_scanner::entry::{Tool, UsageEntry};
use usage_scanner::json::Json;
use usage_scanner::opencode::{scan_opencode_file, FileOutcome};
use usage_scanner::pricing::{load_pricing, PricingInfo, PricingTable};

const FALLBACK: &str = "2020-02-02T02:02:02+00:00";

/// The given lines, each ended by a newline.
fn joined(lines: &[&str]) -> String {
    let mut text = String::new();
    for line in lines {
        text.push_str(line);
        text.push('\n');
    }
    text
}

/// The model family named after the first tool, in lowercase.
fn family() -> String {
    format!("{:?}", Tool::Claude).to_lowercase()
}

fn opus_table() -> PricingTable {
    let mut table = PricingTable::new();
    table.insert(
        format!("{}-3-opus", family()),
        PricingInfo {
            input_cost_per_token: 30_000_000,
            output_cost_per_token: 150_000_000,
            cache_read_cost: 3_000_000,
            cache_write_cost: 37_500_000,
            input_cost_above_200k: 0,
            output_cost_above_200k: 0,
            cache_read_cost_above_200k: 0,
            cache_write_cost_above_200k: 0,
        },
    );
    table
}

fn gpt_table() -> PricingTable {
    load_pricing(
        r#"{"gpt-5": {"input_cost_per_token": 1.25e-06, "output_cost_per_token": 1e-05,
                      "cache_read_input_token_cost": 1.25e-07},
            "o9-test": {"input_cost_per_token": 2e-06, "output_cost_per_token": 8e-06}}"#,
    )
}

fn entry(
    tool: Tool,
    timestamp: &str,
    model: &str,
    tokens: (u64, u64, u64, u64),
    cost: u64,
) -> UsageEntry {
    UsageEntry {
        timestamp: timestamp.to_string(),
        tool,
        model: model.to_string(),
        input_tokens: tokens.0,
        output_tokens: tokens.1,
        cache_read_tokens: tokens.2,
        cache_write_tokens: tokens.3,
        cost,
    }
}

#[test]
fn transcript_line_with_estimated_cost() {
    let model = format!("{}-3-opus", family());
    let line = format!(
        r#"{{"timestamp":"2024-01-01T00:00:00Z","message":{{"model":"{model}","usage":{{"input_tokens":1000,"output_tokens":500}}}}}}"#
    );
    let found = scan_claude_lines(line.as_bytes(), FALLBACK, &opus_table());
    assert_eq!(
        found,
        vec![entry(
            Tool::Claude,
            "2024-01-01T00:00:00+00:00",
            &model,
            (1000, 500, 0, 0),
            105_000_000_000
        )]
    );
    // 1000 * 3e-5 + 500 * 1.5e-4 dollars
    assert_eq!(found[0].cost as f64 / 1e12, 0.105);
}

#[test]
fn transcript_price_feed_end_to_end() {
    let model = format!("{}-3-opus", family());
    let feed = format!(
        r#"{{"{model}": {{"input_cost_per_token": 3e-5, "output_cost_per_token": 1.5e-4}}}}"#
    );
    let line = format!(
        r#"{{"timestamp":"2024-01-01T00:00:00Z","message":{{"model":"{model}","usage":{{"input_tokens":1000,"output_tokens":500}}}}}}"#
    );
    let found = scan_claude_lines(line.as_bytes(), FALLBACK, &load_pricing(&feed));
    assert_eq!(found.len(), 1);
    assert_eq!(found[0].cost, 105_000_000_000);
}

#[test]
fn transcript_reported_cost_is_preferred() {
    let model = format!("{}-3-opus", family());
    let line = format!(
        r#"{{"costUSD": 0.25, "timestamp": 1704067200, "message":{{"model":"{model}","usage":{{"input_tokens":1000,"output_tokens":500,"cache_creation_input_tokens":10,"cache_read_input_tokens":20}}}}}}"#
    );
    let found = scan_claude_lines(line.as_bytes(), FALLBACK, &opus_table());
    assert_eq!(
        found,
        vec![entry(
            Tool::Claude,
            "2024-01-01T00:00:00+00:00",
            &model,
            (1000, 500, 20, 10),
            250_000_000_000
        )]
    );
}

#[test]
fn transcript_model_falls_back() {
    let table = gpt_table();
    let lines = joined(&[
        r#"{"model":"gpt-5","message":{"usage":{"input_tokens":1000000}}}"#,
        r#"{"model":"gpt-5","message":{"model":"unknown","usage":{"input_tokens":1000000}}}"#,
        r#"{"model":"gpt-5","message":{"model":"o9-test","usage":{"input_tokens":1000000}}}"#,
        r#"{"message":{"model":7,"usage":{"input_tokens":"1000000"}}}"#,
    ]);
    let found = scan_claude_lines(lines.as_bytes(), FALLBACK, &table);
    assert_eq!(
        found,
        vec![
            entry(Tool::Claude, FALLBACK, "gpt-5", (1_000_000, 0, 0, 0), 1_250_000_000_000),
            entry(Tool::Claude, FALLBACK, "gpt-5", (1_000_000, 0, 0, 0), 1_250_000_000_000),
            entry(Tool::Claude, FALLBACK, "o9-test", (1_000_000, 0, 0, 0), 2_000_000_000_000),
            entry(Tool::Claude, FALLBACK, "unknown", (1_000_000, 0, 0, 0), 0),
        ]
    );
}

#[test]
fn transcript_lines_without_usage_or_json_are_passed_over() {
    let mut bytes: Vec<u8> = Vec::new();
    bytes.extend_from_slice(b"\n   \n");
    bytes.extend_from_slice(b"not json\n");
    bytes.extend_from_slice(br#"{"message":{"usage":{"input_tokens":0,"output_tokens":0}}}"#);
    bytes.extend_from_slice(b"\r\n");
    bytes.extend_from_slice(br#"{"costUSD": 0.0, "message":{"model":"gpt-5"}}"#);
    bytes.extend_from_slice(b"\n");
    // Not UTF-8.
    bytes.extend_from_slice(b"{\"message\":{\"usage\":{\"input_tokens\":5}},\"x\":\"\xff\"}\n");
    bytes.extend_from_slice(b"  \t");
    bytes.extend_from_slice(br#"{"message":{"usage":{"output_tokens":3}}}"#);
    bytes.extend_from_slice(b" \r\n");
    // A cost without tokens is an entry; the last line needs no newline.
    bytes.extend_from_slice(br#"{"costUSD": "0.5"}"#);
    let found = scan_claude_lines(&bytes, FALLBACK, &gpt_table());
    assert_eq!(
        found,
        vec![
            entry(Tool::Claude, FALLBACK, "unknown", (0, 3, 0, 0), 0),
            entry(Tool::Claude, FALLBACK, "unknown", (0, 0, 0, 0), 500_000_000_000),
        ]
    );
    assert_eq!(scan_claude_lines(b"", FALLBACK, &gpt_table()), vec![]);
}

#[test]
fn cumulative_totals_become_deltas() {
    let lines = joined(&[
        r#"{"type":"event_msg","payload":{"type":"token_count","info":{"total_token_usage":{"input_tokens":100,"output_tokens":50,"cached_input_tokens":0}}}}"#,
        r#"{"type":"event_msg","payload":{"type":"token_count","info":{"total_token_usage":{"input_tokens":140,"output_tokens":50,"cached_input_tokens":10}}}}"#,
        r#"{"type":"event_msg","payload":{"type":"token_count","info":{"total_token_usage":{"input_tokens":90,"output_tokens":50,"cached_input_tokens":0}}}}"#,
        r#"{"type":"event_msg","payload":{"type":"token_count","info":{"total_token_usage":{"input_tokens":95,"output_tokens":50,"cached_input_tokens":0}}}}"#,
    ]);
    let (found, model) = scan_codex_lines(lines.as_bytes(), None, FALLBACK, &PricingTable::new());
    assert_eq!(
        found,
        vec![
            entry(Tool::Codex, FALLBACK, "gpt-5", (100, 50, 0, 0), 0),
            entry(Tool::Codex, FALLBACK, "gpt-5", (40, 0, 10, 0), 0),
            // The regression to (90, 50, 0) is clamped to zeros and emits
            // nothing, but later totals are measured against it.
            entry(Tool::Codex, FALLBACK, "gpt-5", (5, 0, 0, 0), 0),
        ]
    );
    assert_eq!(model, None);
    assert_eq!(counts_delta(None, (100, 50, 0)), (100, 50, 0));
    assert_eq!(counts_delta(Some((100, 50, 0)), (140, 50, 10)), (40, 0, 10));
    assert_eq!(counts_delta(Some((140, 50, 10)), (90, 50, 0)), (0, 0, 0));
}

#[test]
fn last_usage_is_taken_as_it_stands() {
    let lines = joined(&[
        r#"{"type":"turn_context","payload":{"model":" o9-test "}}"#,
        r#"{"type":"event_msg","timestamp":"2024-01-01T00:00:00Z","payload":{"type":"token_count","info":{"last_token_usage":{"input_tokens":1000,"output_tokens":100,"cache_read_input_tokens":7},"total_token_usage":{"input_tokens":5000}}}}"#,
        r#"{"type":"event_msg","time":1704067200,"payload":{"type":"token_count","info":{"last_token_usage":{"input_tokens":1000,"output_tokens":100,"cached_input_tokens":null,"cache_read_input_tokens":7}}}}"#,
        r#"{"type":"event_msg","payload":{"type":"token_count","time":"1704067200000","info":{"time":"x","last_token_usage":null,"total_token_usage":{"input_tokens":5000}}}}"#,
        r#"{"type":"event_msg","payload":{"type":"token_count","info":{}}}"#,
        r#"{"type":"event_msg","payload":{"type":"other","info":{"last_token_usage":{"input_tokens":1}}}}"#,
        r#"{"type":"response","payload":{"type":"token_count","info":{"last_token_usage":{"input_tokens":1}}}}"#,
    ]);
    let (found, model) = scan_codex_lines(lines.as_bytes(), None, FALLBACK, &gpt_table());
    assert_eq!(
        found,
        vec![
            entry(
                Tool::Codex,
                "2024-01-01T00:00:00+00:00",
                "o9-test",
                (1000, 100, 7, 0),
                2_800_000_000
            ),
            entry(
                Tool::Codex,
                "2024-01-01T00:00:00+00:00",
                "o9-test",
                (1000, 100, 0, 0),
                2_800_000_000
            ),
        ]
    );
    assert_eq!(model, Some("o9-test".to_string()));
}

#[test]
fn model_is_carried_from_context_and_across_scans() {
    let event = r#"{"type":"event_msg","payload":{"type":"token_count","info":{"last_token_usage":{"input_tokens":1000000}}}}"#;
    let inline = r#"{"type":"event_msg","payload":{"type":"token_count","info":{"model_name":"gpt-5","last_token_usage":{"input_tokens":1000000}}}}"#;
    let context = r#"{"type":"turn_context","payload":{"info":{"metadata":{"model":"from-metadata"}},"model":"from-payload"}}"#;
    let empty_context = r#"{"type":"turn_context","payload":{"model":"  "}}"#;
    let table = gpt_table();

    let (found, model) = scan_codex_lines(event.as_bytes(), None, FALLBACK, &table);
    assert_eq!(found, vec![entry(Tool::Codex, FALLBACK, "gpt-5", (1_000_000, 0, 0, 0), 1_250_000_000_000)]);
    assert_eq!(model, None);

    let (found, model) =
        scan_codex_lines(event.as_bytes(), Some("o9-test".to_string()), FALLBACK, &table);
    assert_eq!(found, vec![entry(Tool::Codex, FALLBACK, "o9-test", (1_000_000, 0, 0, 0), 2_000_000_000_000)]);
    assert_eq!(model, Some("o9-test".to_string()));

    let lines = format!("{context}\n{event}\n{empty_context}\n{inline}\n{event}\n");
    let (found, model) = scan_codex_lines(lines.as_bytes(), None, FALLBACK, &table);
    assert_eq!(
        found,
        vec![
            entry(Tool::Codex, FALLBACK, "from-metadata", (1_000_000, 0, 0, 0), 0),
            entry(Tool::Codex, FALLBACK, "gpt-5", (1_000_000, 0, 0, 0), 1_250_000_000_000),
            entry(Tool::Codex, FALLBACK, "gpt-5", (1_000_000, 0, 0, 0), 1_250_000_000_000),
        ]
    );
    assert_eq!(model, Some("gpt-5".to_string()));
}

#[test]
fn model_paths_in_priority() {
    let doc = |members: Vec<(&str, Json)>| {
        Json::Object(members.into_iter().map(|(k, v)| (k.to_string(), v)).collect())
    };
    let text = |s: &str| Json::Text(s.to_string());
    let all = doc(vec![(
        "payload",
        doc(vec![
            ("model", text("d")),
            (
                "info",
                doc(vec![
                    ("metadata", doc(vec![("model", text("c"))])),
                    ("model_name", text("b")),
                    ("model", text(" a ")),
                ]),
            ),
        ]),
    )]);
    assert_eq!(extract_codex_model(&all), Some("a".to_string()));
    let blank_first = doc(vec![(
        "payload",
        doc(vec![
            ("model", text("d")),
            ("info", doc(vec![("model_name", text("b")), ("model", text("  "))])),
        ]),
    )]);
    assert_eq!(extract_codex_model(&blank_first), Some("b".to_string()));
    let metadata = doc(vec![(
        "payload",
        doc(vec![
            ("model", text("d")),
            ("info", doc(vec![("metadata", doc(vec![("model", text("c"))])), ("model", Json::Null)])),
        ]),
    )]);
    assert_eq!(extract_codex_model(&metadata), Some("c".to_string()));
    let payload_only = doc(vec![("payload", doc(vec![("model", text("d"))]))]);
    assert_eq!(extract_codex_model(&payload_only), Some("d".to_string()));
    let none = doc(vec![("payload", doc(vec![("metadata", doc(vec![("model", text("e"))]))]))]);
    assert_eq!(extract_codex_model(&none), None);
    assert_eq!(extract_codex_model(&Json::Null), None);
}

#[test]
fn message_file_with_reported_cost() {
    let file = r#"{"modelID":"gpt-5","cost":0.0123,"time":{"created":1704067200000},
                   "tokens":{"input":10,"output":20,"cache":{"read":30,"write":40}}}"#;
    assert_eq!(
        scan_opencode_file(file.as_bytes(), FALLBACK, &gpt_table()),
        FileOutcome::Entry(entry(
            Tool::OpenCode,
            "2024-01-01T00:00:00+00:00",
            "gpt-5",
            (10, 20, 30, 40),
            12_300_000_000
        ))
    );
}

#[test]
fn message_file_with_estimated_cost() {
    let file = r#"  {"modelID":"gpt-5","cost":0,"tokens":{"input":1000,"output":100,"cache":{"read":200}}} "#;
    assert_eq!(
        scan_opencode_file(file.as_bytes(), FALLBACK, &gpt_table()),
        FileOutcome::Entry(entry(
            Tool::OpenCode,
            FALLBACK,
            "gpt-5",
            (1000, 100, 200, 0),
            1_250_000_000 + 1_000_000_000 + 25_000_000
        ))
    );
    let unknown = r#"{"tokens":{"input":1000}}"#;
    assert_eq!(
        scan_opencode_file(unknown.as_bytes(), FALLBACK, &gpt_table()),
        FileOutcome::Entry(entry(Tool::OpenCode, FALLBACK, "unknown", (1000, 0, 0, 0), 0))
    );
}

#[test]
fn message_file_blank_or_unreadable() {
    let table = gpt_table();
    assert_eq!(
        scan_opencode_file(br#"{"modelID":"gpt-5","cost":0,"tokens":{"input":0}}"#, FALLBACK, &table),
        FileOutcome::Blank
    );
    assert_eq!(scan_opencode_file(b"[]", FALLBACK, &table), FileOutcome::Blank);
    assert_eq!(scan_opencode_file(b"", FALLBACK, &table), FileOutcome::Unreadable);
    assert_eq!(scan_opencode_file(b"{\"tokens\":", FALLBACK, &table), FileOutcome::Unreadable);
    assert_eq!(
        scan_opencode_file(b"{\"tokens\":{\"input\":1},\"x\":\"\xff\"}", FALLBACK, &table),
        FileOutcome::Unreadable
    );
    // Two documents in one file are no document.
    assert_eq!(
        scan_opencode_file(b"{\"tokens\":{\"input\":1}}\n{\"tokens\":{\"input\":1}}", FALLBACK, &table),
        FileOutcome::Unreadable
    );
}

#[test]
fn no_scanner_emits_a_blank_entry() {
    let table = gpt_table();
    let blank = |e: &UsageEntry| {
        e.input_tokens == 0
            && e.output_tokens == 0
            && e.cache_read_tokens == 0
            && e.cache_write_tokens == 0
            && e.cost == 0
    };
    let transcript = joined(&[
        r#"{"message":{"usage":{"input_tokens":0,"output_tokens":0,"cache_creation_input_tokens":0,"cache_read_input_tokens":0}},"costUSD":0.0}"#,
        r#"{"message":{"model":"gpt-5","usage":{}}}"#,
        r#"{"message":{"usage":{"input_tokens":1}}}"#,
    ]);
    let found = scan_claude_lines(transcript.as_bytes(), FALLBACK, &table);
    assert_eq!(found.len(), 1);
    assert!(!found.iter().any(blank));
    let events = joined(&[
        r#"{"type":"event_msg","payload":{"type":"token_count","info":{"last_token_usage":{"input_tokens":0,"output_tokens":0,"cached_input_tokens":0}}}}"#,
        r#"{"type":"event_msg","payload":{"type":"token_count","info":{"total_token_usage":{"input_tokens":0}}}}"#,
    ]);
    let (found, _) = scan_codex_lines(events.as_bytes(), None, FALLBACK, &table);
    assert_eq!(found, vec![]);
    assert_eq!(
        scan_opencode_file(
            br#"{"cost":0.0,"tokens":{"input":0,"output":0,"cache":{"read":0,"write":0}}}"#,
            FALLBACK,
            &table
        ),
        FileOutcome::Blank
    );
}
