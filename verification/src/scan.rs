//! The incremental scan coordinator: which part of each file a scan reads,
//! and what the scan leaves behind for the next one.

use vstd::prelude::*;
use vstd::slice::slice_subrange;
use vstd::string::StringExecFns;
use crate::claude::{claude_records, lemma_claude_scan_in_parts, scan_claude_lines};
use crate::codex::{codex_run, scan_codex_lines, starting_context};
use crate::entry::{append_entries, clone_entries, none_blank, records, UsageEntry, UsageRecord};
use crate::lines::{documents, NEWLINE};
use crate::opencode::{is_outcome_of, scan_opencode_file, FileOutcome};
use crate::pricing::{PricingInfo, PricingTable};
use crate::table::{index_of, lookup, removed, stored, Table};
use crate::timestamp::chars_of;

verus! {

/// What a scan does with one file.
#[derive(Clone, Copy, Debug, PartialEq, Eq, Structural)]
pub enum ReadPlan {
    /// Nothing: the file has not changed.
    Skip,
    /// Read from this byte offset to the end.
    ReadFrom(u64),
}

/// The plan for a line-delimited file of length `file_len` whose last scan
/// reached `previous`: nothing for an unchanged file, the new bytes of a
/// grown one, all of a shrunk one, and all of a file not scanned before.
pub open spec fn line_plan(previous: Option<u64>, file_len: u64) -> ReadPlan {
    match previous {
        Some(offset) => if file_len > offset {
            ReadPlan::ReadFrom(offset)
        } else if file_len == offset {
            ReadPlan::Skip
        } else {
            ReadPlan::ReadFrom(0)
        },
        None => ReadPlan::ReadFrom(0),
    }
}

/// The plan for a whole-file document of length `file_len` whose last scan
/// saw the length `previous`: nothing where the length is the same, all of
/// the file otherwise.
pub open spec fn whole_plan(previous: Option<u64>, file_len: u64) -> ReadPlan {
    if previous == Some(file_len) {
        ReadPlan::Skip
    } else {
        ReadPlan::ReadFrom(0)
    }
}

/// The bytes of `content` that `plan` reads, if any.
pub open spec fn bytes_read(plan: ReadPlan, content: Seq<u8>) -> Option<Seq<u8>> {
    match plan {
        ReadPlan::Skip => None,
        ReadPlan::ReadFrom(start) => Some(content.skip(start as int)),
    }
}

/// The offsets after the scan of a line-delimited file with the content
/// `content`: the end of the file where it was read, unchanged where it was
/// skipped.
pub open spec fn offsets_after(offsets: Seq<(Seq<char>, u64)>, path: Seq<char>, content: Seq<u8>) -> Seq<
    (Seq<char>, u64),
> {
    match line_plan(lookup(offsets, path), content.len() as u64) {
        ReadPlan::Skip => offsets,
        ReadPlan::ReadFrom(_) => stored(offsets, path, content.len() as u64),
    }
}

/// The bytes that the scan of a line-delimited file with the content
/// `content` reads, if any.
pub open spec fn scanned_bytes(offsets: Seq<(Seq<char>, u64)>, path: Seq<char>, content: Seq<u8>) -> Option<
    Seq<u8>,
> {
    bytes_read(line_plan(lookup(offsets, path), content.len() as u64), content)
}

/// The records that the scan of a transcript with the content `content`
/// emits.
pub open spec fn claude_file_records(
    offsets: Seq<(Seq<char>, u64)>,
    path: Seq<char>,
    content: Seq<u8>,
    fallback: Seq<char>,
    prices: Seq<(Seq<char>, PricingInfo)>,
) -> Seq<UsageRecord> {
    match scanned_bytes(offsets, path, content) {
        Some(bytes) => claude_records(documents(bytes), fallback, prices),
        None => Seq::empty(),
    }
}

/// The model names that a table of models holds, key by key.
pub open spec fn model_names(models: Seq<(Seq<char>, String)>) -> Seq<(Seq<char>, Seq<char>)> {
    models.map_values(|e: (Seq<char>, String)| (e.0, e.1@))
}

/// The model with which the scan of a Codex log from `start` begins: the
/// model that the last scan of the file left, where this scan goes on at the
/// offset which that scan reached; none where the file is read anew, be it
/// new or shrunk.
pub open spec fn carried_model(
    offsets: Seq<(Seq<char>, u64)>,
    models: Seq<(Seq<char>, Seq<char>)>,
    path: Seq<char>,
    start: u64,
) -> Option<Seq<char>> {
    if lookup(offsets, path) == Some(start) {
        lookup(models, path)
    } else {
        None
    }
}

/// The models after a scan of `path` that leaves the model `left`: that model
/// stored for the file, or nothing stored for it where the scan leaves none.
pub open spec fn models_with(
    models: Seq<(Seq<char>, Seq<char>)>,
    path: Seq<char>,
    left: Option<Seq<char>>,
) -> Seq<(Seq<char>, Seq<char>)> {
    match left {
        Some(model) => stored(models, path, model),
        None => removed(models, path),
    }
}

/// The records that the scan of a Codex log with the content `content`
/// emits, `models` being the model left by the last scan of each file.
pub open spec fn codex_file_records(
    offsets: Seq<(Seq<char>, u64)>,
    models: Seq<(Seq<char>, Seq<char>)>,
    path: Seq<char>,
    content: Seq<u8>,
    fallback: Seq<char>,
    prices: Seq<(Seq<char>, PricingInfo)>,
) -> Seq<UsageRecord> {
    match line_plan(lookup(offsets, path), content.len() as u64) {
        ReadPlan::ReadFrom(start) => codex_run(
            starting_context(carried_model(offsets, models, path, start)),
            documents(content.skip(start as int)),
            fallback,
            prices,
        ).1,
        ReadPlan::Skip => Seq::empty(),
    }
}

/// The models after the scan of a Codex log with the content `content`.
pub open spec fn models_after(
    offsets: Seq<(Seq<char>, u64)>,
    models: Seq<(Seq<char>, Seq<char>)>,
    path: Seq<char>,
    content: Seq<u8>,
    fallback: Seq<char>,
    prices: Seq<(Seq<char>, PricingInfo)>,
) -> Seq<(Seq<char>, Seq<char>)> {
    match line_plan(lookup(offsets, path), content.len() as u64) {
        ReadPlan::ReadFrom(start) => models_with(
            models,
            path,
            codex_run(
                starting_context(carried_model(offsets, models, path, start)),
                documents(content.skip(start as int)),
                fallback,
                prices,
            ).0.model,
        ),
        ReadPlan::Skip => models,
    }
}

/// Taking the names of a table of models changes neither where a key stands
/// nor, but for that, what is stored under it.
pub proof fn lemma_model_names(models: Seq<(Seq<char>, String)>, key: Seq<char>)
    ensures
        index_of(model_names(models), key) == index_of(models, key),
        lookup(model_names(models), key) == chars_of(lookup(models, key)),
    decreases models.len(),
{
    if models.len() > 0 {
        lemma_model_names(models.drop_last(), key);
        assert(model_names(models).drop_last() =~= model_names(models.drop_last()));
        crate::table::lemma_index_of(models, key);
    }
}

/// Storing a model and taking the names is storing the name.
pub proof fn lemma_model_names_stored(models: Seq<(Seq<char>, String)>, key: Seq<char>, model: String)
    ensures
        model_names(stored(models, key, model)) == stored(model_names(models), key, model@),
{
    lemma_model_names(models, key);
    crate::table::lemma_index_of(models, key);
    assert(model_names(stored(models, key, model)) =~= stored(model_names(models), key, model@));
}

/// Removing a model and taking the names is removing the name.
pub proof fn lemma_model_names_removed(models: Seq<(Seq<char>, String)>, key: Seq<char>)
    ensures
        model_names(removed(models, key)) == removed(model_names(models), key),
{
    lemma_model_names(models, key);
    crate::table::lemma_index_of(models, key);
    assert(model_names(removed(models, key)) =~= removed(model_names(models), key));
}

/// Decides what to read of a line-delimited file.
pub fn plan_lines(previous: Option<u64>, file_len: u64) -> (plan: ReadPlan)
    ensures
        plan == line_plan(previous, file_len),
        plan matches ReadPlan::ReadFrom(start) ==> start <= file_len,
{
    match previous {
        Some(offset) => if file_len > offset {
            ReadPlan::ReadFrom(offset)
        } else if file_len == offset {
            ReadPlan::Skip
        } else {
            ReadPlan::ReadFrom(0)
        },
        None => ReadPlan::ReadFrom(0),
    }
}

/// Decides what to read of a whole-file document.
pub fn plan_whole(previous: Option<u64>, file_len: u64) -> (plan: ReadPlan)
    ensures
        plan == whole_plan(previous, file_len),
{
    match previous {
        Some(len) => if len == file_len {
            ReadPlan::Skip
        } else {
            ReadPlan::ReadFrom(0)
        },
        None => ReadPlan::ReadFrom(0),
    }
}

/// The offset that the last scan of `path` reached, if there was one.
pub fn previous_offset(offsets: &Table<u64>, path: &str) -> (previous: Option<u64>)
    ensures
        previous == lookup(offsets@, path@),
{
    match offsets.get(path) {
        Some(offset) => Some(*offset),
        None => None,
    }
}

/// Takes what was read of a transcript into the scan: `bytes` are the bytes
/// from the planned offset to the end, `position` the offset reached. Returns
/// the entries found and records the position for the next scan.
pub fn scan_claude_incremental(
    offsets: &mut Table<u64>,
    path: &str,
    bytes: &[u8],
    position: u64,
    fallback_ts: &str,
    pricing: &PricingTable,
) -> (found: Vec<UsageEntry>)
    ensures
        records(found@) == claude_records(documents(bytes@), fallback_ts@, pricing@),
        none_blank(records(found@)),
        final(offsets)@ == stored(old(offsets)@, path@, position),
{
    let found = scan_claude_lines(bytes, fallback_ts, pricing);
    offsets.insert(String::from_str(path), position);
    found
}

/// Takes what was read of a Codex log into the scan: `bytes` are the bytes
/// from the offset `start` to the end, `position` the offset reached.
///
/// Where `start` is the offset that the last scan of the file reached, the
/// scan goes on with the model which that scan left. Where it is not, the
/// file is new or was cut short, and the scan begins without a model.
/// Returns the entries found; records the position and the model that the
/// scan leaves, and forgets the model of the file where it leaves none.
pub fn scan_codex_incremental(
    offsets: &mut Table<u64>,
    file_models: &mut Table<String>,
    path: &str,
    start: u64,
    bytes: &[u8],
    position: u64,
    fallback_ts: &str,
    pricing: &PricingTable,
) -> (found: Vec<UsageEntry>)
    ensures
        records(found@) == codex_run(
            starting_context(
                carried_model(old(offsets)@, model_names(old(file_models)@), path@, start),
            ),
            documents(bytes@),
            fallback_ts@,
            pricing@,
        ).1,
        none_blank(records(found@)),
        final(offsets)@ == stored(old(offsets)@, path@, position),
        model_names(final(file_models)@) == models_with(
            model_names(old(file_models)@),
            path@,
            codex_run(
                starting_context(
                    carried_model(old(offsets)@, model_names(old(file_models)@), path@, start),
                ),
                documents(bytes@),
                fallback_ts@,
                pricing@,
            ).0.model,
        ),
{
    proof {
        lemma_model_names(file_models@, path@);
    }
    let goes_on = match previous_offset(offsets, path) {
        Some(offset) => offset == start,
        None => false,
    };
    let carried = if goes_on {
        match file_models.get(path) {
            Some(model) => Some(model.clone()),
            None => None,
        }
    } else {
        None
    };
    let (found, model) = scan_codex_lines(bytes, carried, fallback_ts, pricing);
    offsets.insert(String::from_str(path), position);
    match model {
        Some(model) => {
            proof {
                lemma_model_names_stored(file_models@, path@, model);
            }
            file_models.insert(String::from_str(path), model);
        },
        None => {
            proof {
                lemma_model_names_removed(file_models@, path@);
            }
            file_models.remove(path);
        },
    }
    found
}

/// Takes the content of an OpenCode message file of length `file_len` into
/// the scan. A file that cannot be read as JSON leaves no trace; any other is
/// recorded with its length, so that it is not read again until its length
/// changes.
pub fn scan_opencode_incremental(
    seen_files: &mut Table<u64>,
    path: &str,
    file_len: u64,
    bytes: &[u8],
    fallback_ts: &str,
    pricing: &PricingTable,
) -> (outcome: FileOutcome)
    ensures
        is_outcome_of(outcome, bytes@, fallback_ts@, pricing@),
        outcome is Entry ==> !outcome->Entry_0@.is_blank(),
        final(seen_files)@ == if outcome is Unreadable {
            old(seen_files)@
        } else {
            stored(old(seen_files)@, path@, file_len)
        },
{
    let outcome = scan_opencode_file(bytes, fallback_ts, pricing);
    match &outcome {
        FileOutcome::Unreadable => {},
        _ => {
            seen_files.insert(String::from_str(path), file_len);
        },
    }
    outcome
}

/// The bytes of `content` from `start` on.
fn tail(content: &[u8], start: u64) -> (bytes: &[u8])
    requires
        start <= content@.len(),
    ensures
        bytes@ == content@.skip(start as int),
{
    slice_subrange(content, start as usize, content.len())
}

/// Scans a transcript given as a whole: plans by the file's length, reads
/// what the plan says, and records the end of the file.
pub fn scan_claude_file(
    offsets: &mut Table<u64>,
    path: &str,
    content: &[u8],
    fallback_ts: &str,
    pricing: &PricingTable,
) -> (found: Vec<UsageEntry>)
    ensures
        records(found@) == claude_file_records(
            old(offsets)@,
            path@,
            content@,
            fallback_ts@,
            pricing@,
        ),
        none_blank(records(found@)),
        final(offsets)@ == offsets_after(old(offsets)@, path@, content@),
{
    let file_len = content.len() as u64;
    match plan_lines(previous_offset(offsets, path), file_len) {
        ReadPlan::Skip => {
            let found: Vec<UsageEntry> = Vec::new();
            assert(records(found@) =~= Seq::empty());
            found
        },
        ReadPlan::ReadFrom(start) => scan_claude_incremental(
            offsets,
            path,
            tail(content, start),
            file_len,
            fallback_ts,
            pricing,
        ),
    }
}

/// Scans a Codex log given as a whole: plans by the file's length, reads
/// what the plan says, and records the end of the file and the model left.
pub fn scan_codex_file(
    offsets: &mut Table<u64>,
    file_models: &mut Table<String>,
    path: &str,
    content: &[u8],
    fallback_ts: &str,
    pricing: &PricingTable,
) -> (found: Vec<UsageEntry>)
    ensures
        records(found@) == codex_file_records(
            old(offsets)@,
            model_names(old(file_models)@),
            path@,
            content@,
            fallback_ts@,
            pricing@,
        ),
        none_blank(records(found@)),
        final(offsets)@ == offsets_after(old(offsets)@, path@, content@),
        model_names(final(file_models)@) == models_after(
            old(offsets)@,
            model_names(old(file_models)@),
            path@,
            content@,
            fallback_ts@,
            pricing@,
        ),
{
    let file_len = content.len() as u64;
    match plan_lines(previous_offset(offsets, path), file_len) {
        ReadPlan::Skip => {
            let found: Vec<UsageEntry> = Vec::new();
            assert(records(found@) =~= Seq::empty());
            found
        },
        ReadPlan::ReadFrom(start) => scan_codex_incremental(
            offsets,
            file_models,
            path,
            start,
            tail(content, start),
            file_len,
            fallback_ts,
            pricing,
        ),
    }
}

/// After a scan of a line-delimited file, a scan of the same file with bytes
/// appended reads the appended bytes and nothing else.
pub proof fn lemma_appended_bytes_read_alone(
    offsets: Seq<(Seq<char>, u64)>,
    path: Seq<char>,
    content: Seq<u8>,
    appended: Seq<u8>,
)
    requires
        appended.len() > 0,
        content.len() + appended.len() <= u64::MAX,
    ensures
        scanned_bytes(offsets_after(offsets, path, content), path, content + appended) == Some(
            appended,
        ),
{
    let after = offsets_after(offsets, path, content);
    crate::table::lemma_stored(offsets, path, content.len() as u64, path);
    assert(lookup(after, path) == Some(content.len() as u64));
    assert((content + appended).skip(content.len() as int) =~= appended);
    assert((content + appended).skip(0) =~= content + appended);
    if content.len() == 0 {
        assert(content + appended =~= appended);
    }
}

/// After a scan of a transcript, a scan of the same file with bytes appended
/// emits the records of the appended bytes, and none of those before them.
pub proof fn lemma_claude_append(
    offsets: Seq<(Seq<char>, u64)>,
    path: Seq<char>,
    content: Seq<u8>,
    appended: Seq<u8>,
    fallback: Seq<char>,
    prices: Seq<(Seq<char>, PricingInfo)>,
)
    requires
        appended.len() > 0,
        content.len() + appended.len() <= u64::MAX,
    ensures
        claude_file_records(
            offsets_after(offsets, path, content),
            path,
            content + appended,
            fallback,
            prices,
        ) == claude_records(documents(appended), fallback, prices),
{
    lemma_appended_bytes_read_alone(offsets, path, content, appended);
}

/// Two scans of a transcript, the first of a file not seen before that ends
/// at the end of a line, the second after bytes were appended, emit between
/// them what one scan of the grown file emits: nothing is lost and nothing is
/// emitted twice.
pub proof fn lemma_claude_scans_add_up(
    offsets: Seq<(Seq<char>, u64)>,
    path: Seq<char>,
    content: Seq<u8>,
    appended: Seq<u8>,
    fallback: Seq<char>,
    prices: Seq<(Seq<char>, PricingInfo)>,
)
    requires
        lookup(offsets, path) is None,
        content.len() == 0 || content.last() == NEWLINE,
        appended.len() > 0,
        content.len() + appended.len() <= u64::MAX,
    ensures
        claude_file_records(offsets, path, content, fallback, prices) + claude_file_records(
            offsets_after(offsets, path, content),
            path,
            content + appended,
            fallback,
            prices,
        ) == claude_records(documents(content + appended), fallback, prices),
{
    assert(content.skip(0) =~= content);
    lemma_claude_append(offsets, path, content, appended, fallback, prices);
    lemma_claude_scan_in_parts(content, appended, fallback, prices);
}

/// After a scan of a Codex log, a scan of the same log with bytes appended
/// emits the records of the appended bytes, read with the model that the
/// first scan left for the file.
pub proof fn lemma_codex_append(
    offsets: Seq<(Seq<char>, u64)>,
    models: Seq<(Seq<char>, Seq<char>)>,
    path: Seq<char>,
    content: Seq<u8>,
    appended: Seq<u8>,
    fallback: Seq<char>,
    prices: Seq<(Seq<char>, PricingInfo)>,
)
    requires
        appended.len() > 0,
        content.len() + appended.len() <= u64::MAX,
    ensures
        codex_file_records(
            offsets_after(offsets, path, content),
            models_after(offsets, models, path, content, fallback, prices),
            path,
            content + appended,
            fallback,
            prices,
        ) == codex_run(
            starting_context(
                lookup(models_after(offsets, models, path, content, fallback, prices), path),
            ),
            documents(appended),
            fallback,
            prices,
        ).1,
{
    lemma_appended_bytes_read_alone(offsets, path, content, appended);
    crate::table::lemma_stored(offsets, path, content.len() as u64, path);
    assert(lookup(offsets_after(offsets, path, content), path) == Some(content.len() as u64));
    assert((content + appended).skip(content.len() as int) =~= appended);
}

/// A Codex log that its path has not held before, or that is shorter than
/// the offset its last scan reached, is read from its start and without a
/// model, whatever model the file that stood there before has left.
pub proof fn lemma_codex_file_read_anew(
    offsets: Seq<(Seq<char>, u64)>,
    models: Seq<(Seq<char>, Seq<char>)>,
    path: Seq<char>,
    content: Seq<u8>,
    fallback: Seq<char>,
    prices: Seq<(Seq<char>, PricingInfo)>,
)
    requires
        content.len() <= u64::MAX,
        match lookup(offsets, path) {
            Some(offset) => content.len() < offset,
            None => true,
        },
    ensures
        codex_file_records(offsets, models, path, content, fallback, prices) == codex_run(
            starting_context(None),
            documents(content),
            fallback,
            prices,
        ).1,
{
    assert(content.skip(0) =~= content);
}

/// A line-delimited file that is shorter than the offset its last scan
/// reached is read again from its start, whatever was emitted before.
pub proof fn lemma_truncated_file_read_whole(
    offsets: Seq<(Seq<char>, u64)>,
    path: Seq<char>,
    content: Seq<u8>,
)
    requires
        lookup(offsets, path) is Some,
        content.len() < lookup(offsets, path)->0,
    ensures
        scanned_bytes(offsets, path, content) == Some(content),
        lookup(offsets_after(offsets, path, content), path) == Some(content.len() as u64),
{
    crate::table::lemma_stored(offsets, path, content.len() as u64, path);
    assert(content.skip(0) =~= content);
}

/// A line-delimited file that is as long as the offset its last scan reached
/// is not read, and the scan leaves the offsets as they were.
pub proof fn lemma_unchanged_file_skipped(
    offsets: Seq<(Seq<char>, u64)>,
    path: Seq<char>,
    content: Seq<u8>,
)
    requires
        lookup(offsets, path) == Some(content.len() as u64),
        content.len() <= u64::MAX,
    ensures
        scanned_bytes(offsets, path, content) is None,
        offsets_after(offsets, path, content) == offsets,
{
}

/// The state that incremental scans carry from one call to the next.
#[derive(Debug)]
pub struct ScanState {
    /// For each file scanned, the offset reached or the length seen.
    pub file_offsets: Table<u64>,
    /// For each Codex file scanned, the model that its last scan left.
    pub codex_file_models: Table<String>,
    /// Every entry emitted since the last full scan, in order.
    pub cached_entries: Vec<UsageEntry>,
}

impl ScanState {
    /// The state before any scan.
    pub fn new() -> (state: Self)
        ensures
            state.file_offsets@.len() == 0,
            state.codex_file_models@.len() == 0,
            state.cached_entries@.len() == 0,
    {
        ScanState {
            file_offsets: Table::new(),
            codex_file_models: Table::new(),
            cached_entries: Vec::new(),
        }
    }
}

/// Completes a full scan: joins the entries of the three tools, forgets every
/// offset and model, and keeps the joined entries as the cache. Returns the
/// joined entries.
pub fn scan_all_usage(
    state: &mut ScanState,
    claude: Vec<UsageEntry>,
    codex: Vec<UsageEntry>,
    opencode: Vec<UsageEntry>,
) -> (all: Vec<UsageEntry>)
    ensures
        records(all@) == records(claude@) + records(codex@) + records(opencode@),
        final(state).file_offsets@.len() == 0,
        final(state).codex_file_models@.len() == 0,
        records(final(state).cached_entries@) == records(all@),
{
    let mut all = claude;
    append_entries(&mut all, codex);
    append_entries(&mut all, opencode);
    state.file_offsets.clear();
    state.codex_file_models.clear();
    state.cached_entries = clone_entries(&all);
    all
}

/// Completes an incremental scan: adds the new entries of the three tools to
/// the cache and returns the cache, old entries first.
pub fn scan_all_usage_incremental(
    state: &mut ScanState,
    claude_new: Vec<UsageEntry>,
    codex_new: Vec<UsageEntry>,
    opencode_new: Vec<UsageEntry>,
) -> (all: Vec<UsageEntry>)
    ensures
        records(all@) == records(old(state).cached_entries@) + records(claude_new@) + records(
            codex_new@,
        ) + records(opencode_new@),
        records(final(state).cached_entries@) == records(all@),
        final(state).file_offsets == old(state).file_offsets,
        final(state).codex_file_models == old(state).codex_file_models,
{
    append_entries(&mut state.cached_entries, claude_new);
    append_entries(&mut state.cached_entries, codex_new);
    append_entries(&mut state.cached_entries, opencode_new);
    clone_entries(&state.cached_entries)
}

} // verus!
