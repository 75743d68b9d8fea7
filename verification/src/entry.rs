//! The usage record that every scanner emits.

use vstd::prelude::*;

verus! {

/// The tool whose log an entry was read from.
#[derive(Clone, Copy, Debug, PartialEq, Eq, Structural)]
pub enum Tool {
    Claude,
    Codex,
    OpenCode,
}

/// One observed token-usage event. `timestamp` is RFC 3339 in UTC wherever the
/// source gave a time that could be read; `cost` is in picodollars.
#[derive(Clone, Debug, PartialEq, Eq)]
pub struct UsageEntry {
    pub timestamp: String,
    pub tool: Tool,
    pub model: String,
    pub input_tokens: u64,
    pub output_tokens: u64,
    pub cache_read_tokens: u64,
    pub cache_write_tokens: u64,
    pub cost: u64,
}

/// A usage entry as a mathematical value.
pub struct UsageRecord {
    pub timestamp: Seq<char>,
    pub tool: Tool,
    pub model: Seq<char>,
    pub input_tokens: u64,
    pub output_tokens: u64,
    pub cache_read_tokens: u64,
    pub cache_write_tokens: u64,
    pub cost: u64,
}

impl UsageRecord {
    /// Whether the record carries no information: no tokens of any kind and
    /// no cost.
    pub open spec fn is_blank(self) -> bool {
        &&& self.input_tokens == 0
        &&& self.output_tokens == 0
        &&& self.cache_read_tokens == 0
        &&& self.cache_write_tokens == 0
        &&& self.cost == 0
    }
}

impl View for UsageEntry {
    type V = UsageRecord;

    open spec fn view(&self) -> UsageRecord {
        UsageRecord {
            timestamp: self.timestamp@,
            tool: self.tool,
            model: self.model@,
            input_tokens: self.input_tokens,
            output_tokens: self.output_tokens,
            cache_read_tokens: self.cache_read_tokens,
            cache_write_tokens: self.cache_write_tokens,
            cost: self.cost,
        }
    }
}

/// The records of a sequence of entries, in order.
pub open spec fn records(entries: Seq<UsageEntry>) -> Seq<UsageRecord> {
    entries.map_values(|e: UsageEntry| e@)
}

/// Whether no record of `found` is blank.
pub open spec fn none_blank(found: Seq<UsageRecord>) -> bool {
    forall|i: int| 0 <= i < found.len() ==> !(#[trigger] found[i]).is_blank()
}

impl UsageEntry {
    /// A copy of this entry.
    pub fn duplicate(&self) -> (copy: Self)
        ensures
            copy@ == self@,
    {
        UsageEntry {
            timestamp: self.timestamp.clone(),
            tool: self.tool,
            model: self.model.clone(),
            input_tokens: self.input_tokens,
            output_tokens: self.output_tokens,
            cache_read_tokens: self.cache_read_tokens,
            cache_write_tokens: self.cache_write_tokens,
            cost: self.cost,
        }
    }
}

/// A copy of `entries`.
pub fn clone_entries(entries: &Vec<UsageEntry>) -> (copy: Vec<UsageEntry>)
    ensures
        records(copy@) == records(entries@),
{
    let mut copy: Vec<UsageEntry> = Vec::new();
    let mut i: usize = 0;
    while i < entries.len()
        invariant
            i <= entries.len(),
            records(copy@) == records(entries@.take(i as int)),
        decreases entries.len() - i,
    {
        let ghost before = copy@;
        let entry = entries[i].duplicate();
        copy.push(entry);
        assert(records(before.push(entry)) =~= records(before).push(entry@));
        assert(records(entries@.take(i + 1)) =~= records(entries@.take(i as int)).push(
            entries@[i as int]@,
        ));
        i += 1;
    }
    assert(entries@.take(entries.len() as int) =~= entries@);
    copy
}

/// Moves the entries of `more` to the end of `all`.
pub fn append_entries(all: &mut Vec<UsageEntry>, more: Vec<UsageEntry>)
    ensures
        records(final(all)@) == records(old(all)@) + records(more@),
{
    let mut more = more;
    let ghost added = more@;
    let ghost before = all@;
    all.append(&mut more);
    assert(records(all@) =~= records(before) + records(added));
}

} // verus!
