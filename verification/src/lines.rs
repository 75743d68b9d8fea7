//! Line-delimited JSON: the documents that a run of bytes holds, one per line.

use vstd::prelude::*;
use vstd::slice::slice_subrange;
use vstd::utf8::{decode_utf8, valid_utf8};
use crate::json::{from_str, parsed_json, Json};
use crate::text::{trim, trimmed};

verus! {

/// The byte that ends a line.
pub const NEWLINE: u8 = 10;

/// The document on one line: what the line, read as UTF-8 and trimmed, parses
/// to. `None` for a line that is not UTF-8, is blank, or is no JSON.
pub open spec fn line_document(line: Seq<u8>) -> Option<Json> {
    if valid_utf8(line) && trimmed(decode_utf8(line)).len() > 0 {
        parsed_json(trimmed(decode_utf8(line)))
    } else {
        None
    }
}

/// The document on the line `line`, as a sequence of one or none.
pub open spec fn line_documents(line: Seq<u8>) -> Seq<Json> {
    match line_document(line) {
        Some(document) => seq![document],
        None => Seq::empty(),
    }
}

/// The documents on the lines of `bytes` from the line that starts at `start`
/// on, where that line holds no newline before `at`.
pub open spec fn documents_from(bytes: Seq<u8>, start: int, at: int) -> Seq<Json>
    decreases bytes.len() - at,
{
    if at < 0 || at >= bytes.len() {
        line_documents(bytes.subrange(start, bytes.len() as int))
    } else if bytes[at] == NEWLINE {
        line_documents(bytes.subrange(start, at)) + documents_from(bytes, at + 1, at + 1)
    } else {
        documents_from(bytes, start, at + 1)
    }
}

/// The documents on the lines of `bytes`, in order. Lines end at a newline
/// byte or at the end of the bytes.
pub open spec fn documents(bytes: Seq<u8>) -> Seq<Json> {
    documents_from(bytes, 0, 0)
}

/// An empty line holds no document.
pub proof fn lemma_empty_line_has_no_document()
    ensures
        line_documents(Seq::<u8>::empty()) == Seq::<Json>::empty(),
{
    let none = Seq::<u8>::empty();
    assert(valid_utf8(none));
    assert(decode_utf8(none) =~= Seq::<char>::empty());
    assert(trimmed(decode_utf8(none)).len() == 0);
}

/// What follows a run of bytes holds the same documents as it holds alone.
pub proof fn lemma_documents_after(before: Seq<u8>, after: Seq<u8>, start: int, at: int)
    requires
        0 <= start <= at <= after.len(),
    ensures
        documents_from(before + after, before.len() + start, before.len() + at) == documents_from(
            after,
            start,
            at,
        ),
    decreases after.len() - at,
{
    let all = before + after;
    let n = before.len() as int;
    if at >= after.len() {
        assert(all.subrange(n + start, all.len() as int) =~= after.subrange(
            start,
            after.len() as int,
        ));
    } else {
        assert(all[n + at] == after[at]);
        if after[at] == NEWLINE {
            assert(all.subrange(n + start, n + at) =~= after.subrange(start, at));
            lemma_documents_after(before, after, at + 1, at + 1);
        } else {
            lemma_documents_after(before, after, start, at + 1);
        }
    }
}

/// Within bytes that end in a newline, what follows them adds its own
/// documents to theirs.
pub proof fn lemma_documents_before(before: Seq<u8>, after: Seq<u8>, start: int, at: int)
    requires
        before.len() > 0,
        before.last() == NEWLINE,
        0 <= start <= at <= before.len(),
        forall|i: int| start <= i < at ==> before[i] != NEWLINE,
    ensures
        documents_from(before + after, start, at) == documents_from(before, start, at) + documents(
            after,
        ),
    decreases before.len() - at,
{
    let all = before + after;
    if at == before.len() {
        // The last byte is a newline, so the line that starts here is empty.
        assert(start == at) by {
            if start < at {
                assert(before[at - 1] != NEWLINE);
            }
        }
        lemma_empty_line_has_no_document();
        assert(before.subrange(start, before.len() as int) =~= Seq::<u8>::empty());
        lemma_documents_after(before, after, 0, 0);
        assert(Seq::<Json>::empty() + documents(after) =~= documents(after));
    } else {
        assert(all[at] == before[at]);
        if before[at] == NEWLINE {
            assert(all.subrange(start, at) =~= before.subrange(start, at));
            lemma_documents_before(before, after, at + 1, at + 1);
            assert(line_documents(before.subrange(start, at)) + (documents_from(
                before,
                at + 1,
                at + 1,
            ) + documents(after)) =~= (line_documents(before.subrange(start, at)) + documents_from(
                before,
                at + 1,
                at + 1,
            )) + documents(after));
        } else {
            lemma_documents_before(before, after, start, at + 1);
        }
    }
}

/// Bytes that end in a newline, or are empty, and bytes that follow them hold
/// between them the documents of the first, then those of the second.
pub proof fn lemma_documents_of_parts(before: Seq<u8>, after: Seq<u8>)
    requires
        before.len() == 0 || before.last() == NEWLINE,
    ensures
        documents(before + after) == documents(before) + documents(after),
{
    if before.len() == 0 {
        assert(before + after =~= after);
        lemma_empty_line_has_no_document();
        assert(before.subrange(0, 0) =~= Seq::<u8>::empty());
        assert(Seq::<Json>::empty() + documents(after) =~= documents(after));
    } else {
        lemma_documents_before(before, after, 0, 0);
    }
}

/// `std::str::from_utf8`: the string that the bytes encode, where they are
/// valid UTF-8, and nothing where they are not.
#[verifier::external_body]
pub(crate) fn from_utf8(bytes: &[u8]) -> (text: Option<&str>)
    ensures
        text is Some == valid_utf8(bytes@),
        text is Some ==> text->0@ == decode_utf8(bytes@),
{
    core::str::from_utf8(bytes).ok()
}

/// Reads the document on one line.
pub fn read_line(line: &[u8]) -> (document: Option<Json>)
    ensures
        document == line_document(line@),
{
    match from_utf8(line) {
        Some(text) => {
            let text = trim(text);
            if text.unicode_len() == 0 {
                None
            } else {
                from_str(text)
            }
        },
        None => None,
    }
}

/// Reads the documents on the lines of `bytes`, leaving out every line that
/// holds none.
pub fn read_documents(bytes: &[u8]) -> (found: Vec<Json>)
    ensures
        found@ == documents(bytes@),
{
    let n = bytes.len();
    let mut found: Vec<Json> = Vec::new();
    let mut start: usize = 0;
    let mut at: usize = 0;
    while at < n
        invariant
            start <= at <= n == bytes@.len(),
            documents(bytes@) == found@ + documents_from(bytes@, start as int, at as int),
        decreases n - at,
    {
        if bytes[at] == NEWLINE {
            let ghost before = found@;
            let ghost rest = documents_from(bytes@, at + 1, at + 1);
            if let Some(document) = read_line(slice_subrange(bytes, start, at)) {
                found.push(document);
                assert(before.push(document) + rest =~= before + (seq![document] + rest));
            } else {
                assert(before + (Seq::<Json>::empty() + rest) =~= before + rest);
            }
            start = at + 1;
        }
        at += 1;
    }
    let ghost before = found@;
    if let Some(document) = read_line(slice_subrange(bytes, start, n)) {
        found.push(document);
    } else {
        assert(before + Seq::<Json>::empty() =~= before);
    }
    found
}

} // verus!
