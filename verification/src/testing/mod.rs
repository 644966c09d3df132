//! Stand-ins for stores, taps and summarizers, and sample values.
use vstd::prelude::*;

use crate::store::{ChunkKind, Score, SearchResult, SearchResultView, VectorDocument,
    VectorDocumentView};

pub mod mock_store;
pub mod mock_summarize;
pub mod mock_tap;

verus! {

/// The length of the vectors of sample documents.
pub const SAMPLE_DIMENSION: usize = 1024;

fn repeated(bits: u32, n: usize) -> (r: Vec<u32>)
    ensures
        r@ == Seq::new(n as nat, |i: int| bits),
{
    let mut v: Vec<u32> = Vec::new();
    let mut i: usize = 0;
    while i < n
        invariant
            i <= n,
            v@ == Seq::new(i as nat, |j: int| bits),
        decreases n - i,
    {
        v.push(bits);
        assert(v@ =~= Seq::new((i + 1) as nat, |j: int| bits));
        i += 1;
    }
    v
}

/// The id of a sample: the path, and what tells its chunks apart.
pub open spec fn sample_id_of(file_path: Seq<char>, part: Seq<char>) -> Seq<char> {
    "test-"@ + file_path + "-"@ + part
}

fn sample_id(file_path: &str, part: &str) -> (r: String)
    ensures
        r@ == sample_id_of(file_path@, part@),
{
    let mut s = "test-".to_string();
    s.append(file_path);
    s.append("-");
    s.append(part);
    s
}

/// The summary of a sample file.
pub open spec fn sample_summary_of(file_path: Seq<char>) -> Seq<char> {
    "Summary of "@ + file_path
}

fn sample_summary(file_path: &str) -> (r: String)
    ensures
        r@ == sample_summary_of(file_path@),
{
    let mut s = "Summary of ".to_string();
    s.append(file_path);
    s
}

/// The summary of a sample symbol.
pub open spec fn symbol_summary_of(
    file_path: Seq<char>,
    symbol_name: Seq<char>,
    symbol_kind: Seq<char>,
) -> Seq<char> {
    symbol_kind + " "@ + symbol_name + " in "@ + file_path
}

fn symbol_summary(file_path: &str, symbol_name: &str, symbol_kind: &str) -> (r: String)
    ensures
        r@ == symbol_summary_of(file_path@, symbol_name@, symbol_kind@),
{
    let mut s = symbol_kind.to_string();
    s.append(" ");
    s.append(symbol_name);
    s.append(" in ");
    s.append(file_path);
    s
}

/// A document of a file or a symbol, with usual values for the rest. Every
/// component of its vector is one tenth.
pub fn sample_document(file_path: &str, chunk_kind: ChunkKind) -> (r: VectorDocument)
    ensures
        r.deep_view() == (VectorDocumentView {
            id: sample_id_of(file_path@, chunk_kind.name()),
            vector: Seq::new(SAMPLE_DIMENSION as nat, |i: int| 0x3dcc_cccdu32),
            summary: sample_summary_of(file_path@),
            file_path: file_path@,
            chunk_kind,
            symbol_name: None,
            symbol_kind: None,
            start_line: None,
            end_line: None,
            language: Some("rust"@),
            content_hash: None,
            calls: None,
            called_by: None,
            last_used_at: None,
        }),
{
    let vector = repeated(0x3dcc_cccd, SAMPLE_DIMENSION);
    assert(vector.deep_view() =~= Seq::new(SAMPLE_DIMENSION as nat, |i: int| 0x3dcc_cccdu32));
    VectorDocument {
        id: sample_id(file_path, chunk_kind.as_str()),
        vector,
        summary: sample_summary(file_path),
        file_path: file_path.to_string(),
        chunk_kind,
        symbol_name: None,
        symbol_kind: None,
        start_line: None,
        end_line: None,
        language: Some("rust".to_string()),
        content_hash: None,
        calls: None,
        called_by: None,
        last_used_at: None,
    }
}

/// A document of a symbol, with its name and lines. Every component of its
/// vector is one fifth.
pub fn sample_symbol_document(
    file_path: &str,
    symbol_name: &str,
    symbol_kind: &str,
    start_line: u32,
    end_line: u32,
) -> (r: VectorDocument)
    ensures
        r.deep_view() == (VectorDocumentView {
            id: sample_id_of(file_path@, symbol_name@),
            vector: Seq::new(SAMPLE_DIMENSION as nat, |i: int| 0x3e4c_cccdu32),
            summary: symbol_summary_of(file_path@, symbol_name@, symbol_kind@),
            file_path: file_path@,
            chunk_kind: ChunkKind::Symbol,
            symbol_name: Some(symbol_name@),
            symbol_kind: Some(symbol_kind@),
            start_line: Some(start_line),
            end_line: Some(end_line),
            language: Some("rust"@),
            content_hash: None,
            calls: None,
            called_by: None,
            last_used_at: None,
        }),
{
    let vector = repeated(0x3e4c_cccd, SAMPLE_DIMENSION);
    assert(vector.deep_view() =~= Seq::new(SAMPLE_DIMENSION as nat, |i: int| 0x3e4c_cccdu32));
    VectorDocument {
        id: sample_id(file_path, symbol_name),
        vector,
        summary: symbol_summary(file_path, symbol_name, symbol_kind),
        file_path: file_path.to_string(),
        chunk_kind: ChunkKind::Symbol,
        symbol_name: Some(symbol_name.to_string()),
        symbol_kind: Some(symbol_kind.to_string()),
        start_line: Some(start_line),
        end_line: Some(end_line),
        language: Some("rust".to_string()),
        content_hash: None,
        calls: None,
        called_by: None,
        last_used_at: None,
    }
}

/// A hit of a file or a symbol, with usual values for the rest.
pub fn sample_result(file_path: &str, score: Score, chunk_kind: ChunkKind) -> (r: SearchResult)
    ensures
        r.deep_view() == (SearchResultView {
            id: sample_id_of(file_path@, chunk_kind.name()),
            score,
            file_path: file_path@,
            chunk_kind,
            symbol_name: None,
            symbol_kind: None,
            summary: sample_summary_of(file_path@),
            start_line: None,
            end_line: None,
            language: Some("rust"@),
            calls: None,
            called_by: None,
            last_used_at: None,
        }),
{
    SearchResult {
        id: sample_id(file_path, chunk_kind.as_str()),
        score,
        file_path: file_path.to_string(),
        chunk_kind,
        symbol_name: None,
        symbol_kind: None,
        summary: sample_summary(file_path),
        start_line: None,
        end_line: None,
        language: Some("rust".to_string()),
        calls: None,
        called_by: None,
        last_used_at: None,
    }
}

/// A hit of a symbol, with its name and lines.
pub fn sample_symbol_result(
    file_path: &str,
    symbol_name: &str,
    symbol_kind: &str,
    score: Score,
    lines: (u32, u32),
) -> (r: SearchResult)
    ensures
        r.deep_view() == (SearchResultView {
            id: sample_id_of(file_path@, symbol_name@),
            score,
            file_path: file_path@,
            chunk_kind: ChunkKind::Symbol,
            symbol_name: Some(symbol_name@),
            symbol_kind: Some(symbol_kind@),
            summary: symbol_summary_of(file_path@, symbol_name@, symbol_kind@),
            start_line: Some(lines.0),
            end_line: Some(lines.1),
            language: Some("rust"@),
            calls: None,
            called_by: None,
            last_used_at: None,
        }),
{
    SearchResult {
        id: sample_id(file_path, symbol_name),
        score,
        file_path: file_path.to_string(),
        chunk_kind: ChunkKind::Symbol,
        symbol_name: Some(symbol_name.to_string()),
        symbol_kind: Some(symbol_kind.to_string()),
        summary: symbol_summary(file_path, symbol_name, symbol_kind),
        start_line: Some(lines.0),
        end_line: Some(lines.1),
        language: Some("rust".to_string()),
        calls: None,
        called_by: None,
        last_used_at: None,
    }
}

} // verus!
