//! The call graph between symbols: which definitions an unqualified call most
//! plausibly means, and who calls whom.
use vstd::hash_map::StringHashMap;
use vstd::prelude::*;

use crate::store::{ChunkKind, VectorDocument, VectorDocumentView};
use crate::text::{
    add_text, before_last, has_text, head_before, last_position, lemma_last_position_range, same,
    with_text,
};

verus! {

/// How many same-name candidates an unqualified call may resolve to before it
/// is treated as unresolvable and yields nothing.
pub const MAX_CALL_AMBIGUITY: usize = 3;

/// Past this many definitions, a bare name is a naming convention rather than
/// a particular function (`new`, `from`, `default`), and calls of it are
/// dropped before the scope rules run.
pub const UBIQUITY_LIMIT: usize = 8;

/// One resolved call: the document it leads to, and `path:name` of it.
pub struct CallEdge {
    pub target: usize,
    pub text: String,
}

/// What a [`CallEdge`] holds.
#[verifier::ext_equal]
pub struct CallEdgeView {
    pub target: int,
    pub text: Seq<char>,
}

impl DeepView for CallEdge {
    type V = CallEdgeView;

    open spec fn deep_view(&self) -> CallEdgeView {
        CallEdgeView { target: self.target as int, text: self.text@ }
    }
}

/// The directory of a path: what stands before its last `/`.
pub open spec fn directory(path: Seq<char>) -> Seq<char> {
    before_last(path, '/')
}

/// Directory portion of a repo-relative path, a rough proxy for "same module".
pub fn parent_dir(path: &str) -> (r: String)
    ensures
        r@ == directory(path@),
{
    head_before(path, '/')
}

/// Whether a document defines a symbol of that name.
pub open spec fn defines(d: VectorDocumentView, name: Seq<char>) -> bool {
    d.chunk_kind == ChunkKind::Symbol && d.symbol_name == Some(name)
}

/// The positions of the documents that define `name`, in order.
pub open spec fn definitions(docs: Seq<VectorDocumentView>, name: Seq<char>) -> Seq<int>
    decreases docs.len(),
{
    if docs.len() == 0 {
        Seq::<int>::empty()
    } else {
        let head = definitions(docs.drop_last(), name);
        if defines(docs.last(), name) {
            head.push(docs.len() - 1)
        } else {
            head
        }
    }
}

/// The candidates in the caller's own file.
pub open spec fn in_file(
    docs: Seq<VectorDocumentView>,
    cands: Seq<int>,
    file: Seq<char>,
) -> Seq<int> {
    cands.filter(|t: int| docs[t].file_path == file)
}

/// The candidates in the caller's own directory.
pub open spec fn in_dir(
    docs: Seq<VectorDocumentView>,
    cands: Seq<int>,
    file: Seq<char>,
) -> Seq<int> {
    cands.filter(|t: int| directory(docs[t].file_path) == directory(file))
}

/// The candidates plausibly meant by a call in `file`, nearest scope first:
/// none for a name past [`UBIQUITY_LIMIT`]; else those in the same file; else
/// those in the same directory, unless they are a crowd; else all of them,
/// unless they are a crowd.
pub open spec fn narrowed(
    docs: Seq<VectorDocumentView>,
    cands: Seq<int>,
    file: Seq<char>,
) -> Seq<int> {
    if cands.len() > UBIQUITY_LIMIT {
        Seq::<int>::empty()
    } else if in_file(docs, cands, file).len() > 0 {
        in_file(docs, cands, file)
    } else if 0 < in_dir(docs, cands, file).len() <= MAX_CALL_AMBIGUITY {
        in_dir(docs, cands, file)
    } else if cands.len() <= MAX_CALL_AMBIGUITY {
        cands
    } else {
        Seq::<int>::empty()
    }
}

/// The definitions that a call of `name` in `file` leads to.
pub open spec fn targets(
    docs: Seq<VectorDocumentView>,
    file: Seq<char>,
    name: Seq<char>,
) -> Seq<int> {
    narrowed(docs, definitions(docs, name), file)
}

/// The edges of one call: `path:name` of each of its targets.
pub open spec fn edges_of_call(
    docs: Seq<VectorDocumentView>,
    file: Seq<char>,
    name: Seq<char>,
) -> Seq<CallEdgeView> {
    targets(docs, file, name).map_values(
        |t: int| CallEdgeView { target: t, text: docs[t].file_path + ":"@ + name },
    )
}

/// The edges of a list of calls, one call after the other.
pub open spec fn edges_of_calls(
    docs: Seq<VectorDocumentView>,
    file: Seq<char>,
    calls: Seq<Seq<char>>,
) -> Seq<CallEdgeView>
    decreases calls.len(),
{
    if calls.len() == 0 {
        Seq::<CallEdgeView>::empty()
    } else {
        edges_of_calls(docs, file, calls.drop_last()) + edges_of_call(docs, file, calls.last())
    }
}

/// The texts of a list of edges.
pub open spec fn edge_texts(edges: Seq<CallEdgeView>) -> Seq<Seq<char>> {
    edges.map_values(|e: CallEdgeView| e.text)
}

/// `edges` with `e` at its end, unless an edge of the same text is there.
pub open spec fn with_edge(edges: Seq<CallEdgeView>, e: CallEdgeView) -> Seq<CallEdgeView> {
    if edge_texts(edges).contains(e.text) {
        edges
    } else {
        edges.push(e)
    }
}

/// The edges in order, of those with the same text the first only.
pub open spec fn first_edges(edges: Seq<CallEdgeView>) -> Seq<CallEdgeView>
    decreases edges.len(),
{
    if edges.len() == 0 {
        edges
    } else {
        with_edge(first_edges(edges.drop_last()), edges.last())
    }
}

/// Whether a document's calls are resolved.
pub open spec fn is_caller(d: VectorDocumentView) -> bool {
    d.chunk_kind == ChunkKind::Symbol && d.calls is Some
}

/// The edges of the `i`-th document.
pub open spec fn edges_from(docs: Seq<VectorDocumentView>, i: int) -> Seq<CallEdgeView> {
    first_edges(edges_of_calls(docs, docs[i].file_path, docs[i].calls->0))
}

/// Whether one of the edges leads to `t`.
pub open spec fn reaches(edges: Seq<CallEdgeView>, t: int) -> bool {
    exists|j: int| 0 <= j < edges.len() && (#[trigger] edges[j]).target == t
}

/// How a caller is named in `called_by`: `path:name`.
pub open spec fn caller_ref(d: VectorDocumentView) -> Seq<char> {
    d.file_path + ":"@ + match d.symbol_name {
        Some(n) => n,
        None => "?"@,
    }
}

/// Whether the `i`-th document calls the `t`-th, other than itself.
pub open spec fn calls_into(docs: Seq<VectorDocumentView>, i: int, t: int) -> bool {
    i != t && is_caller(docs[i]) && reaches(edges_from(docs, i), t)
}

/// The callers of the `t`-th document among the first `k`, each named once.
pub open spec fn callers(docs: Seq<VectorDocumentView>, t: int, k: int) -> Seq<Seq<char>>
    decreases k,
{
    if k <= 0 {
        Seq::<Seq<char>>::empty()
    } else {
        let before = callers(docs, t, k - 1);
        if calls_into(docs, k - 1, t) {
            with_text(before, caller_ref(docs[k - 1]))
        } else {
            before
        }
    }
}

/// The `i`-th document once the call graph is resolved.
pub open spec fn resolved(docs: Seq<VectorDocumentView>, i: int) -> VectorDocumentView {
    VectorDocumentView {
        calls: if is_caller(docs[i]) {
            Some(edge_texts(edges_from(docs, i)))
        } else {
            docs[i].calls
        },
        called_by: if docs[i].chunk_kind == ChunkKind::Symbol {
            Some(callers(docs, i, docs.len() as int))
        } else {
            docs[i].called_by
        },
        ..docs[i]
    }
}

/// The positions in a list, as mathematical integers.
pub open spec fn positions(v: Seq<usize>) -> Seq<int> {
    v.map_values(|i: usize| i as int)
}

proof fn lemma_definitions_in_range(docs: Seq<VectorDocumentView>, name: Seq<char>)
    ensures
        forall|k: int|
            0 <= k < definitions(docs, name).len() ==> 0 <= #[trigger] definitions(docs, name)[k]
                < docs.len() && defines(docs[definitions(docs, name)[k]], name),
    decreases docs.len(),
{
    if docs.len() > 0 {
        let head = definitions(docs.drop_last(), name);
        lemma_definitions_in_range(docs.drop_last(), name);
        assert forall|k: int| 0 <= k < definitions(docs, name).len() implies 0
            <= #[trigger] definitions(docs, name)[k] < docs.len() && defines(
            docs[definitions(docs, name)[k]],
            name,
        ) by {
            if k < head.len() {
                assert(definitions(docs, name)[k] == head[k]);
                assert(docs.drop_last()[head[k]] == docs[head[k]]);
            }
        }
    }
}

/// Narrows the same-name candidates for one call site down to the ones
/// plausibly meant. Empty when the name is too ambiguous to resolve at all.
fn narrow_candidates(
    documents: &Vec<VectorDocument>,
    candidates: &Vec<usize>,
    caller_file: &str,
) -> (r: Vec<usize>)
    requires
        forall|k: int| 0 <= k < candidates@.len() ==> candidates@[k] < documents@.len(),
    ensures
        positions(r@) == narrowed(documents.deep_view(), positions(candidates@), caller_file@),
        forall|k: int| 0 <= k < r@.len() ==> r@[k] < documents@.len(),
{
    let ghost docs = documents.deep_view();
    let ghost cands = positions(candidates@);
    if candidates.len() > UBIQUITY_LIMIT {
        let r: Vec<usize> = Vec::new();
        assert(positions(r@) =~= Seq::<int>::empty());
        return r;
    }
    let dir = parent_dir(caller_file);
    let ghost pf = |t: int| docs[t].file_path == caller_file@;
    let ghost pd = |t: int| directory(docs[t].file_path) == directory(caller_file@);
    let mut same_file: Vec<usize> = Vec::new();
    let mut same_dir: Vec<usize> = Vec::new();
    let mut k: usize = 0;
    proof {
        reveal(Seq::filter);
        assert(cands.take(0) =~= Seq::<int>::empty());
        assert(positions(same_file@) =~= cands.take(0).filter(pf));
        assert(positions(same_dir@) =~= cands.take(0).filter(pd));
    }
    while k < candidates.len()
        invariant
            k <= candidates@.len(),
            docs == documents.deep_view(),
            cands == positions(candidates@),
            dir@ == directory(caller_file@),
            pf == (|t: int| docs[t].file_path == caller_file@),
            pd == (|t: int| directory(docs[t].file_path) == directory(caller_file@)),
            forall|j: int| 0 <= j < candidates@.len() ==> candidates@[j] < documents@.len(),
            forall|j: int| 0 <= j < same_file@.len() ==> same_file@[j] < documents@.len(),
            forall|j: int| 0 <= j < same_dir@.len() ==> same_dir@[j] < documents@.len(),
            positions(same_file@) == cands.take(k as int).filter(pf),
            positions(same_dir@) == cands.take(k as int).filter(pd),
        decreases candidates@.len() - k,
    {
        let t: usize = candidates[k];
        let file = documents[t].file_path.as_str();
        let ghost sf = same_file@;
        let ghost sd = same_dir@;
        proof {
            reveal(Seq::filter);
            assert(cands.take(k + 1).drop_last() =~= cands.take(k as int));
            assert(cands.take(k + 1).last() == t);
            assert(docs[t as int].file_path == file@);
        }
        if same(file, caller_file) {
            same_file.push(t);
            assert(positions(same_file@) =~= positions(sf).push(t as int));
        }
        if same(parent_dir(file).as_str(), dir.as_str()) {
            same_dir.push(t);
            assert(positions(same_dir@) =~= positions(sd).push(t as int));
        }
        k += 1;
    }
    assert(cands.take(k as int) =~= cands);
    if same_file.len() > 0 {
        return same_file;
    }
    if same_dir.len() > 0 && same_dir.len() <= MAX_CALL_AMBIGUITY {
        return same_dir;
    }
    if candidates.len() <= MAX_CALL_AMBIGUITY {
        let r = candidates.clone();
        assert(r@ =~= candidates@);
        return r;
    }
    let r: Vec<usize> = Vec::new();
    assert(positions(r@) =~= Seq::<int>::empty());
    r
}

/// Whether the table lists the definitions of every name.
spec fn table_ok(table: Map<Seq<char>, Vec<usize>>, docs: Seq<VectorDocumentView>) -> bool {
    forall|name: Seq<char>|
        #![trigger table.contains_key(name)]
        #![trigger definitions(docs, name)]
        if table.contains_key(name) {
            positions(table[name]@) == definitions(docs, name)
        } else {
            definitions(docs, name).len() == 0
        }
}

/// Lists the definitions of every name.
fn symbol_table(documents: &Vec<VectorDocument>) -> (table: StringHashMap<Vec<usize>>)
    ensures
        table_ok(table@, documents.deep_view()),
{
    let mut table: StringHashMap<Vec<usize>> = StringHashMap::new();
    let mut i: usize = 0;
    let ghost docs = documents.deep_view();
    while i < documents.len()
        invariant
            i <= documents@.len(),
            docs == documents.deep_view(),
            table_ok(table@, docs.take(i as int)),
        decreases documents@.len() - i,
    {
        let doc = &documents[i];
        let ghost before = table@;
        assert(docs.take(i + 1).drop_last() =~= docs.take(i as int));
        assert(docs.take(i + 1).last() == doc.deep_view());
        let ghost mut named: Option<Seq<char>> = None;
        if doc.chunk_kind == ChunkKind::Symbol {
            if let Some(name) = &doc.symbol_name {
                let mut list: Vec<usize> = match table.get(name.as_str()) {
                    Some(l) => l.clone(),
                    None => Vec::new(),
                };
                assert(positions(list@) =~= definitions(docs.take(i as int), name@));
                let ghost l0 = positions(list@);
                list.push(i);
                assert(positions(list@) =~= l0.push(i as int));
                table.insert(name.clone(), list);
                proof {
                    named = Some(name@);
                }
            }
        }
        assert(table_ok(table@, docs.take(i + 1))) by {
            assert forall|name: Seq<char>|
                if #[trigger] table@.contains_key(name) {
                    positions(table@[name]@) == definitions(docs.take(i + 1), name)
                } else {
                    definitions(docs.take(i + 1), name).len() == 0
                } by {
                if named != Some(name) {
                    assert(!defines(doc.deep_view(), name));
                    assert(table@.contains_key(name) == before.contains_key(name));
                    let d = definitions(docs.take(i as int), name);
                    assert(definitions(docs.take(i + 1), name) == d);
                }
            }
        }
        i += 1;
    }
    assert(docs.take(i as int) =~= docs);
    table
}

/// The distinct edges of one caller.
fn caller_edges(
    documents: &Vec<VectorDocument>,
    table: &StringHashMap<Vec<usize>>,
    caller_file: &str,
    calls: &Vec<String>,
) -> (edges: Vec<CallEdge>)
    requires
        table_ok(table@, documents.deep_view()),
    ensures
        edges.deep_view() == first_edges(
            edges_of_calls(documents.deep_view(), caller_file@, calls.deep_view()),
        ),
        forall|k: int| 0 <= k < edges@.len() ==> edges@[k].target < documents@.len(),
{
    let ghost docs = documents.deep_view();
    let ghost names = calls.deep_view();
    let mut edges: Vec<CallEdge> = Vec::new();
    let mut texts: Vec<String> = Vec::new();
    let mut c: usize = 0;
    proof {
        assert(names.take(0) =~= Seq::<Seq<char>>::empty());
        assert(edges.deep_view() =~= Seq::<CallEdgeView>::empty());
        assert(texts.deep_view() =~= edge_texts(edges.deep_view()));
    }
    while c < calls.len()
        invariant
            c <= calls@.len(),
            docs == documents.deep_view(),
            names == calls.deep_view(),
            table_ok(table@, docs),
            edges.deep_view() == first_edges(
                edges_of_calls(docs, caller_file@, names.take(c as int)),
            ),
            texts.deep_view() == edge_texts(edges.deep_view()),
            forall|k: int| 0 <= k < edges@.len() ==> edges@[k].target < documents@.len(),
        decreases calls@.len() - c,
    {
        let name = calls[c].as_str();
        let ghost before = edges_of_calls(docs, caller_file@, names.take(c as int));
        let ghost more = edges_of_call(docs, caller_file@, name@);
        proof {
            assert(names.take(c + 1).drop_last() =~= names.take(c as int));
            assert(names.take(c + 1).last() == name@);
            lemma_definitions_in_range(docs, name@);
        }
        let empty: Vec<usize> = Vec::new();
        let candidates: &Vec<usize> = match table.get(name) {
            Some(l) => l,
            None => &empty,
        };
        proof {
            assert(positions(candidates@) =~= definitions(docs, name@));
            assert forall|k: int| 0 <= k < candidates@.len() implies candidates@[k]
                < documents@.len() by {
                assert(positions(candidates@)[k] == candidates@[k]);
            }
        }
        let found = narrow_candidates(documents, candidates, caller_file);
        let mut k: usize = 0;
        assert(before + more.take(0) =~= before);
        while k < found.len()
            invariant
                k <= found@.len(),
                docs == documents.deep_view(),
                positions(found@) == targets(docs, caller_file@, name@),
                more == edges_of_call(docs, caller_file@, name@),
                edges.deep_view() == first_edges(before + more.take(k as int)),
                texts.deep_view() == edge_texts(edges.deep_view()),
                forall|j: int| 0 <= j < found@.len() ==> found@[j] < documents@.len(),
                forall|j: int| 0 <= j < edges@.len() ==> edges@[j].target < documents@.len(),
            decreases found@.len() - k,
        {
            let t: usize = found[k];
            let mut text = documents[t].file_path.clone();
            text.append(":");
            text.append(name);
            let ghost e = CallEdgeView { target: t as int, text: text@ };
            proof {
                assert(positions(found@)[k as int] == t);
                assert(more[k as int] == e);
                assert((before + more.take(k + 1)).drop_last() =~= before + more.take(k as int));
                assert((before + more.take(k + 1)).last() == e);
            }
            if !has_text(&texts, text.as_str()) {
                let ghost ev = edges.deep_view();
                let ghost tv = texts.deep_view();
                texts.push(text.clone());
                edges.push(CallEdge { target: t, text });
                assert(edges.deep_view() =~= ev.push(e));
                assert(texts.deep_view() =~= tv.push(e.text));
                assert(edge_texts(ev.push(e)) =~= edge_texts(ev).push(e.text));
            }
            k += 1;
        }
        assert(more.take(k as int) =~= more);
        c += 1;
    }
    assert(names.take(c as int) =~= names);
    edges
}

/// `list` with `x` added where `edges` lead to `t`.
spec fn added(list: Seq<Seq<char>>, hit: bool, x: Seq<char>) -> Seq<Seq<char>> {
    if hit {
        with_text(list, x)
    } else {
        list
    }
}

/// Resolves every symbol's calls to `path:name` of the definitions plausibly
/// meant, and derives each symbol's callers from that same resolution, so that
/// the two directions of the graph cannot disagree.
pub fn resolve_call_edges(documents: &mut Vec<VectorDocument>)
    ensures
        final(documents).deep_view() == Seq::new(
            old(documents)@.len(),
            |i: int| resolved(old(documents).deep_view(), i),
        ),
{
    let ghost docs = documents.deep_view();
    let n: usize = documents.len();
    let mut out_calls: Vec<Option<Vec<String>>> = Vec::new();
    let mut in_calls: Vec<Vec<String>> = Vec::new();
    let mut i: usize = 0;
    while i < n
        invariant
            i <= n,
            in_calls@.len() == i,
            forall|t: int| 0 <= t < i ==> (
                #[trigger] in_calls@[t]
            ).deep_view() == callers(docs, t, 0),
        decreases n - i,
    {
        let empty: Vec<String> = Vec::new();
        assert(empty.deep_view() =~= Seq::<Seq<char>>::empty());
        in_calls.push(empty);
        i += 1;
    }
    let table = symbol_table(documents);
    i = 0;
    while i < n
        invariant
            i <= n,
            n == documents@.len(),
            docs == documents.deep_view(),
            table_ok(table@, docs),
            in_calls@.len() == n,
            out_calls@.len() == i,
            forall|t: int|
                0 <= t < i ==> (#[trigger] out_calls@[t]).deep_view() == resolved(docs, t).calls,
            forall|t: int|
                0 <= t < n ==> (#[trigger] in_calls@[t]).deep_view() == callers(docs, t, i as int),
        decreases n - i,
    {
        let doc = &documents[i];
        assert(docs[i as int] == doc.deep_view());
        if doc.chunk_kind == ChunkKind::Symbol && doc.calls.is_some() {
            let calls = doc.calls.as_ref().unwrap();
            let mut who = doc.file_path.clone();
            who.append(":");
            match &doc.symbol_name {
                Some(name) => who.append(name.as_str()),
                None => who.append("?"),
            }
            let ghost x = who@;
            assert(x == caller_ref(docs[i as int]));
            let edges = caller_edges(documents, &table, doc.file_path.as_str(), calls);
            let ghost ev = edges.deep_view();
            let mut texts: Vec<String> = Vec::new();
            let mut k: usize = 0;
            assert(texts.deep_view() =~= edge_texts(ev.take(0)));
            while k < edges.len()
                invariant
                    k <= edges@.len(),
                    i < n,
                    n == documents@.len(),
                    ev == edges.deep_view(),
                    x == who@,
                    in_calls@.len() == n,
                    forall|j: int| 0 <= j < edges@.len() ==> edges@[j].target < n,
                    texts.deep_view() == edge_texts(ev.take(k as int)),
                    forall|t: int|
                        0 <= t < n ==> (#[trigger] in_calls@[t]).deep_view() == added(
                            callers(docs, t, i as int),
                            i != t && reaches(ev.take(k as int), t),
                            x,
                        ),
                decreases edges@.len() - k,
            {
                let ghost before = in_calls@;
                let ghost tv = texts.deep_view();
                let target: usize = edges[k].target;
                let ghost e = ev[k as int];
                assert(e.target == target);
                texts.push(edges[k].text.clone());
                proof {
                    assert(texts.deep_view() =~= tv.push(e.text));
                    assert(ev.take(k + 1) =~= ev.take(k as int).push(e));
                    assert(edge_texts(ev.take(k + 1)) =~= tv.push(e.text));
                }
                if target != i {
                    let mut list = in_calls[target].clone();
                    assert(list.deep_view() == before[target as int].deep_view());
                    add_text(&mut list, who.as_str());
                    in_calls.set(target, list);
                }
                proof {
                    assert forall|t: int| 0 <= t < n implies (#[trigger] in_calls@[t]).deep_view()
                        == added(
                        callers(docs, t, i as int),
                        i != t && reaches(ev.take(k + 1), t),
                        x,
                    ) by {
                        let old_hit = reaches(ev.take(k as int), t);
                        let new_hit = reaches(ev.take(k + 1), t);
                        assert(new_hit == (old_hit || t == target)) by {
                            if old_hit {
                                let j = choose|j: int|
                                    0 <= j < k && (#[trigger] ev.take(k as int)[j]).target == t;
                                assert(ev.take(k + 1)[j].target == t);
                            }
                            if t == target {
                                assert(ev.take(k + 1)[k as int].target == t);
                            }
                            if new_hit && t != target {
                                let j = choose|j: int|
                                    0 <= j < k + 1 && (#[trigger] ev.take(k + 1)[j]).target == t;
                                assert(ev.take(k as int)[j].target == t);
                            }
                        }
                        let base = callers(docs, t, i as int);
                        crate::text::lemma_with_text(base, x);
                        if t != target {
                            assert(in_calls@[t] == before[t]);
                        }
                    }
                }
                k += 1;
            }
            assert(ev.take(k as int) =~= ev);
            assert(texts.deep_view() == edge_texts(edges_from(docs, i as int)));
            out_calls.push(Some(texts));
        } else {
            let c = doc.calls.clone();
            out_calls.push(c);
        }
        i += 1;
    }
    i = 0;
    while i < n
        invariant
            i <= n,
            n == documents@.len(),
            n == docs.len(),
            in_calls@.len() == n,
            out_calls@.len() == n,
            forall|t: int|
                0 <= t < n ==> (#[trigger] out_calls@[t]).deep_view() == resolved(docs, t).calls,
            forall|t: int|
                0 <= t < n ==> (#[trigger] in_calls@[t]).deep_view() == callers(docs, t, n as int),
            forall|t: int|
                0 <= t < i ==> (#[trigger] documents@[t]).deep_view() == resolved(docs, t),
            forall|t: int|
                i <= t < n ==> (#[trigger] documents@[t]).deep_view() == docs[t],
        decreases n - i,
    {
        let mut doc = documents[i].clone();
        assert(doc.deep_view() == docs[i as int]);
        doc.calls = out_calls[i].clone();
        if doc.chunk_kind == ChunkKind::Symbol {
            doc.called_by = Some(in_calls[i].clone());
        }
        assert(doc.deep_view() =~= resolved(docs, i as int));
        documents.set(i, doc);
        i += 1;
    }
}

proof fn lemma_first_edges(edges: Seq<CallEdgeView>)
    ensures
        edge_texts(first_edges(edges)).no_duplicates(),
        forall|e: CallEdgeView| #[trigger] first_edges(edges).contains(e) ==> edges.contains(e),
    decreases edges.len(),
{
    if edges.len() > 0 {
        let head = edges.drop_last();
        let kept = first_edges(head);
        lemma_first_edges(head);
        let w = with_edge(kept, edges.last());
        if !edge_texts(kept).contains(edges.last().text) {
            assert(edge_texts(w) =~= edge_texts(kept).push(edges.last().text));
        }
        assert forall|e: CallEdgeView| w.contains(e) implies edges.contains(e) by {
            let j = choose|j: int| 0 <= j < w.len() && w[j] == e;
            if j < kept.len() {
                assert(kept.contains(e));
                let m = choose|m: int| 0 <= m < head.len() && head[m] == e;
                assert(edges[m] == e);
            } else {
                assert(edges[edges.len() - 1] == e);
            }
        }
    }
}

proof fn lemma_edges_of_calls(
    docs: Seq<VectorDocumentView>,
    file: Seq<char>,
    calls: Seq<Seq<char>>,
    e: CallEdgeView,
) -> (name: Seq<char>)
    requires
        edges_of_calls(docs, file, calls).contains(e),
    ensures
        calls.contains(name),
        edges_of_call(docs, file, name).contains(e),
    decreases calls.len(),
{
    let head = edges_of_calls(docs, file, calls.drop_last());
    let more = edges_of_call(docs, file, calls.last());
    let j = choose|j: int| 0 <= j < (head + more).len() && (head + more)[j] == e;
    if j < head.len() {
        assert(head[j] == e);
        let name = lemma_edges_of_calls(docs, file, calls.drop_last(), e);
        let m = choose|m: int| 0 <= m < calls.drop_last().len() && calls.drop_last()[m] == name;
        assert(calls[m] == name);
        name
    } else {
        assert(more[j - head.len()] == e);
        assert(calls[calls.len() - 1] == calls.last());
        calls.last()
    }
}

proof fn lemma_narrowed_keeps(
    docs: Seq<VectorDocumentView>,
    cands: Seq<int>,
    file: Seq<char>,
    t: int,
)
    requires
        narrowed(docs, cands, file).contains(t),
    ensures
        cands.contains(t),
{
    let pf = |t: int| docs[t].file_path == file;
    let pd = |t: int| directory(docs[t].file_path) == directory(file);
    if cands.filter(pf).contains(t) {
        cands.lemma_filter_contains_rev(pf, t);
    }
    if cands.filter(pd).contains(t) {
        cands.lemma_filter_contains_rev(pd, t);
    }
}

/// Every resolved edge is a real one: it names, as `path:name`, a symbol
/// document that defines one of the names the caller calls, and it leads there.
pub proof fn law_edges_lead_to_definitions(docs: Seq<VectorDocumentView>, i: int, k: int)
    requires
        0 <= i < docs.len(),
        is_caller(docs[i]),
        0 <= k < edges_from(docs, i).len(),
    ensures
        ({
            let e = edges_from(docs, i)[k];
            &&& resolved(docs, i).calls == Some(edge_texts(edges_from(docs, i)))
            &&& 0 <= e.target < docs.len()
            &&& exists|name: Seq<char>|
                #![trigger defines(docs[e.target], name)]
                docs[i].calls->0.contains(name) && defines(docs[e.target], name) && e.text
                    == docs[e.target].file_path + ":"@ + name
        }),
{
    let e = edges_from(docs, i)[k];
    let all = edges_of_calls(docs, docs[i].file_path, docs[i].calls->0);
    lemma_first_edges(all);
    assert(first_edges(all).contains(e));
    let name = lemma_edges_of_calls(docs, docs[i].file_path, docs[i].calls->0, e);
    let of_call = edges_of_call(docs, docs[i].file_path, name);
    let j = choose|j: int| 0 <= j < of_call.len() && of_call[j] == e;
    let ts = targets(docs, docs[i].file_path, name);
    assert(ts[j] == e.target);
    assert(ts.contains(e.target));
    lemma_narrowed_keeps(docs, definitions(docs, name), docs[i].file_path, e.target);
    let d = definitions(docs, name);
    let m = choose|m: int| 0 <= m < d.len() && d[m] == e.target;
    lemma_definitions_in_range(docs, name);
    assert(d[m] == e.target);
    assert(defines(docs[e.target], name));
}

proof fn lemma_callers(docs: Seq<VectorDocumentView>, t: int, k: int)
    requires
        0 <= k,
    ensures
        callers(docs, t, k).no_duplicates(),
        forall|x: Seq<char>|
            callers(docs, t, k).contains(x) <==> exists|i: int|
                0 <= i < k && #[trigger] calls_into(docs, i, t) && caller_ref(docs[i]) == x,
    decreases k,
{
    if k > 0 {
        lemma_callers(docs, t, k - 1);
        let before = callers(docs, t, k - 1);
        let x0 = caller_ref(docs[k - 1]);
        crate::text::lemma_with_text(before, x0);
        assert forall|x: Seq<char>|
            callers(docs, t, k).contains(x) <==> exists|i: int|
                0 <= i < k && #[trigger] calls_into(docs, i, t) && caller_ref(docs[i]) == x by {
            let now = callers(docs, t, k);
            if now.contains(x) {
                if before.contains(x) {
                    let i = choose|i: int|
                        0 <= i < k - 1 && #[trigger] calls_into(docs, i, t) && caller_ref(docs[i])
                            == x;
                    assert(0 <= i < k && calls_into(docs, i, t));
                } else {
                    assert(calls_into(docs, k - 1, t) && x == x0);
                }
            }
            if exists|i: int|
                0 <= i < k && #[trigger] calls_into(docs, i, t) && caller_ref(docs[i]) == x {
                let i = choose|i: int|
                    0 <= i < k && #[trigger] calls_into(docs, i, t) && caller_ref(docs[i]) == x;
                if i < k - 1 {
                    assert(before.contains(x));
                }
            }
        }
    }
}

/// The two directions of the call graph agree: a symbol's `called_by` holds
/// exactly the names of the other symbols with an edge to it.
pub proof fn law_both_directions_agree(docs: Seq<VectorDocumentView>, t: int, x: Seq<char>)
    requires
        0 <= t < docs.len(),
        docs[t].chunk_kind == ChunkKind::Symbol,
    ensures
        resolved(docs, t).called_by is Some,
        resolved(docs, t).called_by->0.contains(x) <==> exists|i: int|
            0 <= i < docs.len() && i != t && is_caller(docs[i]) && #[trigger] reaches(
                edges_from(docs, i),
                t,
            ) && caller_ref(docs[i]) == x,
{
    lemma_callers(docs, t, docs.len() as int);
    if exists|i: int|
        0 <= i < docs.len() && i != t && is_caller(docs[i]) && #[trigger] reaches(
            edges_from(docs, i),
            t,
        ) && caller_ref(docs[i]) == x {
        let i = choose|i: int|
            0 <= i < docs.len() && i != t && is_caller(docs[i]) && #[trigger] reaches(
                edges_from(docs, i),
                t,
            ) && caller_ref(docs[i]) == x;
        assert(calls_into(docs, i, t));
    }
}

/// No edge and no caller is listed twice.
pub proof fn law_edges_are_listed_once(docs: Seq<VectorDocumentView>, i: int)
    requires
        0 <= i < docs.len(),
        docs[i].chunk_kind == ChunkKind::Symbol,
    ensures
        is_caller(docs[i]) ==> resolved(docs, i).calls->0.no_duplicates(),
        resolved(docs, i).called_by->0.no_duplicates(),
{
    lemma_callers(docs, i, docs.len() as int);
    if is_caller(docs[i]) {
        lemma_first_edges(edges_of_calls(docs, docs[i].file_path, docs[i].calls->0));
    }
}

/// Resolving leaves whole-file documents as they are, and of a symbol changes
/// nothing but its calls and its callers.
pub proof fn law_resolution_touches_only_the_graph(docs: Seq<VectorDocumentView>, i: int)
    requires
        0 <= i < docs.len(),
    ensures
        docs[i].chunk_kind == ChunkKind::File ==> resolved(docs, i) == docs[i],
        resolved(docs, i) == (VectorDocumentView {
            calls: resolved(docs, i).calls,
            called_by: resolved(docs, i).called_by,
            ..docs[i]
        }),
{
}

/// A name with more definitions than [`UBIQUITY_LIMIT`] resolves to nothing,
/// wherever it is called from, even beside one of its definitions.
pub proof fn law_ubiquitous_names_are_dropped(
    docs: Seq<VectorDocumentView>,
    file: Seq<char>,
    name: Seq<char>,
)
    requires
        definitions(docs, name).len() > UBIQUITY_LIMIT,
    ensures
        edges_of_call(docs, file, name).len() == 0,
{
}

/// A call beside a definition of its name leads to that file only.
pub proof fn law_same_file_wins(
    docs: Seq<VectorDocumentView>,
    file: Seq<char>,
    name: Seq<char>,
    t: int,
)
    requires
        definitions(docs, name).len() <= UBIQUITY_LIMIT,
        definitions(docs, name).contains(t),
        docs[t].file_path == file,
    ensures
        targets(docs, file, name).contains(t),
        forall|u: int| targets(docs, file, name).contains(u) ==> docs[u].file_path == file,
{
    let cands = definitions(docs, name);
    let p = |t: int| docs[t].file_path == file;
    cands.lemma_filter_contains(p, choose|j: int| 0 <= j < cands.len() && cands[j] == t);
    let j = choose|j: int| 0 <= j < cands.len() && cands[j] == t;
    assert(p(cands[j]));
    assert(in_file(docs, cands, file).contains(t));
    assert forall|u: int| targets(docs, file, name).contains(u) implies docs[u].file_path
        == file by {
        let m = choose|m: int| 0 <= m < cands.filter(p).len() && cands.filter(p)[m] == u;
        cands.lemma_filter_pred(p, m);
    }
}

/// Whether a list holds, each once, the documents that define a name.
pub open spec fn are_definitions(
    docs: Seq<VectorDocumentView>,
    name: Seq<char>,
    all: Seq<int>,
) -> bool {
    &&& all.no_duplicates()
    &&& forall|t: int| #[trigger]
        all.contains(t) <==> 0 <= t < docs.len() && docs[t].chunk_kind == ChunkKind::Symbol
            && docs[t].symbol_name == Some(name)
}

/// Whether a list holds, each once, those of the definitions that lie in the
/// directory of a file: up to the last slash the paths are the same, or neither
/// has one.
pub open spec fn are_near(
    docs: Seq<VectorDocumentView>,
    all: Seq<int>,
    file: Seq<char>,
    near: Seq<int>,
) -> bool {
    &&& near.no_duplicates()
    &&& forall|t: int| #[trigger]
        near.contains(t) <==> all.contains(t) && parent_dir_of(docs[t].file_path) == parent_dir_of(
            file,
        )
}

/// The part of a path before its last slash, or nothing.
pub open spec fn parent_dir_of(path: Seq<char>) -> Seq<char>
    decreases path.len(),
{
    if path.len() == 0 {
        path
    } else if path.last() == '/' {
        path.drop_last()
    } else {
        parent_dir_of(path.drop_last())
    }
}

proof fn lemma_directory(path: Seq<char>)
    ensures
        directory(path) == parent_dir_of(path),
    decreases path.len(),
{
    lemma_last_position_range(path, '/');
    if path.len() == 0 {
        assert(directory(path) =~= path);
    } else {
        let head = path.drop_last();
        lemma_directory(head);
        lemma_last_position_range(head, '/');
        if path.last() != '/' {
            match last_position(head, '/') {
                Some(i) => {
                    assert(path.take(i) =~= head.take(i));
                },
                None => {},
            }
        } else {
            assert(path.take(path.len() - 1) =~= head);
        }
    }
}

proof fn lemma_definitions_are_all(docs: Seq<VectorDocumentView>, name: Seq<char>)
    ensures
        are_definitions(docs, name, definitions(docs, name)),
    decreases docs.len(),
{
    let all = definitions(docs, name);
    lemma_definitions_in_range(docs, name);
    if docs.len() > 0 {
        let before = docs.drop_last();
        let head = definitions(before, name);
        lemma_definitions_are_all(before, name);
        lemma_definitions_in_range(before, name);
        assert forall|t: int| 0 <= t < docs.len() && docs[t].chunk_kind == ChunkKind::Symbol
            && docs[t].symbol_name == Some(name) implies #[trigger] all.contains(t) by {
            if t == docs.len() - 1 {
                assert(all[head.len() as int] == t);
            } else {
                assert(before[t] == docs[t]);
                assert(head.contains(t));
                let k = choose|k: int| 0 <= k < head.len() && head[k] == t;
                assert(all[k] == t);
            }
        }
    }
    assert forall|t: int| #[trigger] all.contains(t) implies 0 <= t < docs.len()
        && docs[t].chunk_kind == ChunkKind::Symbol && docs[t].symbol_name == Some(name) by {
        let k = choose|k: int| 0 <= k < all.len() && all[k] == t;
        assert(defines(docs[all[k]], name));
    }
}

proof fn lemma_same_count(a: Seq<int>, b: Seq<int>)
    requires
        a.no_duplicates(),
        b.no_duplicates(),
        forall|t: int| #[trigger] a.contains(t) <==> b.contains(t),
    ensures
        a.len() == b.len(),
{
    a.unique_seq_to_set();
    b.unique_seq_to_set();
    assert(a.to_set() =~= b.to_set()) by {
        assert forall|t: int| a.to_set().contains(t) <==> b.to_set().contains(t) by {
            assert(a.contains(t) <==> b.contains(t));
        }
    }
}

proof fn lemma_filtered(cands: Seq<int>, p: spec_fn(int) -> bool)
    requires
        cands.no_duplicates(),
    ensures
        cands.filter(p).no_duplicates(),
        forall|t: int| #[trigger] cands.filter(p).contains(t) <==> cands.contains(t) && p(t),
    decreases cands.len(),
{
    reveal(Seq::filter);
    if cands.len() > 0 {
        let head = cands.drop_last();
        lemma_filtered(head, p);
        let f = cands.filter(p);
        let g = head.filter(p);
        assert forall|t: int| #[trigger] f.contains(t) <==> cands.contains(t) && p(t) by {
            assert(g.contains(t) <==> head.contains(t) && p(t));
            if f.contains(t) {
                let k = choose|k: int| 0 <= k < f.len() && f[k] == t;
                if k < g.len() {
                    assert(g[k] == t);
                    let m = choose|m: int| 0 <= m < head.len() && head[m] == t;
                    assert(cands[m] == t);
                } else {
                    assert(cands[cands.len() - 1] == t);
                }
            }
            if cands.contains(t) && p(t) {
                let m = choose|m: int| 0 <= m < cands.len() && cands[m] == t;
                if m < head.len() {
                    assert(head[m] == t);
                    let k = choose|k: int| 0 <= k < g.len() && g[k] == t;
                    assert(f[k] == t);
                } else {
                    assert(f[f.len() - 1] == t);
                }
            }
        }
        if p(cands.last()) && g.contains(cands.last()) {
            let m = choose|m: int| 0 <= m < head.len() && head[m] == cands.last();
            assert(cands[m] == cands[cands.len() - 1]);
        }
    }
}

/// What a call leads to, of all the definitions of its name and those near the
/// caller: nothing where the name is ubiquitous; else, where the caller's own
/// file defines it, the definitions there and no others; else, where the
/// directory has some but no crowd of them, those and no others; else every
/// definition, unless they are a crowd.
pub proof fn law_calls_lead_to_the_nearest_definitions(
    docs: Seq<VectorDocumentView>,
    file: Seq<char>,
    name: Seq<char>,
    all: Seq<int>,
    near: Seq<int>,
)
    requires
        are_definitions(docs, name, all),
        are_near(docs, all, file, near),
    ensures
        ({
            let ts = targets(docs, file, name);
            let beside = exists|t: int| #[trigger] all.contains(t) && docs[t].file_path == file;
            &&& ts.no_duplicates()
            &&& all.len() > UBIQUITY_LIMIT ==> ts.len() == 0
            &&& all.len() <= UBIQUITY_LIMIT && beside ==> forall|t: int| #[trigger]
                ts.contains(t) <==> all.contains(t) && docs[t].file_path == file
            &&& all.len() <= UBIQUITY_LIMIT && !beside && 1 <= near.len() <= MAX_CALL_AMBIGUITY
                ==> forall|t: int| #[trigger] ts.contains(t) <==> near.contains(t)
            &&& all.len() <= MAX_CALL_AMBIGUITY && !beside && near.len() == 0 ==> forall|t: int|
                #[trigger] ts.contains(t) <==> all.contains(t)
            &&& all.len() > MAX_CALL_AMBIGUITY && !beside && (near.len() == 0 || near.len()
                > MAX_CALL_AMBIGUITY) ==> ts.len() == 0
        }),
{
    let cands = definitions(docs, name);
    lemma_definitions_are_all(docs, name);
    assert forall|t: int| #[trigger] cands.contains(t) <==> all.contains(t) by {}
    lemma_same_count(cands, all);
    let pf = |t: int| docs[t].file_path == file;
    let pd = |t: int| directory(docs[t].file_path) == directory(file);
    lemma_filtered(cands, pf);
    lemma_filtered(cands, pd);
    let own = cands.filter(pf);
    let dir = cands.filter(pd);
    lemma_directory(file);
    assert forall|t: int| #[trigger] dir.contains(t) <==> near.contains(t) by {
        lemma_directory(docs[t].file_path);
        assert(cands.contains(t) <==> all.contains(t));
    }
    lemma_same_count(dir, near);
    assert forall|t: int| #[trigger] own.contains(t) <==> all.contains(t) && docs[t].file_path
        == file by {
        assert(cands.contains(t) <==> all.contains(t));
    }
    let beside = exists|t: int| #[trigger] all.contains(t) && docs[t].file_path == file;
    if own.len() > 0 {
        assert(own.contains(own[0]));
    }
    if beside {
        let t = choose|t: int| #[trigger] all.contains(t) && docs[t].file_path == file;
        assert(own.contains(t));
    }
}

/// A name with one definition always leads to it, wherever it is called.
pub proof fn law_a_unique_definition_is_found(
    docs: Seq<VectorDocumentView>,
    file: Seq<char>,
    name: Seq<char>,
    t: int,
)
    requires
        are_definitions(docs, name, seq![t]),
    ensures
        targets(docs, file, name) == seq![t],
{
    let all = seq![t];
    assert(all[0] == t);
    assert(all.contains(t));
    assert forall|u: int| all.contains(u) implies u == t by {}
    let here = docs[t].file_path;
    let near = if parent_dir_of(here) == parent_dir_of(file) {
        all
    } else {
        Seq::<int>::empty()
    };
    law_calls_lead_to_the_nearest_definitions(docs, file, name, all, near);
    let ts = targets(docs, file, name);
    assert(ts.contains(t));
    assert forall|u: int| #[trigger] ts.contains(u) implies u == t by {
        assert(all.contains(u));
    }
    lemma_same_count(ts, all);
    assert(ts.contains(ts[0]));
    assert(ts =~= all);
}

proof fn lemma_edges_of_calls_hold(
    docs: Seq<VectorDocumentView>,
    file: Seq<char>,
    calls: Seq<Seq<char>>,
    name: Seq<char>,
    e: CallEdgeView,
)
    requires
        calls.contains(name),
        edges_of_call(docs, file, name).contains(e),
    ensures
        edges_of_calls(docs, file, calls).contains(e),
    decreases calls.len(),
{
    let head = edges_of_calls(docs, file, calls.drop_last());
    let more = edges_of_call(docs, file, calls.last());
    let m = choose|m: int| 0 <= m < calls.len() && calls[m] == name;
    if m < calls.len() - 1 {
        assert(calls.drop_last()[m] == name);
        lemma_edges_of_calls_hold(docs, file, calls.drop_last(), name, e);
        let j = choose|j: int| 0 <= j < head.len() && head[j] == e;
        assert((head + more)[j] == e);
    } else {
        let j = choose|j: int| 0 <= j < more.len() && more[j] == e;
        assert((head + more)[head.len() + j] == e);
    }
}

proof fn lemma_first_edges_hold(edges: Seq<CallEdgeView>, e: CallEdgeView)
    requires
        edges.contains(e),
    ensures
        edge_texts(first_edges(edges)).contains(e.text),
    decreases edges.len(),
{
    let head = edges.drop_last();
    let kept = first_edges(head);
    let w = with_edge(kept, edges.last());
    let m = choose|m: int| 0 <= m < edges.len() && edges[m] == e;
    if m < edges.len() - 1 {
        assert(head[m] == e);
        lemma_first_edges_hold(head, e);
        let j = choose|j: int| 0 <= j < kept.len() && edge_texts(kept)[j] == e.text;
        assert(edge_texts(w)[j] == e.text);
    } else if !edge_texts(kept).contains(e.text) {
        assert(edge_texts(w)[kept.len() as int] == e.text);
    }
}

/// A symbol's resolved calls are, as `path:name`, the definitions that its calls
/// lead to: each of them, and nothing else.
pub proof fn law_resolved_calls(docs: Seq<VectorDocumentView>, i: int, x: Seq<char>)
    requires
        0 <= i < docs.len(),
        docs[i].chunk_kind == ChunkKind::Symbol,
        docs[i].calls is Some,
    ensures
        resolved(docs, i).calls is Some,
        resolved(docs, i).calls->0.contains(x) <==> exists|name: Seq<char>, t: int|
            {
                &&& docs[i].calls->0.contains(name)
                &&& #[trigger] targets(docs, docs[i].file_path, name).contains(t)
                &&& x == docs[t].file_path + ":"@ + name
            },
{
    let file = docs[i].file_path;
    let calls = docs[i].calls->0;
    let all = edges_of_calls(docs, file, calls);
    let kept = edges_from(docs, i);
    lemma_first_edges(all);
    if edge_texts(kept).contains(x) {
        let k = choose|k: int| 0 <= k < kept.len() && edge_texts(kept)[k] == x;
        let e = kept[k];
        assert(kept.contains(e));
        let name = lemma_edges_of_calls(docs, file, calls, e);
        let of_call = edges_of_call(docs, file, name);
        let j = choose|j: int| 0 <= j < of_call.len() && of_call[j] == e;
        let ts = targets(docs, file, name);
        assert(ts[j] == e.target);
        assert(targets(docs, file, name).contains(e.target));
    }
    if exists|name: Seq<char>, t: int|
        {
            &&& calls.contains(name)
            &&& #[trigger] targets(docs, file, name).contains(t)
            &&& x == docs[t].file_path + ":"@ + name
        } {
        let (name, t) = choose|name: Seq<char>, t: int|
            {
                &&& calls.contains(name)
                &&& #[trigger] targets(docs, file, name).contains(t)
                &&& x == docs[t].file_path + ":"@ + name
            };
        let ts = targets(docs, file, name);
        let j = choose|j: int| 0 <= j < ts.len() && ts[j] == t;
        let e = edges_of_call(docs, file, name)[j];
        assert(edges_of_call(docs, file, name).contains(e));
        lemma_edges_of_calls_hold(docs, file, calls, name, e);
        lemma_first_edges_hold(all, e);
        assert(e.text == x);
    }
}

/// A symbol that no other shares its `path:name` with is called by exactly the
/// other symbols whose resolved calls hold it, each given as its own `path:name`.
pub proof fn law_callers_are_those_whose_calls_hold_it(
    docs: Seq<VectorDocumentView>,
    t: int,
    name: Seq<char>,
    x: Seq<char>,
)
    requires
        0 <= t < docs.len(),
        docs[t].chunk_kind == ChunkKind::Symbol,
        docs[t].symbol_name == Some(name),
        forall|u: int|
            0 <= u < docs.len() && u != t && (#[trigger] docs[u]).symbol_name is Some
                ==> docs[u].file_path + ":"@ + docs[u].symbol_name->0 != docs[t].file_path + ":"@
                + name,
    ensures
        resolved(docs, t).called_by is Some,
        resolved(docs, t).called_by->0.contains(x) <==> exists|i: int|
            {
                &&& 0 <= i < docs.len()
                &&& i != t
                &&& docs[i].chunk_kind == ChunkKind::Symbol
                &&& docs[i].calls is Some
                &&& (#[trigger] resolved(docs, i)).calls->0.contains(
                    docs[t].file_path + ":"@ + name,
                )
                &&& x == docs[i].file_path + ":"@ + match docs[i].symbol_name {
                    Some(n) => n,
                    None => "?"@,
                }
            },
{
    let text = docs[t].file_path + ":"@ + name;
    law_both_directions_agree(docs, t, x);
    assert forall|i: int| 0 <= i < docs.len() && docs[i].chunk_kind == ChunkKind::Symbol
        && docs[i].calls is Some implies (reaches(edges_from(docs, i), t) <==> (#[trigger] resolved(
        docs,
        i,
    )).calls->0.contains(text)) by {
        let kept = edges_from(docs, i);
        let texts = edge_texts(kept);
        if reaches(kept, t) {
            let k = choose|k: int| 0 <= k < kept.len() && (#[trigger] kept[k]).target == t;
            law_edges_lead_to_definitions(docs, i, k);
            assert(texts[k] == text);
        }
        if texts.contains(text) {
            let k = choose|k: int| 0 <= k < texts.len() && texts[k] == text;
            law_edges_lead_to_definitions(docs, i, k);
            let u = kept[k].target;
            assert(docs[u].symbol_name is Some);
            assert(u == t);
        }
    }
    if resolved(docs, t).called_by->0.contains(x) {
        let i = choose|i: int|
            0 <= i < docs.len() && i != t && is_caller(docs[i]) && #[trigger] reaches(
                edges_from(docs, i),
                t,
            ) && caller_ref(docs[i]) == x;
        assert(resolved(docs, i).calls->0.contains(text));
    }
}

} // verus!
