//! Extraction of imports, symbols and doc comments from a syntax tree.
use vstd::prelude::*;

use crate::bytes::{
    char_at, is_boundary, lemma_text_is_a_stretch, stands_at, text_between, Source,
};
use crate::chunk::comments::{
    clean_doc_comment, clean_python_docstring, documents, ends_in_blank_line, has_blank_end,
    is_doc_comment, last_identifier_segment, last_scope, last_segment, prose_of, python_prose,
};
use crate::chunk::languages::{config_of, get_config, has_kind, LanguageConfig, LanguageConfigView};
use crate::chunk::syntax::{
    child_by_field_name, child_with_field, children, children_from, children_of, end_of, feeds,
    field_of, grammar_error, is_addressable, lemma_prev_sibling, parse, parsed, places,
    prev_sibling, prev_sibling_of, rows_count_feeds, subtree_end, with_child_field, with_field,
    TreeNode, TreeNodeView,
};
use crate::chunk::{ChunkError, Chunker, FileChunks, FileChunksView, Import, ImportView, SymbolChunk,
    SymbolChunkView};
use crate::text::{
    after_last, dedup, distinct, has_prefix, has_suffix, is_white, join, joined, last_position,
    law_first_position, law_last_position, lemma_distinct, lemma_joined_holds, lemma_part_of_part,
    lemma_tail_is_part, lemma_trimmed_end_white, lemma_trimmed_is_part, lines, lines_of, occurs,
    occurs_at, pieces, position, same, trim, trim_end, trimmed, trimmed_end,
};

verus! {

/// The text of a node.
pub open spec fn node_text(s: Seq<char>, n: Seq<TreeNodeView>, i: int) -> Option<Seq<char>> {
    text_between(s, n[i].start_byte as int, n[i].end_byte as int)
}

/// Whether a node only wraps a declaration.
pub open spec fn is_wrapper(kind: Seq<char>) -> bool {
    kind == "export_statement"@ || kind == "decorated_definition"@
}

/// The normalized kind of a node.
pub open spec fn kind_of(t: Seq<char>) -> Seq<char> {
    if t == "function_declaration"@ || t == "function_definition"@ || t == "function_item"@ {
        "function"@
    } else if t == "method_declaration"@ || t == "method_definition"@ {
        "method"@
    } else if t == "struct_item"@ || t == "struct_specifier"@ || t == "struct_declaration"@ {
        "struct"@
    } else if t == "enum_item"@ || t == "enum_specifier"@ || t == "enum_declaration"@ {
        "enum"@
    } else if t == "trait_item"@ {
        "trait"@
    } else if t == "interface_declaration"@ {
        "interface"@
    } else if t == "class_declaration"@ || t == "class_specifier"@ || t == "class_definition"@ {
        "class"@
    } else if t == "type_declaration"@ || t == "type_alias_declaration"@ || t == "type_item"@ {
        "type"@
    } else if t == "const_item"@ || t == "const_declaration"@ {
        "const"@
    } else if t == "mod_item"@ {
        "module"@
    } else if t == "namespace_definition"@ {
        "namespace"@
    } else if t == "impl_item"@ {
        "impl"@
    } else if t == "constructor_declaration"@ {
        "constructor"@
    } else if t == "var_declaration"@ || t == "lexical_declaration"@ {
        "var"@
    } else if t == "decorated_definition"@ {
        "function"@
    } else if t == "export_statement"@ {
        "export"@
    } else if t == "static_item"@ {
        "static"@
    } else if t == "declaration"@ {
        "declaration"@
    } else {
        t
    }
}

/// The normalized kind of a node.
pub fn normalize_kind(t: &str) -> (r: String)
    ensures
        r@ == kind_of(t@),
{
    let k = if same(t, "function_declaration") || same(t, "function_definition") || same(
        t,
        "function_item",
    ) {
        "function"
    } else if same(t, "method_declaration") || same(t, "method_definition") {
        "method"
    } else if same(t, "struct_item") || same(t, "struct_specifier") || same(
        t,
        "struct_declaration",
    ) {
        "struct"
    } else if same(t, "enum_item") || same(t, "enum_specifier") || same(t, "enum_declaration") {
        "enum"
    } else if same(t, "trait_item") {
        "trait"
    } else if same(t, "interface_declaration") {
        "interface"
    } else if same(t, "class_declaration") || same(t, "class_specifier") || same(
        t,
        "class_definition",
    ) {
        "class"
    } else if same(t, "type_declaration") || same(t, "type_alias_declaration") || same(
        t,
        "type_item",
    ) {
        "type"
    } else if same(t, "const_item") || same(t, "const_declaration") {
        "const"
    } else if same(t, "mod_item") {
        "module"
    } else if same(t, "namespace_definition") {
        "namespace"
    } else if same(t, "impl_item") {
        "impl"
    } else if same(t, "constructor_declaration") {
        "constructor"
    } else if same(t, "var_declaration") || same(t, "lexical_declaration") {
        "var"
    } else if same(t, "decorated_definition") {
        "function"
    } else if same(t, "export_statement") {
        "export"
    } else if same(t, "static_item") {
        "static"
    } else if same(t, "declaration") {
        "declaration"
    } else {
        t
    };
    k.to_string()
}

/// A text, or the empty one.
pub open spec fn or_empty(t: Option<Seq<char>>) -> Seq<char> {
    match t {
        Some(s) => s,
        None => Seq::<char>::empty(),
    }
}

/// The node that names a symbol: its own name, or that of the declaration it
/// wraps.
pub open spec fn name_node(n: Seq<TreeNodeView>, i: int) -> Option<int> {
    match field_of(n, i, "name"@) {
        Some(j) => Some(j),
        None => if is_wrapper(n[i].kind) {
            match with_child_field(n, children_of(n, i), "name"@) {
                Some(c) => field_of(n, c, "name"@),
                None => None,
            }
        } else {
            None
        },
    }
}

/// A symbol's name, or nothing.
pub open spec fn name_of(s: Seq<char>, n: Seq<TreeNodeView>, i: int) -> Seq<char> {
    match name_node(n, i) {
        Some(j) => or_empty(node_text(s, n, j)),
        None => Seq::<char>::empty(),
    }
}

/// The first line of a text, if it has one.
pub open spec fn first_line(s: Seq<char>) -> Option<Seq<char>> {
    if lines_of(s).len() > 0 {
        Some(lines_of(s)[0])
    } else {
        None
    }
}

/// At most the first `k` characters.
pub open spec fn clipped(s: Seq<char>, k: int) -> Seq<char> {
    if s.len() > k {
        s.take(k)
    } else {
        s
    }
}

/// The name shown for a symbol without one: the beginning of its first line.
pub open spec fn stand_in_name(body: Seq<char>) -> Seq<char> {
    clipped(
        trimmed(
            match first_line(body) {
                Some(l) => l,
                None => "(anonymous)"@,
            },
        ),
        60,
    )
}

/// The node that holds a symbol's body.
pub open spec fn body_node(n: Seq<TreeNodeView>, i: int) -> Option<int> {
    match field_of(n, i, "body"@) {
        Some(b) => Some(b),
        None => field_of(n, i, "block"@),
    }
}

/// A symbol's signature: what stands before its body, or its first line.
pub open spec fn signature_of(s: Seq<char>, n: Seq<TreeNodeView>, i: int) -> Option<Seq<char>> {
    match body_node(n, i) {
        Some(b) => if n[b].start_byte > n[i].start_byte {
            match text_between(s, n[i].start_byte as int, n[b].start_byte as int) {
                Some(t) => Some(trimmed_end(t)),
                None => None,
            }
        } else {
            first_line_of_node(s, n, i)
        },
        None => first_line_of_node(s, n, i),
    }
}

/// The first line of a node, trimmed.
pub open spec fn first_line_of_node(s: Seq<char>, n: Seq<TreeNodeView>, i: int) -> Option<
    Seq<char>,
> {
    match node_text(s, n, i) {
        Some(t) => match first_line(t) {
            Some(l) => Some(trimmed(l)),
            None => None,
        },
        None => None,
    }
}

/// The first of the nodes that is not of that kind.
pub open spec fn first_other(n: Seq<TreeNodeView>, at: Seq<int>, kind: Seq<char>) -> Option<int>
    decreases at.len(),
{
    if at.len() == 0 {
        None
    } else if n[at[0]].kind != kind {
        Some(at[0])
    } else {
        first_other(n, at.drop_first(), kind)
    }
}

/// The first of the nodes of that kind.
pub open spec fn first_of_kind(n: Seq<TreeNodeView>, at: Seq<int>, kind: Seq<char>) -> Option<int>
    decreases at.len(),
{
    if at.len() == 0 {
        None
    } else if n[at[0]].kind == kind {
        Some(at[0])
    } else {
        first_of_kind(n, at.drop_first(), kind)
    }
}

/// The node whose first statement may be a docstring.
pub open spec fn docstring_body(n: Seq<TreeNodeView>, i: int) -> Option<int> {
    if n[i].kind == "module"@ {
        Some(i)
    } else {
        match field_of(n, i, "body"@) {
            Some(b) => Some(b),
            None => match with_child_field(n, children_of(n, i), "body"@) {
                Some(c) => field_of(n, c, "body"@),
                None => None,
            },
        }
    }
}

/// The string that is the first statement of a body.
pub open spec fn docstring_node(n: Seq<TreeNodeView>, b: int) -> Option<int> {
    match first_other(n, children_of(n, b), "comment"@) {
        Some(f) => if n[f].kind == "string"@ {
            Some(f)
        } else if n[f].kind == "expression_statement"@ {
            first_of_kind(n, children_of(n, f), "string"@)
        } else {
            None
        },
        None => None,
    }
}

/// A text, where it is not empty.
pub open spec fn nonempty(s: Seq<char>) -> Option<Seq<char>> {
    if s.len() == 0 {
        None
    } else {
        Some(s)
    }
}

/// A Python docstring as prose.
pub open spec fn docstring_of(s: Seq<char>, n: Seq<TreeNodeView>, i: int) -> Option<Seq<char>> {
    match docstring_body(n, i) {
        Some(b) => match docstring_node(n, b) {
            Some(d) => match node_text(s, n, d) {
                Some(t) => nonempty(python_prose(t)),
                None => None,
            },
            None => None,
        },
        None => None,
    }
}

/// A symbol's doc comment: in Python its docstring, else the comment right
/// before it.
pub open spec fn doc_of(
    s: Seq<char>,
    n: Seq<TreeNodeView>,
    cfg: LanguageConfigView,
    language: Seq<char>,
    i: int,
) -> Option<Seq<char>> {
    if language == "python"@ {
        docstring_of(s, n, i)
    } else {
        match prev_sibling_of(n, i) {
            Some(p) => if cfg.comment_types.contains(n[p].kind) {
                match node_text(s, n, p) {
                    Some(t) => nonempty(prose_of(t, language)),
                    None => None,
                }
            } else {
                None
            },
            None => None,
        }
    }
}

/// The node that says what a call calls.
pub open spec fn callee_node(n: Seq<TreeNodeView>, i: int) -> Option<int> {
    if field_of(n, i, "function"@) is Some {
        field_of(n, i, "function"@)
    } else if field_of(n, i, "name"@) is Some {
        field_of(n, i, "name"@)
    } else if field_of(n, i, "macro"@) is Some {
        field_of(n, i, "macro"@)
    } else if field_of(n, i, "constructor"@) is Some {
        field_of(n, i, "constructor"@)
    } else {
        field_of(n, i, "type"@)
    }
}

/// The bare name a call calls.
pub open spec fn callee_of(s: Seq<char>, n: Seq<TreeNodeView>, i: int) -> Option<Seq<char>> {
    match callee_node(n, i) {
        Some(c) => match node_text(s, n, c) {
            Some(t) => nonempty(last_segment(t)),
            None => None,
        },
        None => None,
    }
}

/// The names called by the nodes from `from` up to `to`, in order.
pub open spec fn calls_between(
    s: Seq<char>,
    n: Seq<TreeNodeView>,
    cfg: LanguageConfigView,
    from: int,
    to: int,
) -> Seq<Seq<char>>
    decreases to - from,
{
    if from >= to {
        Seq::<Seq<char>>::empty()
    } else {
        let head = calls_between(s, n, cfg, from, to - 1);
        if cfg.call_expression_types.contains(n[to - 1].kind) {
            match callee_of(s, n, to - 1) {
                Some(c) => head.push(c),
                None => head,
            }
        } else {
            head
        }
    }
}

/// The names called in a node's subtree, each once.
pub open spec fn references_of(
    s: Seq<char>,
    n: Seq<TreeNodeView>,
    cfg: LanguageConfigView,
    i: int,
) -> Seq<Seq<char>> {
    distinct(calls_between(s, n, cfg, i, subtree_end(n, i)))
}

/// Whether the node at `p` is a doc comment that adjoins the node at `i`: no
/// blank line stands between them.
pub open spec fn leads(
    s: Seq<char>,
    n: Seq<TreeNodeView>,
    cfg: LanguageConfigView,
    language: Seq<char>,
    p: int,
    i: int,
) -> bool {
    cfg.comment_types.contains(n[p].kind) && match text_between(
        s,
        n[p].start_byte as int,
        n[i].start_byte as int,
    ) {
        Some(t) => is_doc_comment(t, language) && !ends_in_blank_line(t),
        None => false,
    }
}

/// Where a symbol's text begins: at the first of the doc comments that lead its
/// node, or at the node where there are none.
pub open spec fn lead_of(
    s: Seq<char>,
    n: Seq<TreeNodeView>,
    cfg: LanguageConfigView,
    language: Seq<char>,
    i: int,
) -> int
    decreases i,
{
    proof {
        lemma_prev_sibling(n, i);
    }
    match prev_sibling_of(n, i) {
        Some(p) => if leads(s, n, cfg, language, p, i) {
            lead_of(s, n, cfg, language, p)
        } else {
            i
        },
        None => i,
    }
}

/// The full text of a symbol, from the doc comments that lead it to its end.
pub open spec fn body_text(
    s: Seq<char>,
    n: Seq<TreeNodeView>,
    cfg: LanguageConfigView,
    language: Seq<char>,
    i: int,
) -> Option<Seq<char>> {
    text_between(s, n[lead_of(s, n, cfg, language, i)].start_byte as int, n[i].end_byte as int)
}

/// The line number of a row.
pub open spec fn line_of(row: u32) -> u32 {
    if row == u32::MAX {
        0
    } else {
        (row + 1) as u32
    }
}

/// The symbol at a node, where it is one: a nameless node is one only if it
/// wraps a declaration.
pub open spec fn symbol_of(
    s: Seq<char>,
    n: Seq<TreeNodeView>,
    cfg: LanguageConfigView,
    language: Seq<char>,
    i: int,
) -> Option<SymbolChunkView> {
    let name = name_of(s, n, i);
    if name.len() == 0 && !is_wrapper(n[i].kind) {
        None
    } else {
        match (node_text(s, n, i), body_text(s, n, cfg, language, i)) {
            (Some(own), Some(body)) => Some(
                SymbolChunkView {
                    name: if name.len() == 0 {
                        stand_in_name(own)
                    } else {
                        name
                    },
                    kind: kind_of(n[i].kind),
                    body,
                    signature: signature_of(s, n, i),
                    doc_comment: doc_of(s, n, cfg, language, i),
                    start_line: line_of(n[i].start_row),
                    end_line: line_of(n[i].end_row),
                    references: references_of(s, n, cfg, i),
                },
            ),
            _ => None,
        }
    }
}

/// An optional symbol as a list.
pub open spec fn if_symbol(t: Option<SymbolChunkView>) -> Seq<SymbolChunkView> {
    match t {
        Some(x) => seq![x],
        None => Seq::<SymbolChunkView>::empty(),
    }
}

/// Whether a node inside a container is extracted.
pub open spec fn is_member(cfg: LanguageConfigView, kind: Seq<char>) -> bool {
    cfg.symbol_types.contains(kind) || kind == "function_item"@ || kind == "method_declaration"@
        || kind == "method_definition"@ || kind == "function_definition"@ || kind
        == "constructor_declaration"@
}

/// The symbols among the members of a container.
pub open spec fn member_symbols(
    s: Seq<char>,
    n: Seq<TreeNodeView>,
    cfg: LanguageConfigView,
    language: Seq<char>,
    at: Seq<int>,
) -> Seq<SymbolChunkView>
    decreases at.len(),
{
    if at.len() == 0 {
        Seq::<SymbolChunkView>::empty()
    } else {
        let head = member_symbols(s, n, cfg, language, at.drop_last());
        if is_member(cfg, n[at.last()].kind) {
            head + if_symbol(symbol_of(s, n, cfg, language, at.last()))
        } else {
            head
        }
    }
}

/// The node whose children are a container's members.
pub open spec fn container_body(n: Seq<TreeNodeView>, i: int) -> int {
    match field_of(n, i, "body"@) {
        Some(b) => b,
        None => i,
    }
}

/// The symbols that a top-level node brings: itself, and as a container its
/// members.
pub open spec fn symbols_at(
    s: Seq<char>,
    n: Seq<TreeNodeView>,
    cfg: LanguageConfigView,
    language: Seq<char>,
    i: int,
) -> Seq<SymbolChunkView> {
    let own = if cfg.symbol_types.contains(n[i].kind) {
        if_symbol(symbol_of(s, n, cfg, language, i))
    } else {
        Seq::<SymbolChunkView>::empty()
    };
    let inner = if cfg.container_types.contains(n[i].kind) {
        member_symbols(s, n, cfg, language, children_of(n, container_body(n, i)))
    } else {
        Seq::<SymbolChunkView>::empty()
    };
    own + inner
}

/// The symbols of a list of top-level nodes.
pub open spec fn symbols_of(
    s: Seq<char>,
    n: Seq<TreeNodeView>,
    cfg: LanguageConfigView,
    language: Seq<char>,
    at: Seq<int>,
) -> Seq<SymbolChunkView>
    decreases at.len(),
{
    if at.len() == 0 {
        Seq::<SymbolChunkView>::empty()
    } else {
        symbols_of(s, n, cfg, language, at.drop_last()) + symbols_at(s, n, cfg, language, at.last())
    }
}

/// The imports of a list of top-level nodes.
pub open spec fn imports_of(
    s: Seq<char>,
    n: Seq<TreeNodeView>,
    cfg: LanguageConfigView,
    at: Seq<int>,
) -> Seq<ImportView>
    decreases at.len(),
{
    if at.len() == 0 {
        Seq::<ImportView>::empty()
    } else {
        let head = imports_of(s, n, cfg, at.drop_last());
        if cfg.import_types.contains(n[at.last()].kind) {
            match node_text(s, n, at.last()) {
                Some(t) => head.push(
                    ImportView { module: trimmed(t), names: Seq::<Seq<char>>::empty() },
                ),
                None => head,
            }
        } else {
            head
        }
    }
}

/// The prose of the run of comments at the beginning of a list of nodes.
pub open spec fn leading_docs(
    s: Seq<char>,
    n: Seq<TreeNodeView>,
    cfg: LanguageConfigView,
    language: Seq<char>,
    at: Seq<int>,
) -> Seq<Seq<char>>
    decreases at.len(),
{
    if at.len() == 0 || !cfg.comment_types.contains(n[at[0]].kind) {
        Seq::<Seq<char>>::empty()
    } else {
        let rest = leading_docs(s, n, cfg, language, at.drop_first());
        match node_text(s, n, at[0]) {
            Some(t) => if prose_of(t, language).len() == 0 {
                rest
            } else {
                seq![prose_of(t, language)] + rest
            },
            None => rest,
        }
    }
}

/// A file's module-level doc comment.
pub open spec fn module_doc_of(
    s: Seq<char>,
    n: Seq<TreeNodeView>,
    cfg: LanguageConfigView,
    language: Seq<char>,
) -> Option<Seq<char>> {
    if n.len() == 0 {
        None
    } else if language == "python"@ {
        docstring_of(s, n, 0)
    } else {
        let docs = leading_docs(s, n, cfg, language, children_of(n, 0));
        if docs.len() == 0 {
            None
        } else {
            Some(joined(docs, "\n"@))
        }
    }
}

/// The children of the root, none where there is no root.
pub open spec fn top_nodes(n: Seq<TreeNodeView>) -> Seq<int> {
    if n.len() == 0 {
        Seq::<int>::empty()
    } else {
        children_of(n, 0)
    }
}

/// A file taken apart, given the nodes of its syntax tree, if it has one.
pub open spec fn chunks_of(
    file_path: Seq<char>,
    content: Seq<char>,
    language: Seq<char>,
    nodes: Option<Seq<TreeNodeView>>,
) -> FileChunksView {
    match (config_of(language), nodes) {
        (Some(cfg), Some(n)) => FileChunksView {
            file_path,
            language,
            file_content: content,
            module_doc: module_doc_of(content, n, cfg, language),
            imports: imports_of(content, n, cfg, top_nodes(n)),
            symbols: symbols_of(content, n, cfg, language, top_nodes(n)),
        },
        _ => FileChunksView {
            file_path,
            language,
            file_content: content,
            module_doc: None,
            imports: Seq::<ImportView>::empty(),
            symbols: Seq::<SymbolChunkView>::empty(),
        },
    }
}

// ---------------------------------------------------------------------------
// Extraction
// ---------------------------------------------------------------------------

fn text_of(src: &Source, nodes: &Vec<TreeNode>, i: usize) -> (r: Option<String>)
    requires
        src.wf(),
        i < nodes@.len(),
    ensures
        r.deep_view() == node_text(src.chars@, nodes.deep_view(), i as int),
{
    assert(nodes.deep_view()[i as int] == nodes@[i as int].deep_view());
    src.slice(nodes[i].start_byte, nodes[i].end_byte)
}

fn keep_nonempty(s: String) -> (r: Option<String>)
    ensures
        r.deep_view() == nonempty(s@),
{
    if s.as_str().unicode_len() == 0 {
        None
    } else {
        Some(s)
    }
}

fn head_line(s: &str) -> (r: Option<String>)
    ensures
        r.deep_view() == first_line(s@),
{
    let ls = lines(s);
    assert(ls.deep_view().len() == ls@.len());
    if ls.len() > 0 {
        Some(ls[0].clone())
    } else {
        None
    }
}

fn clip(s: &str, k: usize) -> (r: String)
    ensures
        r@ == clipped(s@, k as int),
{
    let n: usize = s.unicode_len();
    if n > k {
        assert(s@.subrange(0, k as int) =~= s@.take(k as int));
        s.substring_char(0, k).to_string()
    } else {
        s.to_string()
    }
}

fn find_name(nodes: &Vec<TreeNode>, i: usize) -> (r: Option<usize>)
    requires
        i < nodes@.len(),
    ensures
        match r {
            Some(j) => name_node(nodes.deep_view(), i as int) == Some(j as int) && j < nodes@.len(),
            None => name_node(nodes.deep_view(), i as int) is None,
        },
{
    assert(nodes.deep_view()[i as int] == nodes@[i as int].deep_view());
    match child_by_field_name(nodes, i, "name") {
        Some(j) => Some(j),
        None => if same(nodes[i].kind.as_str(), "export_statement") || same(
            nodes[i].kind.as_str(),
            "decorated_definition",
        ) {
            match child_with_field(nodes, i, "name") {
                Some(c) => child_by_field_name(nodes, c, "name"),
                None => None,
            }
        } else {
            None
        },
    }
}

fn line_number(row: u32) -> (r: u32)
    ensures
        r == line_of(row),
{
    row.wrapping_add(1)
}

fn extract_signature(src: &Source, nodes: &Vec<TreeNode>, i: usize) -> (r: Option<String>)
    requires
        src.wf(),
        i < nodes@.len(),
    ensures
        r.deep_view() == signature_of(src.chars@, nodes.deep_view(), i as int),
{
    let ghost n = nodes.deep_view();
    let body = match child_by_field_name(nodes, i, "body") {
        Some(b) => Some(b),
        None => child_by_field_name(nodes, i, "block"),
    };
    assert(n[i as int] == nodes@[i as int].deep_view());
    if let Some(b) = body {
        assert(n[b as int] == nodes@[b as int].deep_view());
        if nodes[b].start_byte > nodes[i].start_byte {
            return match src.slice(nodes[i].start_byte, nodes[b].start_byte) {
                Some(t) => Some(trim_end(t.as_str())),
                None => None,
            };
        }
    }
    match text_of(src, nodes, i) {
        Some(t) => match head_line(t.as_str()) {
            Some(l) => Some(trim(l.as_str())),
            None => None,
        },
        None => None,
    }
}

fn find_kind(nodes: &Vec<TreeNode>, i: usize, kind: &str, wanted: bool) -> (r: Option<usize>)
    requires
        i < nodes@.len(),
    ensures
        match r {
            Some(j) => j < nodes@.len() && (if wanted {
                first_of_kind(nodes.deep_view(), children_of(nodes.deep_view(), i as int), kind@)
            } else {
                first_other(nodes.deep_view(), children_of(nodes.deep_view(), i as int), kind@)
            }) == Some(j as int),
            None => (if wanted {
                first_of_kind(nodes.deep_view(), children_of(nodes.deep_view(), i as int), kind@)
            } else {
                first_other(nodes.deep_view(), children_of(nodes.deep_view(), i as int), kind@)
            }) is None,
        },
{
    let ghost n = nodes.deep_view();
    let at = children(nodes, i);
    let ghost av = places(at@);
    let mut k: usize = 0;
    assert(av.skip(0) =~= av);
    while k < at.len()
        invariant
            k <= at@.len(),
            n == nodes.deep_view(),
            av == places(at@),
            av == children_of(n, i as int),
            forall|j: int| 0 <= j < at@.len() ==> i < #[trigger] at@[j] < nodes@.len(),
            first_of_kind(n, av, kind@) == first_of_kind(n, av.skip(k as int), kind@) || !wanted,
            first_other(n, av, kind@) == first_other(n, av.skip(k as int), kind@) || wanted,
        decreases at@.len() - k,
    {
        let c: usize = at[k];
        proof {
            assert(av.skip(k as int)[0] == c);
            assert(av.skip(k as int).drop_first() =~= av.skip(k + 1));
            assert(n[c as int] == nodes@[c as int].deep_view());
        }
        if same(nodes[c].kind.as_str(), kind) == wanted {
            return Some(c);
        }
        k += 1;
    }
    None
}

fn docstring_from_body(src: &Source, nodes: &Vec<TreeNode>, i: usize) -> (r: Option<String>)
    requires
        src.wf(),
        i < nodes@.len(),
    ensures
        r.deep_view() == docstring_of(src.chars@, nodes.deep_view(), i as int),
{
    let ghost n = nodes.deep_view();
    assert(n[i as int] == nodes@[i as int].deep_view());
    let body: usize = if same(nodes[i].kind.as_str(), "module") {
        i
    } else {
        match child_by_field_name(nodes, i, "body") {
            Some(b) => b,
            None => match child_with_field(nodes, i, "body") {
                Some(c) => match child_by_field_name(nodes, c, "body") {
                    Some(b) => b,
                    None => {
                        return None;
                    },
                },
                None => {
                    return None;
                },
            },
        }
    };
    let first: usize = match find_kind(nodes, body, "comment", false) {
        Some(f) => f,
        None => {
            return None;
        },
    };
    assert(n[first as int] == nodes@[first as int].deep_view());
    let node: usize = if same(nodes[first].kind.as_str(), "string") {
        first
    } else if same(nodes[first].kind.as_str(), "expression_statement") {
        match find_kind(nodes, first, "string", true) {
            Some(d) => d,
            None => {
                return None;
            },
        }
    } else {
        return None;
    };
    match text_of(src, nodes, node) {
        Some(t) => keep_nonempty(clean_python_docstring(t.as_str())),
        None => None,
    }
}

fn extract_doc(
    src: &Source,
    nodes: &Vec<TreeNode>,
    config: &LanguageConfig,
    language: &str,
    i: usize,
) -> (r: Option<String>)
    requires
        src.wf(),
        i < nodes@.len(),
    ensures
        r.deep_view() == doc_of(
            src.chars@,
            nodes.deep_view(),
            config.deep_view(),
            language@,
            i as int,
        ),
{
    if same(language, "python") {
        return docstring_from_body(src, nodes, i);
    }
    match prev_sibling(nodes, i) {
        Some(p) => {
            assert(nodes.deep_view()[p as int] == nodes@[p as int].deep_view());
            if has_kind(&config.comment_types, nodes[p].kind.as_str()) {
                match text_of(src, nodes, p) {
                    Some(t) => keep_nonempty(clean_doc_comment(t.as_str(), language)),
                    None => None,
                }
            } else {
                None
            }
        },
        None => None,
    }
}

fn extract_callee_name(src: &Source, nodes: &Vec<TreeNode>, i: usize) -> (r: Option<String>)
    requires
        src.wf(),
        i < nodes@.len(),
    ensures
        r.deep_view() == callee_of(src.chars@, nodes.deep_view(), i as int),
{
    let callee = match child_by_field_name(nodes, i, "function") {
        Some(c) => Some(c),
        None => match child_by_field_name(nodes, i, "name") {
            Some(c) => Some(c),
            None => match child_by_field_name(nodes, i, "macro") {
                Some(c) => Some(c),
                None => match child_by_field_name(nodes, i, "constructor") {
                    Some(c) => Some(c),
                    None => child_by_field_name(nodes, i, "type"),
                },
            },
        },
    };
    match callee {
        Some(c) => match text_of(src, nodes, c) {
            Some(t) => keep_nonempty(last_identifier_segment(t.as_str())),
            None => None,
        },
        None => None,
    }
}

fn extract_references(
    src: &Source,
    nodes: &Vec<TreeNode>,
    config: &LanguageConfig,
    i: usize,
) -> (r: Vec<String>)
    requires
        src.wf(),
        i < nodes@.len(),
    ensures
        r.deep_view() == references_of(
            src.chars@,
            nodes.deep_view(),
            config.deep_view(),
            i as int,
        ),
{
    let ghost n = nodes.deep_view();
    let ghost cfg = config.deep_view();
    let ghost s = src.chars@;
    let end: usize = end_of(nodes, i);
    let mut refs: Vec<String> = Vec::new();
    let mut j: usize = i;
    assert(refs.deep_view() =~= calls_between(s, n, cfg, i as int, i as int));
    while j < end
        invariant
            i <= j <= end <= nodes@.len(),
            src.wf(),
            s == src.chars@,
            n == nodes.deep_view(),
            cfg == config.deep_view(),
            refs.deep_view() == calls_between(s, n, cfg, i as int, j as int),
        decreases end - j,
    {
        let ghost before = refs.deep_view();
        assert(n[j as int] == nodes@[j as int].deep_view());
        if has_kind(&config.call_expression_types, nodes[j].kind.as_str()) {
            if let Some(name) = extract_callee_name(src, nodes, j) {
                let ghost nv = name@;
                refs.push(name);
                assert(refs.deep_view() =~= before.push(nv));
            }
        }
        j += 1;
    }
    dedup(&refs)
}

fn find_lead(
    src: &Source,
    nodes: &Vec<TreeNode>,
    config: &LanguageConfig,
    language: &str,
    i: usize,
) -> (r: usize)
    requires
        src.wf(),
        i < nodes@.len(),
    ensures
        r == lead_of(
            src.chars@,
            nodes.deep_view(),
            config.deep_view(),
            language@,
            i as int,
        ),
        r < nodes@.len(),
{
    let ghost s = src.chars@;
    let ghost n = nodes.deep_view();
    let ghost cfg = config.deep_view();
    let mut j: usize = i;
    loop
        invariant
            src.wf(),
            j < nodes@.len(),
            s == src.chars@,
            n == nodes.deep_view(),
            cfg == config.deep_view(),
            lead_of(s, n, cfg, language@, i as int) == lead_of(s, n, cfg, language@, j as int),
        decreases j,
    {
        proof {
            lemma_prev_sibling(n, j as int);
        }
        let p: usize = match prev_sibling(nodes, j) {
            Some(p) => p,
            None => {
                return j;
            },
        };
        proof {
            assert(n[p as int] == nodes@[p as int].deep_view());
            assert(n[j as int] == nodes@[j as int].deep_view());
        }
        if !has_kind(&config.comment_types, nodes[p].kind.as_str()) {
            return j;
        }
        match src.slice(nodes[p].start_byte, nodes[j].start_byte) {
            Some(t) => if !documents(t.as_str(), language) || has_blank_end(t.as_str()) {
                return j;
            },
            None => {
                return j;
            },
        }
        j = p;
    }
}

fn extract_symbol(
    src: &Source,
    nodes: &Vec<TreeNode>,
    config: &LanguageConfig,
    language: &str,
    i: usize,
) -> (r: Option<SymbolChunk>)
    requires
        src.wf(),
        i < nodes@.len(),
    ensures
        r.deep_view() == symbol_of(
            src.chars@,
            nodes.deep_view(),
            config.deep_view(),
            language@,
            i as int,
        ),
{
    let ghost n = nodes.deep_view();
    assert(n[i as int] == nodes@[i as int].deep_view());
    let name = match find_name(nodes, i) {
        Some(j) => match text_of(src, nodes, j) {
            Some(t) => t,
            None => String::new(),
        },
        None => String::new(),
    };
    assert(name@ == name_of(src.chars@, n, i as int));
    let nameless = name.as_str().unicode_len() == 0;
    let kind = nodes[i].kind.as_str();
    if nameless && !same(kind, "export_statement") && !same(kind, "decorated_definition") {
        return None;
    }
    let own = match text_of(src, nodes, i) {
        Some(t) => t,
        None => {
            return None;
        },
    };
    let lead: usize = find_lead(src, nodes, config, language, i);
    assert(n[lead as int] == nodes@[lead as int].deep_view());
    let body = match src.slice(nodes[lead].start_byte, nodes[i].end_byte) {
        Some(t) => t,
        None => {
            return None;
        },
    };
    let signature = extract_signature(src, nodes, i);
    let doc_comment = extract_doc(src, nodes, config, language, i);
    let references = extract_references(src, nodes, config, i);
    let shown = if nameless {
        let line = match head_line(own.as_str()) {
            Some(l) => l,
            None => "(anonymous)".to_string(),
        };
        clip(trim(line.as_str()).as_str(), 60)
    } else {
        name
    };
    Some(
        SymbolChunk {
            name: shown,
            kind: normalize_kind(kind),
            body,
            signature,
            doc_comment,
            start_line: line_number(nodes[i].start_row),
            end_line: line_number(nodes[i].end_row),
            references,
        },
    )
}

fn extract_members(
    src: &Source,
    nodes: &Vec<TreeNode>,
    config: &LanguageConfig,
    language: &str,
    i: usize,
) -> (r: Vec<SymbolChunk>)
    requires
        src.wf(),
        i < nodes@.len(),
    ensures
        r.deep_view() == member_symbols(
            src.chars@,
            nodes.deep_view(),
            config.deep_view(),
            language@,
            children_of(nodes.deep_view(), container_body(nodes.deep_view(), i as int)),
        ),
{
    let ghost n = nodes.deep_view();
    let ghost cfg = config.deep_view();
    let ghost s = src.chars@;
    let body: usize = match child_by_field_name(nodes, i, "body") {
        Some(b) => b,
        None => i,
    };
    let at = children(nodes, body);
    let ghost av = places(at@);
    let mut out: Vec<SymbolChunk> = Vec::new();
    let mut k: usize = 0;
    assert(out.deep_view() =~= member_symbols(s, n, cfg, language@, av.take(0)));
    while k < at.len()
        invariant
            k <= at@.len(),
            src.wf(),
            s == src.chars@,
            n == nodes.deep_view(),
            cfg == config.deep_view(),
            av == places(at@),
            forall|j: int| 0 <= j < at@.len() ==> body < #[trigger] at@[j] < nodes@.len(),
            out.deep_view() == member_symbols(s, n, cfg, language@, av.take(k as int)),
        decreases at@.len() - k,
    {
        let c: usize = at[k];
        let ghost before = out.deep_view();
        proof {
            assert(av.take(k + 1).drop_last() =~= av.take(k as int));
            assert(av.take(k + 1).last() == c);
            assert(n[c as int] == nodes@[c as int].deep_view());
        }
        let kind = nodes[c].kind.as_str();
        if has_kind(&config.symbol_types, kind) || same(kind, "function_item") || same(
            kind,
            "method_declaration",
        ) || same(kind, "method_definition") || same(kind, "function_definition") || same(
            kind,
            "constructor_declaration",
        ) {
            match extract_symbol(src, nodes, config, language, c) {
                Some(sym) => {
                    let ghost sv = sym.deep_view();
                    out.push(sym);
                    assert(out.deep_view() =~= before + seq![sv]);
                },
                None => {
                    assert(before + Seq::<SymbolChunkView>::empty() =~= before);
                },
            }
        }
        k += 1;
    }
    assert(av.take(k as int) =~= av);
    out
}

fn extract_all(
    src: &Source,
    nodes: &Vec<TreeNode>,
    config: &LanguageConfig,
    language: &str,
) -> (r: (Vec<Import>, Vec<SymbolChunk>))
    requires
        src.wf(),
    ensures
        r.0.deep_view() == imports_of(
            src.chars@,
            nodes.deep_view(),
            config.deep_view(),
            top_nodes(nodes.deep_view()),
        ),
        r.1.deep_view() == symbols_of(
            src.chars@,
            nodes.deep_view(),
            config.deep_view(),
            language@,
            top_nodes(nodes.deep_view()),
        ),
{
    let ghost n = nodes.deep_view();
    let ghost cfg = config.deep_view();
    let ghost s = src.chars@;
    let mut imports: Vec<Import> = Vec::new();
    let mut symbols: Vec<SymbolChunk> = Vec::new();
    let at: Vec<usize> = if nodes.len() == 0 {
        Vec::new()
    } else {
        children(nodes, 0)
    };
    let ghost av = places(at@);
    let mut k: usize = 0;
    proof {
        assert(av =~= top_nodes(n));
        assert(imports.deep_view() =~= imports_of(s, n, cfg, av.take(0)));
        assert(symbols.deep_view() =~= symbols_of(s, n, cfg, language@, av.take(0)));
    }
    while k < at.len()
        invariant
            k <= at@.len(),
            src.wf(),
            s == src.chars@,
            n == nodes.deep_view(),
            cfg == config.deep_view(),
            av == places(at@),
            forall|j: int| 0 <= j < at@.len() ==> #[trigger] at@[j] < nodes@.len(),
            imports.deep_view() == imports_of(s, n, cfg, av.take(k as int)),
            symbols.deep_view() == symbols_of(s, n, cfg, language@, av.take(k as int)),
        decreases at@.len() - k,
    {
        let c: usize = at[k];
        proof {
            assert(av.take(k + 1).drop_last() =~= av.take(k as int));
            assert(av.take(k + 1).last() == c);
            assert(n[c as int] == nodes@[c as int].deep_view());
        }
        let kind = nodes[c].kind.as_str();
        let ghost imports0 = imports.deep_view();
        if has_kind(&config.import_types, kind) {
            if let Some(t) = text_of(src, nodes, c) {
                let names: Vec<String> = Vec::new();
                assert(names.deep_view() =~= Seq::<Seq<char>>::empty());
                let import = Import { module: trim(t.as_str()), names };
                let ghost iv = import.deep_view();
                imports.push(import);
                assert(imports.deep_view() =~= imports0.push(iv));
            }
        }
        let ghost before = symbols.deep_view();
        let ghost own = if cfg.symbol_types.contains(kind@) {
            if_symbol(symbol_of(s, n, cfg, language@, c as int))
        } else {
            Seq::<SymbolChunkView>::empty()
        };
        if has_kind(&config.symbol_types, kind) {
            if let Some(sym) = extract_symbol(src, nodes, config, language, c) {
                symbols.push(sym);
            }
        }
        assert(symbols.deep_view() =~= before + own);
        let ghost middle = symbols.deep_view();
        let ghost inner = if cfg.container_types.contains(kind@) {
            member_symbols(s, n, cfg, language@, children_of(n, container_body(n, c as int)))
        } else {
            Seq::<SymbolChunkView>::empty()
        };
        if has_kind(&config.container_types, kind) {
            let mut members = extract_members(src, nodes, config, language, c);
            let ghost mv = members.deep_view();
            symbols.append(&mut members);
            assert(symbols.deep_view() =~= middle + mv);
        }
        assert(symbols.deep_view() =~= middle + inner);
        assert((before + own) + inner =~= before + (own + inner));
        k += 1;
    }
    assert(av.take(k as int) =~= av);
    (imports, symbols)
}

fn extract_module_doc(
    src: &Source,
    nodes: &Vec<TreeNode>,
    config: &LanguageConfig,
    language: &str,
) -> (r: Option<String>)
    requires
        src.wf(),
    ensures
        r.deep_view() == module_doc_of(
            src.chars@,
            nodes.deep_view(),
            config.deep_view(),
            language@,
        ),
{
    if nodes.len() == 0 {
        return None;
    }
    if same(language, "python") {
        return docstring_from_body(src, nodes, 0);
    }
    let ghost n = nodes.deep_view();
    let ghost cfg = config.deep_view();
    let ghost s = src.chars@;
    let at = children(nodes, 0);
    let ghost av = places(at@);
    let ghost all = leading_docs(s, n, cfg, language@, av);
    let mut docs: Vec<String> = Vec::new();
    let mut k: usize = 0;
    proof {
        assert(av.skip(0) =~= av);
        assert(docs.deep_view() + leading_docs(s, n, cfg, language@, av.skip(0)) =~= all);
    }
    while k < at.len() && has_kind(&config.comment_types, nodes[at[k]].kind.as_str())
        invariant
            k <= at@.len(),
            src.wf(),
            s == src.chars@,
            n == nodes.deep_view(),
            cfg == config.deep_view(),
            av == places(at@),
            forall|j: int| 0 <= j < at@.len() ==> #[trigger] at@[j] < nodes@.len(),
            all == docs.deep_view() + leading_docs(s, n, cfg, language@, av.skip(k as int)),
        decreases at@.len() - k,
    {
        let c: usize = at[k];
        let ghost before = docs.deep_view();
        let ghost rest = leading_docs(s, n, cfg, language@, av.skip(k + 1));
        proof {
            assert(av.skip(k as int)[0] == c);
            assert(av.skip(k as int).drop_first() =~= av.skip(k + 1));
            assert(n[c as int] == nodes@[c as int].deep_view());
        }
        if let Some(t) = text_of(src, nodes, c) {
            let cleaned = clean_doc_comment(t.as_str(), language);
            if cleaned.as_str().unicode_len() > 0 {
                let ghost cv = cleaned@;
                docs.push(cleaned);
                assert(docs.deep_view() =~= before.push(cv));
                assert(before + (seq![cv] + rest) =~= before.push(cv) + rest);
            }
        }
        k += 1;
    }
    proof {
        if k < at@.len() {
            let c = at@[k as int];
            assert(av.skip(k as int)[0] == c);
            assert(n[c as int] == nodes@[c as int].deep_view());
        }
        assert(leading_docs(s, n, cfg, language@, av.skip(k as int)) =~= Seq::<
            Seq<char>,
        >::empty());
        assert(docs.deep_view() =~= all);
    }
    if docs.len() == 0 {
        None
    } else {
        Some(join(&docs, "\n"))
    }
}

/// Takes a file apart, given the nodes of its syntax tree, if it has one.
/// Without a tree, or without settings for the language, there is only the
/// file as a whole.
pub fn chunk_nodes(
    file_path: &str,
    content: &str,
    language: &str,
    nodes: &Option<Vec<TreeNode>>,
) -> (r: FileChunks)
    ensures
        r.deep_view() == chunks_of(file_path@, content@, language@, nodes.deep_view()),
{
    let config = get_config(language);
    let (module_doc, imports, symbols) = match (&config, nodes) {
        (Some(cfg), Some(list)) => {
            let src = Source::new(content);
            let doc = extract_module_doc(&src, list, cfg, language);
            let (i, s) = extract_all(&src, list, cfg, language);
            (doc, i, s)
        },
        _ => {
            let i: Vec<Import> = Vec::new();
            let s: Vec<SymbolChunk> = Vec::new();
            assert(i.deep_view() =~= Seq::<ImportView>::empty());
            assert(s.deep_view() =~= Seq::<SymbolChunkView>::empty());
            (None, i, s)
        },
    };
    FileChunks {
        file_path: file_path.to_string(),
        language: language.to_string(),
        file_content: content.to_string(),
        module_doc,
        imports,
        symbols,
    }
}

/// The chunker that parses with the linked grammars.
#[derive(Clone, Copy, Debug)]
pub struct TreeSitterChunker;

impl TreeSitterChunker {
    /// A chunker.
    pub fn new() -> TreeSitterChunker {
        TreeSitterChunker
    }
}

impl Default for TreeSitterChunker {
    fn default() -> TreeSitterChunker {
        TreeSitterChunker
    }
}

impl Chunker for TreeSitterChunker {
    /// Parses a file in its language's grammar and takes it apart. A language
    /// without settings is not parsed; the one error is a grammar that the
    /// parser refuses.
    fn chunk(&self, file_path: &str, content: &str, language: &str) -> (r: Result<
        FileChunks,
        ChunkError,
    >)
        ensures
            match (r, config_of(language@)) {
                (Ok(c), None) => c.deep_view() == chunks_of(
                    file_path@,
                    content@,
                    language@,
                    None,
                ),
                (Ok(c), Some(cfg)) => grammar_error(cfg.grammar) is None && c.deep_view()
                    == chunks_of(file_path@, content@, language@, parsed(cfg.grammar, content@))
                    && (parsed(cfg.grammar, content@) is Some && is_addressable(content@)
                    ==> rows_count_feeds(content@, parsed(cfg.grammar, content@)->0)),
                (Err(e), Some(cfg)) => e.language@ == language@ && grammar_error(cfg.grammar)
                    == Some(e.cause@),
                (Err(_), None) => false,
            },
    {
        let nodes = match get_config(language) {
            Some(cfg) => match parse(cfg.grammar, content) {
                Ok(nodes) => nodes,
                Err(cause) => {
                    return Err(ChunkError { language: language.to_string(), cause });
                },
            },
            None => None,
        };
        Ok(chunk_nodes(file_path, content, language, &nodes))
    }
}

// ---------------------------------------------------------------------------
// Laws
// ---------------------------------------------------------------------------

/// Whether a symbol is what one of the nodes brings.
pub open spec fn is_from_node(
    s: Seq<char>,
    n: Seq<TreeNodeView>,
    cfg: LanguageConfigView,
    language: Seq<char>,
    sym: SymbolChunkView,
) -> bool {
    exists|i: int|
        0 <= i < n.len() && is_symbol(cfg, n[i].kind) && #[trigger] symbol_of(
            s,
            n,
            cfg,
            language,
            i,
        ) == Some(sym)
}

/// Whether a node of that type can be a symbol, or a member of one.
pub open spec fn is_symbol(cfg: LanguageConfigView, kind: Seq<char>) -> bool {
    cfg.symbol_types.contains(kind) || is_member(cfg, kind)
}

proof fn lemma_children_range(n: Seq<TreeNodeView>, d: int, j: int)
    ensures
        forall|k: int|
            0 <= k < children_from(n, d, j).len() ==> 0 <= #[trigger] children_from(n, d, j)[k]
                < n.len(),
    decreases n.len() - j,
{
    if 0 <= j < n.len() && n[j].depth > d {
        lemma_children_range(n, d, j + 1);
        let all = children_from(n, d, j);
        let rest = children_from(n, d, j + 1);
        assert forall|k: int| 0 <= k < all.len() implies 0 <= #[trigger] all[k] < n.len() by {
            if n[j].depth == d + 1 && k > 0 {
                assert(all[k] == rest[k - 1]);
            } else if n[j].depth != d + 1 {
                assert(all[k] == rest[k]);
            }
        }
    }
}

proof fn lemma_with_field(n: Seq<TreeNodeView>, at: Seq<int>, name: Seq<char>)
    requires
        forall|k: int| 0 <= k < at.len() ==> 0 <= #[trigger] at[k] < n.len(),
    ensures
        with_field(n, at, name) matches Some(j) ==> 0 <= j < n.len() && n[j].field == Some(name)
            && at.contains(j),
    decreases at.len(),
{
    if at.len() > 0 && n[at[0]].field == Some(name) {
        assert(at.contains(at[0]));
    }
    if at.len() > 0 && n[at[0]].field != Some(name) {
        assert forall|k: int| 0 <= k < at.drop_first().len() implies 0
            <= #[trigger] at.drop_first()[k] < n.len() by {
            assert(at.drop_first()[k] == at[k + 1]);
        }
        lemma_with_field(n, at.drop_first(), name);
        if let Some(j) = with_field(n, at.drop_first(), name) {
            let m = choose|m: int| 0 <= m < at.drop_first().len() && at.drop_first()[m] == j;
            assert(at[m + 1] == j);
        }
    }
}

proof fn lemma_field(n: Seq<TreeNodeView>, i: int, name: Seq<char>)
    ensures
        field_of(n, i, name) matches Some(j) ==> 0 <= j < n.len() && n[j].field == Some(name)
            && children_of(n, i).contains(j),
{
    lemma_children_range(n, n[i].depth as int, i + 1);
    lemma_with_field(n, children_of(n, i), name);
}

proof fn lemma_members_from_nodes(
    s: Seq<char>,
    n: Seq<TreeNodeView>,
    cfg: LanguageConfigView,
    language: Seq<char>,
    at: Seq<int>,
    k: int,
)
    requires
        0 <= k < member_symbols(s, n, cfg, language, at).len(),
        forall|m: int| 0 <= m < at.len() ==> 0 <= #[trigger] at[m] < n.len(),
    ensures
        is_from_node(s, n, cfg, language, member_symbols(s, n, cfg, language, at)[k]),
    decreases at.len(),
{
    if at.len() > 0 {
        let head = member_symbols(s, n, cfg, language, at.drop_last());
        if k < head.len() {
            lemma_members_from_nodes(s, n, cfg, language, at.drop_last(), k);
        } else {
            assert(0 <= at[at.len() - 1] < n.len());
            assert(symbol_of(s, n, cfg, language, at.last()) is Some);
        }
    }
}

proof fn lemma_symbols_from_nodes(
    s: Seq<char>,
    n: Seq<TreeNodeView>,
    cfg: LanguageConfigView,
    language: Seq<char>,
    at: Seq<int>,
    k: int,
)
    requires
        0 <= k < symbols_of(s, n, cfg, language, at).len(),
        forall|m: int| 0 <= m < at.len() ==> 0 <= #[trigger] at[m] < n.len(),
    ensures
        is_from_node(s, n, cfg, language, symbols_of(s, n, cfg, language, at)[k]),
    decreases at.len(),
{
    if at.len() > 0 {
        let head = symbols_of(s, n, cfg, language, at.drop_last());
        let i = at.last();
        if k < head.len() {
            lemma_symbols_from_nodes(s, n, cfg, language, at.drop_last(), k);
        } else {
            assert(0 <= at[at.len() - 1] < n.len());
            let own = if cfg.symbol_types.contains(n[i].kind) {
                if_symbol(symbol_of(s, n, cfg, language, i))
            } else {
                Seq::<SymbolChunkView>::empty()
            };
            let body = container_body(n, i);
            let inner = children_of(n, body);
            if k - head.len() < own.len() {
                assert(symbol_of(s, n, cfg, language, i) is Some);
            } else {
                lemma_children_range(n, n[body].depth as int, body + 1);
                lemma_members_from_nodes(
                    s,
                    n,
                    cfg,
                    language,
                    inner,
                    k - head.len() - own.len(),
                );
            }
        }
    }
}

proof fn lemma_lead(
    s: Seq<char>,
    n: Seq<TreeNodeView>,
    cfg: LanguageConfigView,
    language: Seq<char>,
    i: int,
)
    requires
        is_boundary(s, n[i].start_byte as int),
    ensures
        ({
            let l = lead_of(s, n, cfg, language, i);
            &&& is_boundary(s, n[l].start_byte as int)
            &&& char_at(s, n[l].start_byte as int) <= char_at(s, n[i].start_byte as int)
            &&& l != i ==> (prev_sibling_of(n, i) matches Some(p) && cfg.comment_types.contains(
                n[p].kind,
            ))
        }),
    decreases i,
{
    lemma_prev_sibling(n, i);
    if let Some(p) = prev_sibling_of(n, i) {
        if leads(s, n, cfg, language, p, i) {
            lemma_lead(s, n, cfg, language, p);
        }
    }
}

proof fn lemma_feeds_add(a: Seq<char>, b: Seq<char>)
    ensures
        feeds(a + b) == feeds(a) + feeds(b),
        feeds(b) >= 0,
    decreases b.len(),
{
    if b.len() == 0 {
        assert(a + b =~= a);
    } else {
        lemma_feeds_add(a, b.drop_last());
        assert((a + b).drop_last() =~= a + b.drop_last());
    }
}

proof fn lemma_first_line(s: Seq<char>)
    ensures
        first_line(s) matches Some(l) ==> occurs(s, l),
{
    if let Some(l) = first_line(s) {
        lemma_first_piece(s);
        let p = pieces(s, '\n')[0];
        let whole = s.subrange(0, p.len() as int);
        assert(occurs_at(s, p, 0)) by {
            assert(whole =~= p);
        }
        let cut = p.take(l.len() as int);
        assert(l =~= cut);
        assert(s.subrange(0, l.len() as int) =~= l);
        assert(occurs_at(s, l, 0));
    }
}

proof fn lemma_first_piece(s: Seq<char>)
    ensures
        pieces(s, '\n').len() >= 1,
        pieces(s, '\n')[0].len() <= s.len(),
        pieces(s, '\n')[0] == s.take(pieces(s, '\n')[0].len() as int),
        pieces(s, '\n').len() == 1 ==> pieces(s, '\n')[0].len() == s.len(),
    decreases s.len(),
{
    let p = pieces(s, '\n');
    if s.len() == 0 {
        assert(s.take(0) =~= Seq::<char>::empty());
    } else {
        let h = s.drop_last();
        lemma_first_piece(h);
        let q = pieces(h, '\n');
        if s.last() == '\n' {
            assert(p[0] == q[0]);
            assert(h.take(q[0].len() as int) =~= s.take(q[0].len() as int));
        } else if q.len() == 1 {
            assert(p[0] == q[0].push(s.last()));
            assert(h.take(h.len() as int) =~= h);
            assert(h.push(s.last()) =~= s);
            assert(s.take(s.len() as int) =~= s);
        } else {
            assert(p[0] == q[0]);
            assert(h.take(q[0].len() as int) =~= s.take(q[0].len() as int));
        }
    }
}

proof fn lemma_last_segment(s: Seq<char>)
    ensures
        occurs(s, last_segment(s)),
{
    lemma_last_scope(s, s.len() as int);
    let after = match last_scope(s, s.len() as int) {
        Some(i) => s.skip(i + 2),
        None => s,
    };
    let from = match last_scope(s, s.len() as int) {
        Some(i) => i + 2,
        None => 0,
    };
    assert(after =~= s.subrange(from, s.len() as int));
    assert(occurs_at(s, after, from));
    lemma_tail_is_part(after, '.');
    lemma_trimmed_is_part(after_last(after, '.'));
    lemma_part_of_part(last_segment(s), after_last(after, '.'), after);
    lemma_part_of_part(last_segment(s), after, s);
}

proof fn lemma_last_scope(s: Seq<char>, from: int)
    ensures
        last_scope(s, from) matches Some(i) ==> 0 <= i && i + 2 <= s.len(),
    decreases from + 1,
{
    reveal_strlit("::");
    if from >= 0 && !occurs_at(s, "::"@, from) {
        lemma_last_scope(s, from - 1);
    }
}

proof fn lemma_calls_are_parts(
    s: Seq<char>,
    n: Seq<TreeNodeView>,
    cfg: LanguageConfigView,
    from: int,
    to: int,
    k: int,
)
    requires
        0 <= k < calls_between(s, n, cfg, from, to).len(),
    ensures
        is_called(s, n, cfg, from, to, calls_between(s, n, cfg, from, to)[k]),
    decreases to - from,
{
    let head = calls_between(s, n, cfg, from, to - 1);
    if k < head.len() {
        lemma_calls_are_parts(s, n, cfg, from, to - 1, k);
        let j = choose|j: int|
            from <= j < to - 1 && cfg.call_expression_types.contains((#[trigger] n[j]).kind)
                && is_callee(s, n, j, head[k]);
        assert(is_callee(s, n, j, head[k]));
    } else {
        let c = callee_node(n, to - 1)->0;
        lemma_field(n, to - 1, "function"@);
        lemma_field(n, to - 1, "name"@);
        lemma_field(n, to - 1, "macro"@);
        lemma_field(n, to - 1, "constructor"@);
        lemma_field(n, to - 1, "type"@);
        lemma_last_segment(node_text(s, n, c)->0);
        assert(is_callee(s, n, to - 1, calls_between(s, n, cfg, from, to)[k]));
    }
}

/// Whether a name stands in the text of a node's `function`, `name`, `macro`,
/// `constructor` or `type`.
pub open spec fn is_callee(s: Seq<char>, n: Seq<TreeNodeView>, j: int, name: Seq<char>) -> bool {
    exists|c: int|
        0 <= c < n.len() && ((#[trigger] n[c]).field == Some("function"@) || n[c].field == Some(
            "name"@,
        ) || n[c].field == Some("macro"@) || n[c].field == Some("constructor"@) || n[c].field
            == Some("type"@)) && children_of(n, j).contains(c) && (text_between(
            s,
            n[c].start_byte as int,
            n[c].end_byte as int,
        ) matches Some(t) && occurs(t, name))
}

/// Whether one of the nodes from `from` up to `to` is a call of that name.
pub open spec fn is_called(
    s: Seq<char>,
    n: Seq<TreeNodeView>,
    cfg: LanguageConfigView,
    from: int,
    to: int,
    name: Seq<char>,
) -> bool {
    exists|j: int|
        from <= j < to && cfg.call_expression_types.contains((#[trigger] n[j]).kind) && is_callee(
            s,
            n,
            j,
            name,
        )
}

/// Whether a symbol is faithful to the node at `i`: its lines are those on which
/// the node begins and ends, its body ends with the node's text and begins no
/// later, its signature and its name stand in the file, and every name it refers
/// to is one that is called inside the node.
pub open spec fn is_faithful(
    content: Seq<char>,
    n: Seq<TreeNodeView>,
    cfg: LanguageConfigView,
    language: Seq<char>,
    sym: SymbolChunkView,
    i: int,
) -> bool {
    let a = char_at(content, n[i].start_byte as int);
    let b = char_at(content, n[i].end_byte as int);
    &&& 0 <= i < n.len()
    &&& is_symbol(cfg, n[i].kind)
    &&& sym.kind == kind_of(n[i].kind)
    &&& 0 <= a <= b <= content.len()
    &&& sym.start_line == 1 + feeds(content.take(a))
    &&& sym.end_line == 1 + feeds(content.take(b))
    &&& sym.end_line - sym.start_line == feeds(content.subrange(a, b))
    &&& has_suffix(sym.body, content.subrange(a, b))
    &&& has_suffix(content.take(b), sym.body)
    &&& sym.body.len() > b - a ==> (prev_sibling_of(n, i) matches Some(p)
        && cfg.comment_types.contains(n[p].kind))
    &&& language != "python"@ && sym.doc_comment is Some ==> (prev_sibling_of(n, i) matches Some(p)
        && cfg.comment_types.contains(n[p].kind))
    &&& sym.signature matches Some(g) ==> occurs(content.skip(a), g)
    &&& is_named(content, n, content.subrange(a, b), sym.name)
    &&& forall|k: int|
        0 <= k < sym.references.len() ==> is_called(
            content,
            n,
            cfg,
            i,
            subtree_end(n, i),
            #[trigger] sym.references[k],
        )
    &&& sym.references.no_duplicates()
}

/// Whether a name is the text of a node that is a `name`, or stands in the
/// symbol's own text, where that has any.
pub open spec fn is_named(
    content: Seq<char>,
    n: Seq<TreeNodeView>,
    own: Seq<char>,
    name: Seq<char>,
) -> bool {
    ||| exists|j: int|
        0 <= j < n.len() && (#[trigger] n[j]).field == Some("name"@) && text_between(
            content,
            n[j].start_byte as int,
            n[j].end_byte as int,
        ) == Some(name)
    ||| occurs(own, name)
    ||| own.len() == 0
}

proof fn lemma_signature(content: Seq<char>, n: Seq<TreeNodeView>, i: int)
    requires
        node_text(content, n, i) is Some,
    ensures
        signature_of(content, n, i) matches Some(g) ==> occurs(
            content.skip(char_at(content, n[i].start_byte as int)),
            g,
        ),
{
    let a = char_at(content, n[i].start_byte as int);
    assert(stands_at(content, n[i].start_byte as int, a));
    let rest = content.skip(a);
    if let Some(g) = signature_of(content, n, i) {
        let to_body = body_node(n, i) is Some && n[body_node(n, i)->0].start_byte
            > n[i].start_byte;
        let end = if to_body {
            n[body_node(n, i)->0].start_byte as int
        } else {
            n[i].end_byte as int
        };
        let t = text_between(content, n[i].start_byte as int, end)->0;
        let e = char_at(content, end);
        assert(stands_at(content, end, e));
        assert(t =~= rest.subrange(0, e - a));
        assert(occurs_at(rest, t, 0));
        if to_body {
            lemma_trimmed_is_part(t);
            lemma_part_of_part(g, t, rest);
        } else {
            lemma_first_line(t);
            let l = first_line(t)->0;
            lemma_trimmed_is_part(l);
            lemma_part_of_part(g, l, t);
            lemma_part_of_part(g, t, rest);
        }
    }
}

proof fn lemma_name(content: Seq<char>, n: Seq<TreeNodeView>, i: int)
    requires
        node_text(content, n, i) is Some,
    ensures
        ({
            let own = node_text(content, n, i)->0;
            let name = name_of(content, n, i);
            is_named(
                content,
                n,
                own,
                if name.len() == 0 {
                    stand_in_name(own)
                } else {
                    name
                },
            )
        }),
{
    let own = node_text(content, n, i)->0;
    let name = name_of(content, n, i);
    if name.len() == 0 {
        if own.len() > 0 {
            lemma_first_piece(own);
            lemma_first_line(own);
            if let Some(l) = first_line(own) {
                lemma_trimmed_is_part(l);
                let t = trimmed(l);
                let c = clipped(t, 60);
                assert(c =~= t.subrange(0, c.len() as int));
                assert(occurs_at(t, c, 0));
                lemma_part_of_part(c, t, l);
                lemma_part_of_part(c, l, own);
            }
        }
    } else {
        lemma_field(n, i, "name"@);
        if field_of(n, i, "name"@) is None && is_wrapper(n[i].kind) {
            let c = with_child_field(n, children_of(n, i), "name"@)->0;
            lemma_field(n, c, "name"@);
        }
        let j = name_node(n, i)->0;
        assert(0 <= j < n.len() && n[j].field == Some("name"@));
    }
}

proof fn lemma_symbol_is_faithful(
    content: Seq<char>,
    n: Seq<TreeNodeView>,
    cfg: LanguageConfigView,
    language: Seq<char>,
    sym: SymbolChunkView,
    i: int,
)
    requires
        0 <= i < n.len(),
        is_symbol(cfg, n[i].kind),
        symbol_of(content, n, cfg, language, i) == Some(sym),
        rows_count_feeds(content, n),
        feeds(content) < u32::MAX,
    ensures
        is_faithful(content, n, cfg, language, sym, i),
{
    let from = n[i].start_byte as int;
    let to = n[i].end_byte as int;
    let a = char_at(content, from);
    let b = char_at(content, to);
    assert(stands_at(content, from, a));
    assert(stands_at(content, to, b));
    lemma_lead(content, n, cfg, language, i);
    let lead = lead_of(content, n, cfg, language, i);
    let l = char_at(content, n[lead].start_byte as int);
    assert(stands_at(content, n[lead].start_byte as int, l));
    assert(content.take(a) + content.subrange(a, b) =~= content.take(b));
    assert(content.take(b) + content.skip(b) =~= content);
    lemma_feeds_add(content.take(a), content.subrange(a, b));
    lemma_feeds_add(content.take(b), content.skip(b));
    lemma_feeds_add(Seq::<char>::empty(), content.take(a));
    lemma_feeds_add(Seq::<char>::empty(), content.take(b));
    assert(sym.body == content.subrange(l, b));
    assert(sym.body.skip(sym.body.len() - (b - a)) =~= content.subrange(a, b));
    assert(content.take(b).skip(b - (b - l)) =~= sym.body);
    lemma_signature(content, n, i);
    lemma_name(content, n, i);
    let calls = calls_between(content, n, cfg, i, subtree_end(n, i));
    lemma_distinct(calls);
    assert forall|r: int| 0 <= r < sym.references.len() implies is_called(
        content,
        n,
        cfg,
        i,
        subtree_end(n, i),
        #[trigger] sym.references[r],
    ) by {
        assert(sym.references.contains(sym.references[r]));
        assert(calls.contains(sym.references[r]));
        let q = choose|q: int| 0 <= q < calls.len() && calls[q] == sym.references[r];
        lemma_calls_are_parts(content, n, cfg, i, subtree_end(n, i), q);
    }
}

/// Every symbol is a part of the file: its body is a stretch of the content,
/// and it refers to no name twice.
pub proof fn law_symbols_are_parts_of_the_file(
    file_path: Seq<char>,
    content: Seq<char>,
    language: Seq<char>,
    nodes: Option<Seq<TreeNodeView>>,
    k: int,
)
    requires
        0 <= k < chunks_of(file_path, content, language, nodes).symbols.len(),
    ensures
        ({
            let sym = chunks_of(file_path, content, language, nodes).symbols[k];
            &&& exists|a: int, b: int|
                0 <= a <= b <= content.len() && sym.body == #[trigger] content.subrange(a, b)
            &&& sym.references.no_duplicates()
        }),
{
    let n = nodes->0;
    let cfg = config_of(language)->0;
    let sym = chunks_of(file_path, content, language, nodes).symbols[k];
    lemma_children_range(n, n[0].depth as int, 1);
    lemma_symbols_from_nodes(content, n, cfg, language, top_nodes(n), k);
    let i = choose|i: int|
        0 <= i < n.len() && is_symbol(cfg, n[i].kind) && #[trigger] symbol_of(
            content,
            n,
            cfg,
            language,
            i,
        ) == Some(sym);
    lemma_text_is_a_stretch(
        content,
        n[lead_of(content, n, cfg, language, i)].start_byte as int,
        n[i].end_byte as int,
    );
    lemma_distinct(calls_between(content, n, cfg, i, subtree_end(n, i)));
}

/// Every symbol tells the truth about the node it is taken from: where it begins and ends, in lines as in text, what it is called,
/// and what it calls.
pub proof fn law_symbols_tell_the_truth(
    file_path: Seq<char>,
    content: Seq<char>,
    language: Seq<char>,
    nodes: Option<Seq<TreeNodeView>>,
    k: int,
)
    requires
        0 <= k < chunks_of(file_path, content, language, nodes).symbols.len(),
        rows_count_feeds(content, nodes->0),
        feeds(content) < u32::MAX,
    ensures
        exists|i: int|
            #[trigger] is_faithful(
                content,
                nodes->0,
                config_of(language)->0,
                language,
                chunks_of(file_path, content, language, nodes).symbols[k],
                i,
            ),
{
    let n = nodes->0;
    let cfg = config_of(language)->0;
    let sym = chunks_of(file_path, content, language, nodes).symbols[k];
    lemma_children_range(n, n[0].depth as int, 1);
    lemma_symbols_from_nodes(content, n, cfg, language, top_nodes(n), k);
    let i = choose|i: int|
        0 <= i < n.len() && is_symbol(cfg, n[i].kind) && #[trigger] symbol_of(
            content,
            n,
            cfg,
            language,
            i,
        ) == Some(sym);
    lemma_symbol_is_faithful(content, n, cfg, language, sym, i);
}

/// A file without a grammar, or without a tree, is kept whole: its content
/// stands, and there are no symbols and no imports.
pub proof fn law_unparsed_files_are_kept_whole(
    file_path: Seq<char>,
    content: Seq<char>,
    language: Seq<char>,
    nodes: Option<Seq<TreeNodeView>>,
)
    ensures
        chunks_of(file_path, content, language, nodes).file_content == content,
        config_of(language) is None || nodes is None ==> chunks_of(
            file_path,
            content,
            language,
            nodes,
        ).symbols.len() == 0 && chunks_of(file_path, content, language, nodes).imports.len() == 0,
{
}

/// A file taken apart is still the file: its path, its language and its whole
/// content.
pub proof fn law_files_keep_their_content(
    file_path: Seq<char>,
    content: Seq<char>,
    language: Seq<char>,
    nodes: Option<Seq<TreeNodeView>>,
)
    ensures
        ({
            let c = chunks_of(file_path, content, language, nodes);
            &&& c.file_path == file_path
            &&& c.language == language
            &&& c.file_content == content
        }),
{
}

proof fn lemma_symbols_at(
    s: Seq<char>,
    n: Seq<TreeNodeView>,
    cfg: LanguageConfigView,
    language: Seq<char>,
    at: Seq<int>,
    i: int,
    sym: SymbolChunkView,
)
    requires
        at.contains(i),
        symbols_at(s, n, cfg, language, i).contains(sym),
    ensures
        symbols_of(s, n, cfg, language, at).contains(sym),
    decreases at.len(),
{
    let head = symbols_of(s, n, cfg, language, at.drop_last());
    let more = symbols_at(s, n, cfg, language, at.last());
    let all = symbols_of(s, n, cfg, language, at);
    let k = choose|k: int| 0 <= k < at.len() && at[k] == i;
    if k < at.len() - 1 {
        assert(at.drop_last()[k] == i);
        lemma_symbols_at(s, n, cfg, language, at.drop_last(), i, sym);
        let m = choose|m: int| 0 <= m < head.len() && head[m] == sym;
        assert(all[m] == sym);
    } else {
        let m = choose|m: int| 0 <= m < more.len() && more[m] == sym;
        assert(all[head.len() + m] == sym);
    }
}

proof fn lemma_member_found(
    s: Seq<char>,
    n: Seq<TreeNodeView>,
    cfg: LanguageConfigView,
    language: Seq<char>,
    at: Seq<int>,
    i: int,
    sym: SymbolChunkView,
)
    requires
        at.contains(i),
        is_member(cfg, n[i].kind),
        symbol_of(s, n, cfg, language, i) == Some(sym),
    ensures
        member_symbols(s, n, cfg, language, at).contains(sym),
    decreases at.len(),
{
    let head = member_symbols(s, n, cfg, language, at.drop_last());
    let all = member_symbols(s, n, cfg, language, at);
    let k = choose|k: int| 0 <= k < at.len() && at[k] == i;
    if k < at.len() - 1 {
        assert(at.drop_last()[k] == i);
        lemma_member_found(s, n, cfg, language, at.drop_last(), i, sym);
        let m = choose|m: int| 0 <= m < head.len() && head[m] == sym;
        assert(all[m] == sym);
    } else {
        assert(all[head.len() as int] == sym);
    }
}

/// No symbol is passed over: every child of the root that is of a symbol's type,
/// and every member of one that is a container, is among the symbols, if it has a
/// name and its text can be read; and the symbol is faithful to that very node.
pub proof fn law_every_symbol_is_found(
    file_path: Seq<char>,
    content: Seq<char>,
    language: Seq<char>,
    nodes: Seq<TreeNodeView>,
    i: int,
    j: int,
)
    requires
        config_of(language) is Some,
        nodes.len() > 0,
        rows_count_feeds(content, nodes),
        feeds(content) < u32::MAX,
        children_of(nodes, 0).contains(i),
        ({
            let cfg = config_of(language)->0;
            ||| i == j && cfg.symbol_types.contains(nodes[j].kind)
            ||| {
                &&& cfg.container_types.contains(nodes[i].kind)
                &&& children_of(nodes, container_body(nodes, i)).contains(j)
                &&& is_member(cfg, nodes[j].kind)
            }
        }),
        name_of(content, nodes, j).len() > 0 || is_wrapper(nodes[j].kind),
        node_text(content, nodes, j) is Some,
    ensures
        exists|k: int|
            0 <= k < chunks_of(file_path, content, language, Some(nodes)).symbols.len()
                && is_faithful(
                content,
                nodes,
                config_of(language)->0,
                language,
                #[trigger] chunks_of(file_path, content, language, Some(nodes)).symbols[k],
                j,
            ),
{
    let cfg = config_of(language)->0;
    let at = children_of(nodes, 0);
    let sym = symbol_of(content, nodes, cfg, language, j)->0;
    lemma_is_symbol(content, nodes, cfg, language, j);
    lemma_found_at(content, nodes, cfg, language, i, j, sym);
    lemma_symbols_at(content, nodes, cfg, language, at, i, sym);
    lemma_symbol_is_faithful(content, nodes, cfg, language, sym, j);
    let symbols = chunks_of(file_path, content, language, Some(nodes)).symbols;
    assert(symbols == symbols_of(content, nodes, cfg, language, at));
    let k = choose|k: int| 0 <= k < symbols.len() && symbols[k] == sym;
    assert(is_faithful(content, nodes, cfg, language, symbols[k], j));
}

proof fn lemma_is_symbol(
    content: Seq<char>,
    n: Seq<TreeNodeView>,
    cfg: LanguageConfigView,
    language: Seq<char>,
    j: int,
)
    requires
        name_of(content, n, j).len() > 0 || is_wrapper(n[j].kind),
        node_text(content, n, j) is Some,
    ensures
        symbol_of(content, n, cfg, language, j) is Some,
{
    let a = char_at(content, n[j].start_byte as int);
    assert(stands_at(content, n[j].start_byte as int, a));
    lemma_lead(content, n, cfg, language, j);
    assert(body_text(content, n, cfg, language, j) is Some);
}

proof fn lemma_found_at(
    content: Seq<char>,
    n: Seq<TreeNodeView>,
    cfg: LanguageConfigView,
    language: Seq<char>,
    i: int,
    j: int,
    sym: SymbolChunkView,
)
    requires
        n.len() > 0,
        children_of(n, 0).contains(i),
        ({
            ||| i == j && cfg.symbol_types.contains(n[j].kind)
            ||| {
                &&& cfg.container_types.contains(n[i].kind)
                &&& children_of(n, container_body(n, i)).contains(j)
                &&& is_member(cfg, n[j].kind)
            }
        }),
        symbol_of(content, n, cfg, language, j) == Some(sym),
    ensures
        symbols_at(content, n, cfg, language, i).contains(sym),
        0 <= j < n.len(),
        is_symbol(cfg, n[j].kind),
{
    let here = symbols_at(content, n, cfg, language, i);
    if i == j && cfg.symbol_types.contains(n[j].kind) {
        let at = children_of(n, 0);
        lemma_children_range(n, n[0].depth as int, 1);
        assert(here[0] == sym);
        let k = choose|k: int| 0 <= k < at.len() && at[k] == i;
        assert(0 <= at[k] < n.len());
    } else {
        let own = if cfg.symbol_types.contains(n[i].kind) {
            if_symbol(symbol_of(content, n, cfg, language, i))
        } else {
            Seq::<SymbolChunkView>::empty()
        };
        let body = container_body(n, i);
        let inner = children_of(n, body);
        lemma_children_range(n, n[body].depth as int, body + 1);
        lemma_member_found(content, n, cfg, language, inner, j, sym);
        let members = member_symbols(content, n, cfg, language, inner);
        let m = choose|m: int| 0 <= m < members.len() && members[m] == sym;
        assert(here == own + members);
        assert(here[own.len() + m] == sym);
        let k = choose|k: int| 0 <= k < inner.len() && inner[k] == j;
        assert(0 <= inner[k] < n.len());
    }
}

/// A symbol's doc comment is the prose of the comment right above it; in Python it
/// is the prose of its docstring. A blank one counts as none.
pub proof fn law_doc_comments_stand_above(
    content: Seq<char>,
    n: Seq<TreeNodeView>,
    cfg: LanguageConfigView,
    language: Seq<char>,
    i: int,
)
    ensures
        doc_of(content, n, cfg, language, i) matches Some(d) ==> d.len() > 0,
        language != "python"@ ==> (doc_of(content, n, cfg, language, i) matches Some(d) ==> (
        prev_sibling_of(n, i) matches Some(p) && node_text(content, n, p) matches Some(t) && d
            == prose_of(t, language))),
{
}

proof fn lemma_imports(
    s: Seq<char>,
    n: Seq<TreeNodeView>,
    cfg: LanguageConfigView,
    at: Seq<int>,
    x: ImportView,
)
    ensures
        imports_of(s, n, cfg, at).contains(x) <==> exists|k: int|
            {
                &&& 0 <= k < at.len()
                &&& cfg.import_types.contains(n[#[trigger] at[k]].kind)
                &&& node_text(s, n, at[k]) matches Some(t)
                &&& x.module == trimmed(t)
                &&& x.names == Seq::<Seq<char>>::empty()
            },
    decreases at.len(),
{
    if at.len() > 0 {
        let head = at.drop_last();
        let m = head.len() as int;
        lemma_imports(s, n, cfg, head, x);
        assert(forall|k: int| 0 <= k < m ==> #[trigger] at[k] == head[k]);
        let before = imports_of(s, n, cfg, head);
        let all = imports_of(s, n, cfg, at);
        if before.contains(x) {
            let q = choose|q: int| 0 <= q < before.len() && before[q] == x;
            assert(all[q] == x);
            let k = choose|k: int|
                {
                    &&& 0 <= k < head.len()
                    &&& cfg.import_types.contains(n[#[trigger] head[k]].kind)
                    &&& node_text(s, n, head[k]) matches Some(t)
                    &&& x.module == trimmed(t)
                    &&& x.names == Seq::<Seq<char>>::empty()
                };
            assert(at[k] == head[k]);
        }
        if all.contains(x) && !before.contains(x) {
            let q = choose|q: int| 0 <= q < all.len() && all[q] == x;
            if q < before.len() {
                assert(before[q] == x);
            }
            assert(at[m] == at.last());
        }
        if exists|k: int|
            {
                &&& 0 <= k < at.len()
                &&& cfg.import_types.contains(n[#[trigger] at[k]].kind)
                &&& node_text(s, n, at[k]) matches Some(t)
                &&& x.module == trimmed(t)
                &&& x.names == Seq::<Seq<char>>::empty()
            } {
            let k = choose|k: int|
                {
                    &&& 0 <= k < at.len()
                    &&& cfg.import_types.contains(n[#[trigger] at[k]].kind)
                    &&& node_text(s, n, at[k]) matches Some(t)
                    &&& x.module == trimmed(t)
                    &&& x.names == Seq::<Seq<char>>::empty()
                };
            if k < m {
                assert(head[k] == at[k]);
            } else {
                assert(all[before.len() as int] == x);
            }
        }
    }
}

/// The imports of a file are the import statements among the children of the root,
/// each by its whole text; there are no others.
pub proof fn law_imports_are_the_statements(
    file_path: Seq<char>,
    content: Seq<char>,
    language: Seq<char>,
    nodes: Seq<TreeNodeView>,
    x: ImportView,
)
    requires
        config_of(language) is Some,
        nodes.len() > 0,
    ensures
        chunks_of(file_path, content, language, Some(nodes)).imports.contains(x) <==> exists|k: int|
            {
                &&& 0 <= k < children_of(nodes, 0).len()
                &&& config_of(language)->0.import_types.contains(
                    nodes[#[trigger] children_of(nodes, 0)[k]].kind,
                )
                &&& node_text(content, nodes, children_of(nodes, 0)[k]) matches Some(t)
                &&& x.module == trimmed(t)
                &&& x.names == Seq::<Seq<char>>::empty()
            },
{
    lemma_imports(content, nodes, config_of(language)->0, children_of(nodes, 0), x);
}

/// A symbol begins at a comment above it exactly if that is a doc comment of the
/// language that adjoins it, with no blank line between; and then it begins where
/// that comment itself would.
pub proof fn law_adjoining_doc_comments_lead(
    content: Seq<char>,
    n: Seq<TreeNodeView>,
    cfg: LanguageConfigView,
    language: Seq<char>,
    i: int,
)
    ensures
        match prev_sibling_of(n, i) {
            Some(p) => match text_between(
                content,
                n[p].start_byte as int,
                n[i].start_byte as int,
            ) {
                Some(t) => if cfg.comment_types.contains(n[p].kind) && is_doc_comment(t, language)
                    && feeds(t.skip(trimmed_end(t).len() as int)) <= 1 {
                    lead_of(content, n, cfg, language, i) == lead_of(content, n, cfg, language, p)
                } else {
                    lead_of(content, n, cfg, language, i) == i
                },
                None => lead_of(content, n, cfg, language, i) == i,
            },
            None => lead_of(content, n, cfg, language, i) == i,
        },
{
    lemma_prev_sibling(n, i);
    if let Some(p) = prev_sibling_of(n, i) {
        if let Some(t) = text_between(content, n[p].start_byte as int, n[i].start_byte as int) {
            lemma_blank_line(t.skip(trimmed_end(t).len() as int));
        }
    }
}

proof fn lemma_blank_line(tail: Seq<char>)
    ensures
        position(tail, '\n') != last_position(tail, '\n') <==> feeds(tail) >= 2,
        feeds(tail) == 0 <==> position(tail, '\n') is None,
        feeds(tail) >= 0,
    decreases tail.len(),
{
    law_first_position(tail, '\n');
    law_last_position(tail, '\n');
    if tail.len() > 0 {
        let h = tail.drop_last();
        lemma_blank_line(h);
        law_first_position(h, '\n');
        law_last_position(h, '\n');
    }
}

/// The doc comment of a file is made of the comments at its beginning: the prose of
/// each, if it has any, is in it.
pub proof fn law_module_docs_hold_the_leading_comments(
    content: Seq<char>,
    n: Seq<TreeNodeView>,
    cfg: LanguageConfigView,
    language: Seq<char>,
    k: int,
)
    requires
        n.len() > 0,
        language != "python"@,
        0 <= k < children_of(n, 0).len(),
        forall|j: int|
            0 <= j <= k ==> cfg.comment_types.contains(n[#[trigger] children_of(n, 0)[j]].kind),
        node_text(content, n, children_of(n, 0)[k]) is Some,
        prose_of(node_text(content, n, children_of(n, 0)[k])->0, language).len() > 0,
    ensures
        module_doc_of(content, n, cfg, language) matches Some(d) && occurs(
            d,
            prose_of(node_text(content, n, children_of(n, 0)[k])->0, language),
        ),
{
    let at = children_of(n, 0);
    lemma_leading_docs(content, n, cfg, language, at, k);
    let docs = leading_docs(content, n, cfg, language, at);
    let p = prose_of(node_text(content, n, at[k])->0, language);
    let m = choose|m: int| 0 <= m < docs.len() && docs[m] == p;
    lemma_joined_holds(docs, "\n"@, m);
}

proof fn lemma_leading_docs(
    s: Seq<char>,
    n: Seq<TreeNodeView>,
    cfg: LanguageConfigView,
    language: Seq<char>,
    at: Seq<int>,
    k: int,
)
    requires
        0 <= k < at.len(),
        forall|j: int| 0 <= j <= k ==> cfg.comment_types.contains(n[#[trigger] at[j]].kind),
        node_text(s, n, at[k]) is Some,
        prose_of(node_text(s, n, at[k])->0, language).len() > 0,
    ensures
        leading_docs(s, n, cfg, language, at).contains(
            prose_of(node_text(s, n, at[k])->0, language),
        ),
    decreases k,
{
    let all = leading_docs(s, n, cfg, language, at);
    let p = prose_of(node_text(s, n, at[k])->0, language);
    assert(cfg.comment_types.contains(n[at[0]].kind));
    if k == 0 {
        assert(all[0] == p);
    } else {
        let tail = at.drop_first();
        assert forall|j: int| 0 <= j <= k - 1 implies cfg.comment_types.contains(
            n[#[trigger] tail[j]].kind,
        ) by {
            assert(tail[j] == at[j + 1]);
        }
        lemma_leading_docs(s, n, cfg, language, tail, k - 1);
        let rest = leading_docs(s, n, cfg, language, tail);
        let m = choose|m: int| 0 <= m < rest.len() && rest[m] == p;
        if all.len() == rest.len() {
            assert(all[m] == p);
        } else {
            assert(all[m + 1] == p);
        }
    }
}

/// A comment that is not at the beginning is no doc comment of the file: without one
/// there, the file has none.
pub proof fn law_module_docs_stand_at_the_beginning(
    content: Seq<char>,
    n: Seq<TreeNodeView>,
    cfg: LanguageConfigView,
    language: Seq<char>,
)
    requires
        language != "python"@,
        n.len() > 0,
        children_of(n, 0).len() > 0 ==> !cfg.comment_types.contains(n[children_of(n, 0)[0]].kind),
    ensures
        module_doc_of(content, n, cfg, language) is None,
{
}

/// The kind of a node is the word that its type begins with, or the type itself; a
/// module is written out, a lexical declaration is a variable, and a decorated
/// definition counts as a function.
pub proof fn law_kinds_begin_their_types(t: Seq<char>)
    ensures
        t == "mod_item"@ || t == "lexical_declaration"@ || t == "decorated_definition"@
            || has_prefix(t, kind_of(t)),
{
    assert(t.take(t.len() as int) =~= t);
    reveal_strlit("function");
    reveal_strlit("function_declaration");
    assert("function_declaration"@.take(8) =~= "function"@);
    reveal_strlit("function_definition");
    assert("function_definition"@.take(8) =~= "function"@);
    reveal_strlit("function_item");
    assert("function_item"@.take(8) =~= "function"@);
    reveal_strlit("method");
    reveal_strlit("method_declaration");
    assert("method_declaration"@.take(6) =~= "method"@);
    reveal_strlit("method_definition");
    assert("method_definition"@.take(6) =~= "method"@);
    reveal_strlit("struct");
    reveal_strlit("struct_item");
    assert("struct_item"@.take(6) =~= "struct"@);
    reveal_strlit("struct_specifier");
    assert("struct_specifier"@.take(6) =~= "struct"@);
    reveal_strlit("struct_declaration");
    assert("struct_declaration"@.take(6) =~= "struct"@);
    reveal_strlit("enum");
    reveal_strlit("enum_item");
    assert("enum_item"@.take(4) =~= "enum"@);
    reveal_strlit("enum_specifier");
    assert("enum_specifier"@.take(4) =~= "enum"@);
    reveal_strlit("enum_declaration");
    assert("enum_declaration"@.take(4) =~= "enum"@);
    reveal_strlit("trait");
    reveal_strlit("trait_item");
    assert("trait_item"@.take(5) =~= "trait"@);
    reveal_strlit("interface");
    reveal_strlit("interface_declaration");
    assert("interface_declaration"@.take(9) =~= "interface"@);
    reveal_strlit("class");
    reveal_strlit("class_declaration");
    assert("class_declaration"@.take(5) =~= "class"@);
    reveal_strlit("class_specifier");
    assert("class_specifier"@.take(5) =~= "class"@);
    reveal_strlit("class_definition");
    assert("class_definition"@.take(5) =~= "class"@);
    reveal_strlit("type");
    reveal_strlit("type_declaration");
    assert("type_declaration"@.take(4) =~= "type"@);
    reveal_strlit("type_alias_declaration");
    assert("type_alias_declaration"@.take(4) =~= "type"@);
    reveal_strlit("type_item");
    assert("type_item"@.take(4) =~= "type"@);
    reveal_strlit("const");
    reveal_strlit("const_item");
    assert("const_item"@.take(5) =~= "const"@);
    reveal_strlit("const_declaration");
    assert("const_declaration"@.take(5) =~= "const"@);
    reveal_strlit("namespace");
    reveal_strlit("namespace_definition");
    assert("namespace_definition"@.take(9) =~= "namespace"@);
    reveal_strlit("impl");
    reveal_strlit("impl_item");
    assert("impl_item"@.take(4) =~= "impl"@);
    reveal_strlit("constructor");
    reveal_strlit("constructor_declaration");
    assert("constructor_declaration"@.take(11) =~= "constructor"@);
    reveal_strlit("var");
    reveal_strlit("var_declaration");
    assert("var_declaration"@.take(3) =~= "var"@);
    reveal_strlit("export");
    reveal_strlit("export_statement");
    assert("export_statement"@.take(6) =~= "export"@);
    reveal_strlit("static");
    reveal_strlit("static_item");
    assert("static_item"@.take(6) =~= "static"@);
    reveal_strlit("declaration");
    assert("declaration"@.take(11) =~= "declaration"@);
}

/// What is told of an import stands in the file.
pub proof fn law_imports_are_parts_of_the_file(
    file_path: Seq<char>,
    content: Seq<char>,
    language: Seq<char>,
    nodes: Seq<TreeNodeView>,
    k: int,
)
    requires
        config_of(language) is Some,
        nodes.len() > 0,
        0 <= k < chunks_of(file_path, content, language, Some(nodes)).imports.len(),
    ensures
        occurs(content, chunks_of(file_path, content, language, Some(nodes)).imports[k].module),
{
    let imports = chunks_of(file_path, content, language, Some(nodes)).imports;
    let x = imports[k];
    let at = children_of(nodes, 0);
    assert(imports.contains(x));
    lemma_imports(content, nodes, config_of(language)->0, at, x);
    let j = choose|j: int|
        {
            &&& 0 <= j < at.len()
            &&& config_of(language)->0.import_types.contains(nodes[#[trigger] at[j]].kind)
            &&& node_text(content, nodes, at[j]) matches Some(t)
            &&& x.module == trimmed(t)
            &&& x.names == Seq::<Seq<char>>::empty()
        };
    let t = node_text(content, nodes, at[j])->0;
    lemma_text_is_a_stretch(content, nodes[at[j]].start_byte as int, nodes[at[j]].end_byte as int);
    let (a, b) = choose|a: int, b: int|
        0 <= a <= b <= content.len() && t == #[trigger] content.subrange(a, b);
    assert(occurs_at(content, t, a));
    lemma_trimmed_is_part(t);
    lemma_part_of_part(x.module, t, content);
}

proof fn lemma_call_is_listed(
    s: Seq<char>,
    n: Seq<TreeNodeView>,
    cfg: LanguageConfigView,
    from: int,
    to: int,
    j: int,
)
    requires
        from <= j < to,
        cfg.call_expression_types.contains(n[j].kind),
        callee_of(s, n, j) is Some,
    ensures
        calls_between(s, n, cfg, from, to).contains(callee_of(s, n, j)->0),
    decreases to - from,
{
    let head = calls_between(s, n, cfg, from, to - 1);
    let all = calls_between(s, n, cfg, from, to);
    if j < to - 1 {
        lemma_call_is_listed(s, n, cfg, from, to - 1, j);
        let k = choose|k: int| 0 <= k < head.len() && head[k] == callee_of(s, n, j)->0;
        assert(all[k] == head[k]);
    } else {
        assert(all[head.len() as int] == callee_of(s, n, j)->0);
    }
}

/// No call is passed over: of every call inside a symbol's node that says in its
/// `function`, or else in its `name`, what it calls, the last segment of that text is
/// among the symbol's references.
pub proof fn law_every_call_is_a_reference(
    content: Seq<char>,
    n: Seq<TreeNodeView>,
    cfg: LanguageConfigView,
    language: Seq<char>,
    sym: SymbolChunkView,
    i: int,
    j: int,
    c: int,
)
    requires
        0 <= i < n.len(),
        symbol_of(content, n, cfg, language, i) == Some(sym),
        i <= j < subtree_end(n, i),
        cfg.call_expression_types.contains(n[j].kind),
        field_of(n, j, "function"@) == Some(c) || (field_of(n, j, "function"@) is None && field_of(
            n,
            j,
            "name"@,
        ) == Some(c)),
        text_between(content, n[c].start_byte as int, n[c].end_byte as int) is Some,
        last_segment(
            text_between(content, n[c].start_byte as int, n[c].end_byte as int)->0,
        ).len() > 0,
    ensures
        sym.references.contains(
            last_segment(text_between(content, n[c].start_byte as int, n[c].end_byte as int)->0),
        ),
{
    let calls = calls_between(content, n, cfg, i, subtree_end(n, i));
    lemma_call_is_listed(content, n, cfg, i, subtree_end(n, i), j);
    lemma_distinct(calls);
}

/// A symbol is called what its `name` says: the first child of its node in that field
/// gives the name, if its text is not empty.
pub proof fn law_symbols_go_by_their_names(
    content: Seq<char>,
    n: Seq<TreeNodeView>,
    cfg: LanguageConfigView,
    language: Seq<char>,
    sym: SymbolChunkView,
    i: int,
    k: int,
)
    requires
        symbol_of(content, n, cfg, language, i) == Some(sym),
        0 <= k < children_of(n, i).len(),
        n[children_of(n, i)[k]].field == Some("name"@),
        forall|m: int|
            0 <= m < k ==> n[#[trigger] children_of(n, i)[m]].field != Some("name"@),
        node_text(content, n, children_of(n, i)[k]) is Some,
        node_text(content, n, children_of(n, i)[k])->0.len() > 0,
    ensures
        Some(sym.name) == node_text(content, n, children_of(n, i)[k]),
{
    lemma_first_with_field(n, children_of(n, i), "name"@, k);
}

proof fn lemma_first_with_field(n: Seq<TreeNodeView>, at: Seq<int>, name: Seq<char>, k: int)
    requires
        0 <= k < at.len(),
        n[at[k]].field == Some(name),
        forall|m: int| 0 <= m < k ==> n[#[trigger] at[m]].field != Some(name),
    ensures
        with_field(n, at, name) == Some(at[k]),
    decreases k,
{
    if k > 0 {
        let rest = at.drop_first();
        assert(n[at[0]].field != Some(name));
        assert forall|m: int| 0 <= m < k - 1 implies n[#[trigger] rest[m]].field != Some(
            name,
        ) by {
            assert(rest[m] == at[m + 1]);
        }
        lemma_first_with_field(n, rest, name, k - 1);
    }
}

/// Where a symbol has a body, its signature is all that stands before the body but
/// for the whitespace between them.
pub proof fn law_signatures_end_before_the_body(
    content: Seq<char>,
    n: Seq<TreeNodeView>,
    i: int,
    b: int,
)
    requires
        body_node(n, i) == Some(b),
        n[b].start_byte > n[i].start_byte,
        text_between(content, n[i].start_byte as int, n[b].start_byte as int) is Some,
    ensures
        ({
            let head = text_between(content, n[i].start_byte as int, n[b].start_byte as int)->0;
            match signature_of(content, n, i) {
                Some(g) => {
                    &&& has_prefix(head, g)
                    &&& g.len() > 0 ==> !is_white(g.last())
                    &&& forall|k: int| g.len() <= k < head.len() ==> is_white(#[trigger] head[k])
                },
                None => false,
            }
        }),
{
    let head = text_between(content, n[i].start_byte as int, n[b].start_byte as int)->0;
    lemma_trimmed_end_white(head);
    lemma_trimmed_is_part(head);
    let g = trimmed_end(head);
    assert(head.take(g.len() as int) == g);
}

/// A comment right above a symbol that says anything is its doc comment.
pub proof fn law_comments_above_are_doc_comments(
    content: Seq<char>,
    n: Seq<TreeNodeView>,
    cfg: LanguageConfigView,
    language: Seq<char>,
    i: int,
    p: int,
)
    requires
        language != "python"@,
        prev_sibling_of(n, i) == Some(p),
        cfg.comment_types.contains(n[p].kind),
        node_text(content, n, p) is Some,
        prose_of(node_text(content, n, p)->0, language).len() > 0,
    ensures
        doc_of(content, n, cfg, language, i) == Some(
            prose_of(node_text(content, n, p)->0, language),
        ),
{
}

} // verus!
