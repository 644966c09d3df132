//! AST-aware code chunking: a file as a whole, and its symbols.
use vstd::prelude::*;

use crate::text::{from_chars, last_position, law_last_position, rfind_char, same, to_chars};

pub mod comments;
pub mod languages;
pub mod syntax;
pub mod tree_sitter;

pub use crate::chunk::tree_sitter::TreeSitterChunker;

verus! {

/// An import of a file.
#[derive(PartialEq, Eq, Debug)]
pub struct Import {
    /// The text of the import.
    pub module: String,
    /// Specific names imported; empty if the whole module is.
    pub names: Vec<String>,
}

/// What a [`Import`] holds.
#[verifier::ext_equal]
pub struct ImportView {
    pub module: Seq<char>,
    pub names: Seq<Seq<char>>,
}

impl DeepView for Import {
    type V = ImportView;

    open spec fn deep_view(&self) -> ImportView {
        ImportView {
            module: self.module@,
            names: self.names.deep_view(),
        }
    }
}

impl Clone for Import {
    fn clone(&self) -> (r: Self)
        ensures
            r.deep_view() == self.deep_view(),
    {
        Import {
            module: self.module.clone(),
            names: self.names.clone(),
        }
    }
}

/// A symbol of a file: a function, method, struct, trait, enum and so on, with
/// its full body and any doc comment that leads it.
#[derive(Debug)]
pub struct SymbolChunk {
    /// The identifier.
    pub name: String,
    /// Normalized kind: `function`, `method`, `struct` and so on.
    pub kind: String,
    /// Full text of the symbol, with any doc comment that leads it.
    pub body: String,
    /// The signature, where one can be told apart.
    pub signature: Option<String>,
    /// The doc comment as prose.
    pub doc_comment: Option<String>,
    /// Lines in the source file, counted from one.
    pub start_line: u32,
    pub end_line: u32,
    /// Names called in the body, unresolved.
    pub references: Vec<String>,
}

/// What a [`SymbolChunk`] holds.
#[verifier::ext_equal]
pub struct SymbolChunkView {
    pub name: Seq<char>,
    pub kind: Seq<char>,
    pub body: Seq<char>,
    pub signature: Option<Seq<char>>,
    pub doc_comment: Option<Seq<char>>,
    pub start_line: u32,
    pub end_line: u32,
    pub references: Seq<Seq<char>>,
}

impl DeepView for SymbolChunk {
    type V = SymbolChunkView;

    open spec fn deep_view(&self) -> SymbolChunkView {
        SymbolChunkView {
            name: self.name@,
            kind: self.kind@,
            body: self.body@,
            signature: self.signature.deep_view(),
            doc_comment: self.doc_comment.deep_view(),
            start_line: self.start_line,
            end_line: self.end_line,
            references: self.references.deep_view(),
        }
    }
}

impl Clone for SymbolChunk {
    fn clone(&self) -> (r: Self)
        ensures
            r.deep_view() == self.deep_view(),
    {
        SymbolChunk {
            name: self.name.clone(),
            kind: self.kind.clone(),
            body: self.body.clone(),
            signature: self.signature.clone(),
            doc_comment: self.doc_comment.clone(),
            start_line: self.start_line,
            end_line: self.end_line,
            references: self.references.clone(),
        }
    }
}

/// A file taken apart.
#[derive(Debug)]
pub struct FileChunks {
    pub file_path: String,
    pub language: String,
    pub file_content: String,
    /// The module's doc comment as prose.
    pub module_doc: Option<String>,
    pub imports: Vec<Import>,
    pub symbols: Vec<SymbolChunk>,
}

/// What a [`FileChunks`] holds.
#[verifier::ext_equal]
pub struct FileChunksView {
    pub file_path: Seq<char>,
    pub language: Seq<char>,
    pub file_content: Seq<char>,
    pub module_doc: Option<Seq<char>>,
    pub imports: Seq<ImportView>,
    pub symbols: Seq<SymbolChunkView>,
}

impl DeepView for FileChunks {
    type V = FileChunksView;

    open spec fn deep_view(&self) -> FileChunksView {
        FileChunksView {
            file_path: self.file_path@,
            language: self.language@,
            file_content: self.file_content@,
            module_doc: self.module_doc.deep_view(),
            imports: self.imports.deep_view(),
            symbols: self.symbols.deep_view(),
        }
    }
}

impl Clone for FileChunks {
    fn clone(&self) -> (r: Self)
        ensures
            r.deep_view() == self.deep_view(),
    {
        FileChunks {
            file_path: self.file_path.clone(),
            language: self.language.clone(),
            file_content: self.file_content.clone(),
            module_doc: self.module_doc.clone(),
            imports: self.imports.clone(),
            symbols: self.symbols.clone(),
        }
    }
}

/// The parser refuses a grammar.
#[derive(Debug)]
pub struct ChunkError {
    pub language: String,
    pub cause: String,
}

impl ChunkError {
    /// The error as text.
    pub fn message(&self) -> (r: String)
        ensures
            r@ == "failed to set language for "@ + self.language@ + ": "@ + self.cause@,
    {
        let mut r = "failed to set language for ".to_string();
        r.append(self.language.as_str());
        r.append(": ");
        r.append(self.cause.as_str());
        r
    }
}

/// Takes source files apart.
pub trait Chunker: Send + Sync {
    fn chunk(&self, file_path: &str, content: &str, language: &str) -> Result<
        FileChunks,
        ChunkError,
    >;
}

/// The language of a file extension.
pub open spec fn language_of(ext: Seq<char>) -> Option<Seq<char>> {
    if ext == "rs"@ {
        Some("rust"@)
    } else if ext == "go"@ {
        Some("go"@)
    } else if ext == "ts"@ {
        Some("typescript"@)
    } else if ext == "tsx"@ {
        Some("tsx"@)
    } else if ext == "js"@ || ext == "jsx"@ {
        Some("javascript"@)
    } else if ext == "py"@ {
        Some("python"@)
    } else if ext == "java"@ {
        Some("java"@)
    } else if ext == "c"@ || ext == "h"@ {
        Some("c"@)
    } else if ext == "cc"@ || ext == "cpp"@ || ext == "cxx"@ || ext == "hpp"@ || ext == "hxx"@
        || ext == "hh"@ {
        Some("cpp"@)
    } else if ext == "cs"@ {
        Some("csharp"@)
    } else if ext == "svelte"@ {
        Some("svelte"@)
    } else {
        None
    }
}

/// The language of a file by its extension: what stands after the last `.`.
pub open spec fn path_language(path: Seq<char>) -> Option<Seq<char>> {
    match last_position(path, '.') {
        Some(i) => language_of(path.skip(i + 1)),
        None => None,
    }
}

/// Detects the language of a file by its extension. There is none for a file
/// without an extension, or with one that is not known.
pub fn detect_language(file_path: &str) -> (r: Option<&'static str>)
    ensures
        r.deep_view() == path_language(file_path@),
{
    let v = to_chars(file_path);
    let n: usize = v.len();
    let e = match rfind_char(v.as_slice(), '.') {
        Some(i) => from_chars(v.as_slice(), i + 1, n),
        None => {
            return None;
        },
    };
    assert(e@ =~= file_path@.skip(last_position(file_path@, '.')->0 + 1));
    let ext = e.as_str();
    if same(ext, "rs") {
        Some("rust")
    } else if same(ext, "go") {
        Some("go")
    } else if same(ext, "ts") {
        Some("typescript")
    } else if same(ext, "tsx") {
        Some("tsx")
    } else if same(ext, "js") || same(ext, "jsx") {
        Some("javascript")
    } else if same(ext, "py") {
        Some("python")
    } else if same(ext, "java") {
        Some("java")
    } else if same(ext, "c") || same(ext, "h") {
        Some("c")
    } else if same(ext, "cc") || same(ext, "cpp") || same(ext, "cxx") || same(ext, "hpp") || same(
        ext,
        "hxx",
    ) || same(ext, "hh") {
        Some("cpp")
    } else if same(ext, "cs") {
        Some("csharp")
    } else if same(ext, "svelte") {
        Some("svelte")
    } else {
        None
    }
}

/// The language of a path is that of its extension, whatever stands before the last
/// dot; a path without a dot has none.
pub proof fn law_language_goes_by_the_extension(stem: Seq<char>, ext: Seq<char>)
    requires
        !ext.contains('.'),
    ensures
        path_language(stem.push('.') + ext) == language_of(ext),
        path_language(ext) is None,
{
    let path = stem.push('.') + ext;
    law_last_position(path, '.');
    law_last_position(ext, '.');
    assert(path[stem.len() as int] == '.');
    match last_position(path, '.') {
        Some(i) => {
            if i > stem.len() {
                assert(ext[i - stem.len() - 1] == '.');
            }
            assert(i == stem.len());
            assert(path.skip(i + 1) =~= ext);
        },
        None => {},
    }
    if let Some(i) = last_position(ext, '.') {
        assert(ext[i] == '.');
    }
}

} // verus!
