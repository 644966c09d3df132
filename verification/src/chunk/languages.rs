//! Per-language settings: which syntax nodes are symbols, containers,
//! comments, imports and calls.
use vstd::prelude::*;

use crate::chunk::language_of;
use crate::text::same;

verus! {

/// The grammars that are linked in.
#[derive(Clone, Copy, PartialEq, Eq, Structural, Debug)]
pub enum Grammar {
    Rust,
    Go,
    TypeScript,
    Tsx,
    JavaScript,
    Python,
    Java,
    Cpp,
    CSharp,
}

/// What the extraction needs to know of a language.
#[derive(Debug)]
pub struct LanguageConfig {
    pub grammar: Grammar,
    pub symbol_types: Vec<&'static str>,
    pub container_types: Vec<&'static str>,
    pub comment_types: Vec<&'static str>,
    pub import_types: Vec<&'static str>,
    pub call_expression_types: Vec<&'static str>,
}

/// What a [`LanguageConfig`] holds.
#[verifier::ext_equal]
pub struct LanguageConfigView {
    pub grammar: Grammar,
    pub symbol_types: Seq<Seq<char>>,
    pub container_types: Seq<Seq<char>>,
    pub comment_types: Seq<Seq<char>>,
    pub import_types: Seq<Seq<char>>,
    pub call_expression_types: Seq<Seq<char>>,
}

impl DeepView for LanguageConfig {
    type V = LanguageConfigView;

    open spec fn deep_view(&self) -> LanguageConfigView {
        LanguageConfigView {
            grammar: self.grammar,
            symbol_types: self.symbol_types.deep_view(),
            container_types: self.container_types.deep_view(),
            comment_types: self.comment_types.deep_view(),
            import_types: self.import_types.deep_view(),
            call_expression_types: self.call_expression_types.deep_view(),
        }
    }
}

/// Whether a kind of node is in a list.
pub fn has_kind(list: &Vec<&'static str>, kind: &str) -> (r: bool)
    ensures
        r == list.deep_view().contains(kind@),
{
    let mut i: usize = 0;
    while i < list.len()
        invariant
            i <= list@.len(),
            forall|j: int| 0 <= j < i ==> list.deep_view()[j] != kind@,
        decreases list@.len() - i,
    {
        if same(list[i], kind) {
            assert(list.deep_view()[i as int] == kind@);
            return true;
        }
        i += 1;
    }
    false
}

/// The settings of Rust.
pub open spec fn rust_config() -> LanguageConfigView {
    LanguageConfigView {
        grammar: Grammar::Rust,
        symbol_types: seq![
            "function_item"@,
            "struct_item"@,
            "enum_item"@,
            "trait_item"@,
            "mod_item"@,
            "const_item"@,
            "static_item"@,
            "type_item"@,
            "impl_item"@,
        ],
        container_types: seq![
            "impl_item"@,
        ],
        comment_types: seq![
            "line_comment"@,
            "block_comment"@,
        ],
        import_types: seq![
            "use_declaration"@,
        ],
        call_expression_types: seq![
            "call_expression"@,
            "macro_invocation"@,
        ],
    }
}

fn rust() -> (r: LanguageConfig)
    ensures
        r.deep_view() == rust_config(),
{
    let r = LanguageConfig {
        grammar: Grammar::Rust,
        symbol_types: vec![
            "function_item",
            "struct_item",
            "enum_item",
            "trait_item",
            "mod_item",
            "const_item",
            "static_item",
            "type_item",
            "impl_item",
        ],
        container_types: vec![
            "impl_item",
        ],
        comment_types: vec![
            "line_comment",
            "block_comment",
        ],
        import_types: vec![
            "use_declaration",
        ],
        call_expression_types: vec![
            "call_expression",
            "macro_invocation",
        ],
    };
    assert(r.deep_view() =~= rust_config());
    r
}

/// The settings of Go.
pub open spec fn go_config() -> LanguageConfigView {
    LanguageConfigView {
        grammar: Grammar::Go,
        symbol_types: seq![
            "function_declaration"@,
            "method_declaration"@,
            "type_declaration"@,
            "const_declaration"@,
            "var_declaration"@,
        ],
        container_types: Seq::<Seq<char>>::empty(),
        comment_types: seq![
            "comment"@,
        ],
        import_types: seq![
            "import_declaration"@,
        ],
        call_expression_types: seq![
            "call_expression"@,
        ],
    }
}

fn go() -> (r: LanguageConfig)
    ensures
        r.deep_view() == go_config(),
{
    let r = LanguageConfig {
        grammar: Grammar::Go,
        symbol_types: vec![
            "function_declaration",
            "method_declaration",
            "type_declaration",
            "const_declaration",
            "var_declaration",
        ],
        container_types: Vec::new(),
        comment_types: vec![
            "comment",
        ],
        import_types: vec![
            "import_declaration",
        ],
        call_expression_types: vec![
            "call_expression",
        ],
    };
    assert(r.deep_view() =~= go_config());
    r
}

/// The settings of TypeScript.
pub open spec fn typescript_config() -> LanguageConfigView {
    LanguageConfigView {
        grammar: Grammar::TypeScript,
        symbol_types: seq![
            "function_declaration"@,
            "class_declaration"@,
            "interface_declaration"@,
            "type_alias_declaration"@,
            "enum_declaration"@,
            "export_statement"@,
            "method_definition"@,
        ],
        container_types: seq![
            "class_declaration"@,
        ],
        comment_types: seq![
            "comment"@,
        ],
        import_types: seq![
            "import_statement"@,
        ],
        call_expression_types: seq![
            "call_expression"@,
            "new_expression"@,
        ],
    }
}

fn typescript() -> (r: LanguageConfig)
    ensures
        r.deep_view() == typescript_config(),
{
    let r = LanguageConfig {
        grammar: Grammar::TypeScript,
        symbol_types: vec![
            "function_declaration",
            "class_declaration",
            "interface_declaration",
            "type_alias_declaration",
            "enum_declaration",
            "export_statement",
            "method_definition",
        ],
        container_types: vec![
            "class_declaration",
        ],
        comment_types: vec![
            "comment",
        ],
        import_types: vec![
            "import_statement",
        ],
        call_expression_types: vec![
            "call_expression",
            "new_expression",
        ],
    };
    assert(r.deep_view() =~= typescript_config());
    r
}

/// The settings of TSX.
pub open spec fn tsx_config() -> LanguageConfigView {
    LanguageConfigView {
        grammar: Grammar::Tsx,
        symbol_types: seq![
            "function_declaration"@,
            "class_declaration"@,
            "interface_declaration"@,
            "type_alias_declaration"@,
            "enum_declaration"@,
            "export_statement"@,
            "method_definition"@,
        ],
        container_types: seq![
            "class_declaration"@,
        ],
        comment_types: seq![
            "comment"@,
        ],
        import_types: seq![
            "import_statement"@,
        ],
        call_expression_types: seq![
            "call_expression"@,
            "new_expression"@,
        ],
    }
}

fn tsx() -> (r: LanguageConfig)
    ensures
        r.deep_view() == tsx_config(),
{
    let r = LanguageConfig {
        grammar: Grammar::Tsx,
        symbol_types: vec![
            "function_declaration",
            "class_declaration",
            "interface_declaration",
            "type_alias_declaration",
            "enum_declaration",
            "export_statement",
            "method_definition",
        ],
        container_types: vec![
            "class_declaration",
        ],
        comment_types: vec![
            "comment",
        ],
        import_types: vec![
            "import_statement",
        ],
        call_expression_types: vec![
            "call_expression",
            "new_expression",
        ],
    };
    assert(r.deep_view() =~= tsx_config());
    r
}

/// The settings of JavaScript.
pub open spec fn javascript_config() -> LanguageConfigView {
    LanguageConfigView {
        grammar: Grammar::JavaScript,
        symbol_types: seq![
            "function_declaration"@,
            "class_declaration"@,
            "export_statement"@,
            "method_definition"@,
            "lexical_declaration"@,
        ],
        container_types: seq![
            "class_declaration"@,
        ],
        comment_types: seq![
            "comment"@,
        ],
        import_types: seq![
            "import_statement"@,
        ],
        call_expression_types: seq![
            "call_expression"@,
            "new_expression"@,
        ],
    }
}

fn javascript() -> (r: LanguageConfig)
    ensures
        r.deep_view() == javascript_config(),
{
    let r = LanguageConfig {
        grammar: Grammar::JavaScript,
        symbol_types: vec![
            "function_declaration",
            "class_declaration",
            "export_statement",
            "method_definition",
            "lexical_declaration",
        ],
        container_types: vec![
            "class_declaration",
        ],
        comment_types: vec![
            "comment",
        ],
        import_types: vec![
            "import_statement",
        ],
        call_expression_types: vec![
            "call_expression",
            "new_expression",
        ],
    };
    assert(r.deep_view() =~= javascript_config());
    r
}

/// The settings of Python.
pub open spec fn python_config() -> LanguageConfigView {
    LanguageConfigView {
        grammar: Grammar::Python,
        symbol_types: seq![
            "function_definition"@,
            "class_definition"@,
            "decorated_definition"@,
        ],
        container_types: seq![
            "class_definition"@,
        ],
        comment_types: seq![
            "comment"@,
        ],
        import_types: seq![
            "import_statement"@,
            "import_from_statement"@,
        ],
        call_expression_types: seq![
            "call"@,
        ],
    }
}

fn python() -> (r: LanguageConfig)
    ensures
        r.deep_view() == python_config(),
{
    let r = LanguageConfig {
        grammar: Grammar::Python,
        symbol_types: vec![
            "function_definition",
            "class_definition",
            "decorated_definition",
        ],
        container_types: vec![
            "class_definition",
        ],
        comment_types: vec![
            "comment",
        ],
        import_types: vec![
            "import_statement",
            "import_from_statement",
        ],
        call_expression_types: vec![
            "call",
        ],
    };
    assert(r.deep_view() =~= python_config());
    r
}

/// The settings of Java.
pub open spec fn java_config() -> LanguageConfigView {
    LanguageConfigView {
        grammar: Grammar::Java,
        symbol_types: seq![
            "class_declaration"@,
            "method_declaration"@,
            "interface_declaration"@,
            "enum_declaration"@,
            "constructor_declaration"@,
        ],
        container_types: seq![
            "class_declaration"@,
            "interface_declaration"@,
            "enum_declaration"@,
        ],
        comment_types: seq![
            "line_comment"@,
            "block_comment"@,
        ],
        import_types: seq![
            "import_declaration"@,
        ],
        call_expression_types: seq![
            "method_invocation"@,
            "object_creation_expression"@,
        ],
    }
}

fn java() -> (r: LanguageConfig)
    ensures
        r.deep_view() == java_config(),
{
    let r = LanguageConfig {
        grammar: Grammar::Java,
        symbol_types: vec![
            "class_declaration",
            "method_declaration",
            "interface_declaration",
            "enum_declaration",
            "constructor_declaration",
        ],
        container_types: vec![
            "class_declaration",
            "interface_declaration",
            "enum_declaration",
        ],
        comment_types: vec![
            "line_comment",
            "block_comment",
        ],
        import_types: vec![
            "import_declaration",
        ],
        call_expression_types: vec![
            "method_invocation",
            "object_creation_expression",
        ],
    };
    assert(r.deep_view() =~= java_config());
    r
}

/// The settings of C and C++.
pub open spec fn cpp_config() -> LanguageConfigView {
    LanguageConfigView {
        grammar: Grammar::Cpp,
        symbol_types: seq![
            "function_definition"@,
            "class_specifier"@,
            "struct_specifier"@,
            "enum_specifier"@,
            "namespace_definition"@,
            "declaration"@,
        ],
        container_types: seq![
            "class_specifier"@,
            "struct_specifier"@,
            "namespace_definition"@,
        ],
        comment_types: seq![
            "comment"@,
        ],
        import_types: seq![
            "preproc_include"@,
        ],
        call_expression_types: seq![
            "call_expression"@,
        ],
    }
}

fn cpp() -> (r: LanguageConfig)
    ensures
        r.deep_view() == cpp_config(),
{
    let r = LanguageConfig {
        grammar: Grammar::Cpp,
        symbol_types: vec![
            "function_definition",
            "class_specifier",
            "struct_specifier",
            "enum_specifier",
            "namespace_definition",
            "declaration",
        ],
        container_types: vec![
            "class_specifier",
            "struct_specifier",
            "namespace_definition",
        ],
        comment_types: vec![
            "comment",
        ],
        import_types: vec![
            "preproc_include",
        ],
        call_expression_types: vec![
            "call_expression",
        ],
    };
    assert(r.deep_view() =~= cpp_config());
    r
}

/// The settings of C#.
pub open spec fn csharp_config() -> LanguageConfigView {
    LanguageConfigView {
        grammar: Grammar::CSharp,
        symbol_types: seq![
            "class_declaration"@,
            "method_declaration"@,
            "interface_declaration"@,
            "struct_declaration"@,
            "enum_declaration"@,
            "constructor_declaration"@,
        ],
        container_types: seq![
            "class_declaration"@,
            "struct_declaration"@,
            "interface_declaration"@,
        ],
        comment_types: seq![
            "comment"@,
        ],
        import_types: seq![
            "using_directive"@,
        ],
        call_expression_types: seq![
            "invocation_expression"@,
            "object_creation_expression"@,
        ],
    }
}

fn csharp() -> (r: LanguageConfig)
    ensures
        r.deep_view() == csharp_config(),
{
    let r = LanguageConfig {
        grammar: Grammar::CSharp,
        symbol_types: vec![
            "class_declaration",
            "method_declaration",
            "interface_declaration",
            "struct_declaration",
            "enum_declaration",
            "constructor_declaration",
        ],
        container_types: vec![
            "class_declaration",
            "struct_declaration",
            "interface_declaration",
        ],
        comment_types: vec![
            "comment",
        ],
        import_types: vec![
            "using_directive",
        ],
        call_expression_types: vec![
            "invocation_expression",
            "object_creation_expression",
        ],
    };
    assert(r.deep_view() =~= csharp_config());
    r
}

/// The settings of a language, where there are any.
pub open spec fn config_of(language: Seq<char>) -> Option<LanguageConfigView> {
    if language == "rust"@ {
        Some(rust_config())
    } else if language == "go"@ {
        Some(go_config())
    } else if language == "typescript"@ {
        Some(typescript_config())
    } else if language == "tsx"@ {
        Some(tsx_config())
    } else if language == "javascript"@ {
        Some(javascript_config())
    } else if language == "python"@ {
        Some(python_config())
    } else if language == "java"@ {
        Some(java_config())
    } else if language == "c"@ || language == "cpp"@ {
        Some(cpp_config())
    } else if language == "csharp"@ {
        Some(csharp_config())
    } else {
        None
    }
}

/// The settings of a language; none for languages without a grammar.
pub fn get_config(language: &str) -> (r: Option<LanguageConfig>)
    ensures
        r.deep_view() == config_of(language@),
{
    if same(language, "rust") {
        Some(rust())
    } else if same(language, "go") {
        Some(go())
    } else if same(language, "typescript") {
        Some(typescript())
    } else if same(language, "tsx") {
        Some(tsx())
    } else if same(language, "javascript") {
        Some(javascript())
    } else if same(language, "python") {
        Some(python())
    } else if same(language, "java") {
        Some(java())
    } else if same(language, "c") || same(language, "cpp") {
        Some(cpp())
    } else if same(language, "csharp") {
        Some(csharp())
    } else {
        None
    }
}

/// Every language that a file's extension tells has settings, but for Svelte.
pub proof fn law_detected_languages_have_settings(ext: Seq<char>)
    ensures
        language_of(ext) matches Some(l) ==> (l == "svelte"@ || config_of(l) is Some),
{
}

} // verus!
