//! Languages, comments and the extraction of symbols.
use wdpkr_core::chunk::comments::{
    clean_doc_comment, clean_python_docstring, fold_jsdoc, last_identifier_segment, strip_jsdoc_type,
};
use wdpkr_core::chunk::languages::get_config;
use wdpkr_core::chunk::syntax::TreeNode;
use wdpkr_core::chunk::tree_sitter::{chunk_nodes, normalize_kind, TreeSitterChunker};
use wdpkr_core::chunk::{detect_language, Chunker, FileChunks, Import, SymbolChunk};

#[test]
fn trait_is_object_safe() {
    fn _takes_chunker(_: &dyn Chunker) {}
}

#[test]
fn detects_rust() {
    assert_eq!(detect_language("src/main.rs"), Some("rust"));
}

#[test]
fn detects_go() {
    assert_eq!(detect_language("pkg/handler.go"), Some("go"));
}

#[test]
fn detects_typescript() {
    assert_eq!(detect_language("src/app.ts"), Some("typescript"));
}

#[test]
fn detects_tsx() {
    assert_eq!(detect_language("src/App.tsx"), Some("tsx"));
}

#[test]
fn detects_javascript() {
    assert_eq!(detect_language("index.js"), Some("javascript"));
    assert_eq!(detect_language("App.jsx"), Some("javascript"));
}

#[test]
fn detects_python() {
    assert_eq!(detect_language("main.py"), Some("python"));
}

#[test]
fn detects_java() {
    assert_eq!(detect_language("Service.java"), Some("java"));
}

#[test]
fn detects_c_and_cpp() {
    assert_eq!(detect_language("main.c"), Some("c"));
    assert_eq!(detect_language("util.h"), Some("c"));
    assert_eq!(detect_language("main.cpp"), Some("cpp"));
    assert_eq!(detect_language("main.cc"), Some("cpp"));
    assert_eq!(detect_language("util.hpp"), Some("cpp"));
}

#[test]
fn detects_csharp() {
    assert_eq!(detect_language("Program.cs"), Some("csharp"));
}

#[test]
fn detects_svelte() {
    assert_eq!(detect_language("App.svelte"), Some("svelte"));
}

#[test]
fn unknown_extension_returns_none() {
    assert_eq!(detect_language("Makefile"), None);
    assert_eq!(detect_language("data.json"), None);
    assert_eq!(detect_language("README.md"), None);
}

#[test]
fn handles_nested_paths() {
    assert_eq!(
        detect_language("internal/finance/commission/release.go"),
        Some("go")
    );
}

#[test]
fn handles_dotfiles() {
    assert_eq!(detect_language(".gitignore"), None);
}

#[test]
fn import_equality() {
    let a = Import {
        module: "std::collections".into(),
        names: vec!["HashMap".into()],
    };
    let b = Import {
        module: "std::collections".into(),
        names: vec!["HashMap".into()],
    };
    assert_eq!(a, b);
}

#[test]
fn file_chunks_with_no_symbols() {
    let chunks = FileChunks {
        file_path: "README.md".into(),
        language: "markdown".into(),
        file_content: "# Hello".into(),
        module_doc: None,
        imports: vec![],
        symbols: vec![],
    };
    assert!(chunks.symbols.is_empty());
    assert!(chunks.imports.is_empty());
}

#[test]
fn symbol_chunk_fields() {
    let sym = SymbolChunk {
        name: "process_payment".into(),
        kind: "function".into(),
        body: "pub fn process_payment(amount: f64) -> Result<()> { ... }".into(),
        signature: Some("pub fn process_payment(amount: f64) -> Result<()>".into()),
        doc_comment: Some("Processes a payment for the given amount.".into()),
        start_line: 42,
        end_line: 78,
        references: vec!["validate_amount".into(), "charge_card".into()],
    };
    assert_eq!(sym.name, "process_payment");
    assert_eq!(sym.kind, "function");
    assert!(sym.signature.is_some());
    assert!(sym.doc_comment.is_some());
    assert_eq!(sym.start_line, 42);
    assert_eq!(sym.end_line, 78);
}

#[test]
fn all_languages_have_configs() {
    for lang in [
        "rust",
        "go",
        "typescript",
        "tsx",
        "javascript",
        "python",
        "java",
        "c",
        "cpp",
        "csharp",
    ] {
        assert!(get_config(lang).is_some(), "missing config for {lang}");
    }
}

#[test]
fn unknown_language_returns_none() {
    assert!(get_config("brainfuck").is_none());
    assert!(get_config("svelte").is_none());
}

#[test]
fn rust_config_includes_expected_types() {
    let cfg = get_config("rust").unwrap();
    assert!(cfg.symbol_types.contains(&"function_item"));
    assert!(cfg.symbol_types.contains(&"struct_item"));
    assert!(cfg.symbol_types.contains(&"impl_item"));
    assert!(cfg.container_types.contains(&"impl_item"));
    assert!(cfg.import_types.contains(&"use_declaration"));
}

fn chunk(source: &str, language: &str) -> FileChunks {
    TreeSitterChunker::new()
        .chunk("test.rs", source, language)
        .unwrap()
}

#[test]
fn rust_extracts_function() {
    let src = r#"
fn hello() {
    println!("hi");
}
"#;
    let chunks = chunk(src, "rust");
    assert_eq!(chunks.symbols.len(), 1);
    assert_eq!(chunks.symbols[0].name, "hello");
    assert_eq!(chunks.symbols[0].kind, "function");
}

#[test]
fn rust_extracts_struct_and_enum() {
    let src = r#"
pub struct Point {
    pub x: f64,
    pub y: f64,
}

pub enum Color {
    Red,
    Green,
    Blue,
}
"#;
    let chunks = chunk(src, "rust");
    let names: Vec<&str> = chunks.symbols.iter().map(|s| s.name.as_str()).collect();
    assert!(names.contains(&"Point"));
    assert!(names.contains(&"Color"));
}

#[test]
fn rust_extracts_impl_methods() {
    let src = r#"
struct Foo;

impl Foo {
    fn bar(&self) -> i32 {
        42
    }

    fn baz(&self) {}
}
"#;
    let chunks = chunk(src, "rust");
    let names: Vec<&str> = chunks.symbols.iter().map(|s| s.name.as_str()).collect();
    assert!(names.contains(&"Foo"), "struct: {names:?}");
    assert!(names.contains(&"bar"), "method bar: {names:?}");
    assert!(names.contains(&"baz"), "method baz: {names:?}");
}

#[test]
fn rust_extracts_doc_comment() {
    let src = r#"
/// This is a documented function.
fn documented() {}
"#;
    let chunks = chunk(src, "rust");
    assert_eq!(chunks.symbols.len(), 1);
    assert!(chunks.symbols[0].doc_comment.is_some());
    assert!(
        chunks.symbols[0]
            .doc_comment
            .as_ref()
            .unwrap()
            .contains("documented function")
    );
}

#[test]
fn rust_extracts_use_imports() {
    let src = r#"
use std::collections::HashMap;
use anyhow::{Result, bail};

fn main() {}
"#;
    let chunks = chunk(src, "rust");
    assert_eq!(chunks.imports.len(), 2);
    assert!(chunks.imports[0].module.contains("HashMap"));
    assert!(chunks.imports[1].module.contains("anyhow"));
}

#[test]
fn rust_extracts_trait() {
    let src = r#"
pub trait Drawable {
    fn draw(&self);
    fn area(&self) -> f64;
}
"#;
    let chunks = chunk(src, "rust");
    let names: Vec<&str> = chunks.symbols.iter().map(|s| s.name.as_str()).collect();
    assert!(names.contains(&"Drawable"));
}

#[test]
fn rust_line_numbers_are_1_based() {
    let src = "fn first() {}\nfn second() {}";
    let chunks = chunk(src, "rust");
    assert_eq!(chunks.symbols[0].start_line, 1);
    assert_eq!(chunks.symbols[1].start_line, 2);
}

#[test]
fn rust_signature_excludes_body() {
    let src = r#"
pub fn process(input: &str) -> Result<()> {
    Ok(())
}
"#;
    let chunks = chunk(src, "rust");
    let sig = chunks.symbols[0].signature.as_ref().unwrap();
    assert!(sig.contains("pub fn process"), "sig: {sig}");
    assert!(!sig.contains("Ok(())"), "sig should exclude body: {sig}");
}

#[test]
fn rust_no_doc_comment_is_none() {
    // The no-documentation case must not error and must yield None.
    let chunks = chunk("fn bare() {}", "rust");
    assert_eq!(chunks.symbols.len(), 1);
    assert!(chunks.symbols[0].doc_comment.is_none());
    assert!(chunks.module_doc.is_none());
}

#[test]
fn rust_module_doc_extracted() {
    let src = "//! Crate-level docs.\n//! Second line.\n\npub fn f() {}";
    let chunks = chunk(src, "rust");
    let doc = chunks.module_doc.expect("module doc");
    assert!(doc.contains("Crate-level docs."));
    assert!(doc.contains("Second line."));
}

#[test]
fn clean_doc_comment_strips_rust_slashes() {
    assert_eq!(clean_doc_comment("/// hello", "rust"), "hello");
    assert_eq!(clean_doc_comment("//! crate", "rust"), "crate");
}

#[test]
fn clean_doc_comment_strips_block_stars() {
    let raw = "/**\n * line one\n * line two\n */";
    assert_eq!(clean_doc_comment(raw, "java"), "line one\nline two");
}

#[test]
fn clean_jsdoc_folds_tags() {
    let raw =
        "/**\n * Fetches a user.\n * @param id the user id\n * @returns the user or null\n */";
    let out = clean_doc_comment(raw, "typescript");
    assert!(out.contains("Fetches a user."), "out: {out}");
    assert!(out.contains("id: the user id"), "out: {out}");
    assert!(out.contains("Returns: the user or null"), "out: {out}");
    assert!(!out.contains('@'), "tags should be folded: {out}");
    assert!(!out.contains('*'), "stars should be stripped: {out}");
}

#[test]
fn clean_jsdoc_drops_param_type_annotation() {
    let raw = "/** @param {string} name the name */";
    let out = clean_doc_comment(raw, "typescript");
    assert_eq!(out, "name: the name");
}

#[test]
fn typescript_jsdoc_attached_to_function() {
    let src = "/**\n * Adds two numbers.\n * @param a first\n * @returns the sum\n */\nfunction add(a: number, b: number): number { return a + b; }";
    let chunks = chunk(src, "typescript");
    let add = chunks.symbols.iter().find(|s| s.name == "add").unwrap();
    let doc = add.doc_comment.as_ref().expect("jsdoc");
    assert!(doc.contains("Adds two numbers."), "doc: {doc}");
    assert!(doc.contains("Returns: the sum"), "doc: {doc}");
    assert!(!doc.contains('*'), "doc: {doc}");
}

#[test]
fn python_extracts_function_docstring() {
    let src = "def greet(name):\n    \"\"\"Return a greeting for name.\"\"\"\n    return name";
    let chunks = chunk(src, "python");
    let greet = chunks.symbols.iter().find(|s| s.name == "greet").unwrap();
    assert_eq!(
        greet.doc_comment.as_deref(),
        Some("Return a greeting for name.")
    );
}

#[test]
fn python_extracts_class_docstring() {
    let src = "class Person:\n    \"\"\"A person.\"\"\"\n    def __init__(self):\n        pass";
    let chunks = chunk(src, "python");
    let person = chunks.symbols.iter().find(|s| s.name == "Person").unwrap();
    assert_eq!(person.doc_comment.as_deref(), Some("A person."));
}

#[test]
fn python_module_docstring_extracted() {
    let src = "\"\"\"Module level docs.\"\"\"\n\ndef f():\n    pass";
    let chunks = chunk(src, "python");
    assert_eq!(chunks.module_doc.as_deref(), Some("Module level docs."));
}

#[test]
fn python_no_docstring_is_none() {
    // Undocumented Python code must not error and yields None.
    let src = "def f():\n    return 1";
    let chunks = chunk(src, "python");
    let f = chunks.symbols.iter().find(|s| s.name == "f").unwrap();
    assert!(f.doc_comment.is_none());
    assert!(chunks.module_doc.is_none());
}

#[test]
fn clean_python_docstring_strips_quotes_and_dedents() {
    assert_eq!(clean_python_docstring("\"\"\"hello\"\"\""), "hello");
    assert_eq!(clean_python_docstring("'''hi'''"), "hi");
    assert_eq!(
        clean_python_docstring("\"\"\"\n    line one\n    line two\n    \"\"\""),
        "line one\nline two"
    );
}

#[test]
fn go_extracts_function() {
    let src = r#"
package main

func Hello() string {
    return "hi"
}
"#;
    let chunks = chunk(src, "go");
    let names: Vec<&str> = chunks.symbols.iter().map(|s| s.name.as_str()).collect();
    assert!(names.contains(&"Hello"), "got: {names:?}");
}

#[test]
fn go_extracts_imports() {
    let src = r#"
package main

import "fmt"

func main() {}
"#;
    let chunks = chunk(src, "go");
    assert!(!chunks.imports.is_empty());
}

#[test]
fn python_extracts_function_and_class() {
    let src = r#"
def greet(name):
    return f"Hello {name}"

class Person:
    def __init__(self, name):
        self.name = name
"#;
    let chunks = chunk(src, "python");
    let names: Vec<&str> = chunks.symbols.iter().map(|s| s.name.as_str()).collect();
    assert!(names.contains(&"greet"), "got: {names:?}");
    assert!(names.contains(&"Person"), "got: {names:?}");
}

#[test]
fn python_extracts_methods_from_class() {
    let src = r#"
class Calculator:
    def add(self, a, b):
        return a + b

    def multiply(self, a, b):
        return a * b
"#;
    let chunks = chunk(src, "python");
    let names: Vec<&str> = chunks.symbols.iter().map(|s| s.name.as_str()).collect();
    assert!(names.contains(&"Calculator"), "got: {names:?}");
    assert!(names.contains(&"add"), "got: {names:?}");
    assert!(names.contains(&"multiply"), "got: {names:?}");
}

#[test]
fn typescript_extracts_function_and_interface() {
    let src = r#"
interface User {
    name: string;
    age: number;
}

function greet(user: User): string {
    return `Hello ${user.name}`;
}
"#;
    let chunks = chunk(src, "typescript");
    let names: Vec<&str> = chunks.symbols.iter().map(|s| s.name.as_str()).collect();
    assert!(names.contains(&"User"), "got: {names:?}");
    assert!(names.contains(&"greet"), "got: {names:?}");
}

#[test]
fn typescript_extracts_type_alias_and_enum() {
    let src = r#"
type UserRole = 'admin' | 'user' | 'guest';

enum Status {
    Active,
    Inactive,
    Pending,
}

export function getRole(): UserRole {
    return 'admin';
}
"#;
    let chunks = chunk(src, "typescript");
    let names: Vec<&str> = chunks.symbols.iter().map(|s| s.name.as_str()).collect();
    assert!(names.contains(&"UserRole"), "type alias: {names:?}");
    assert!(names.contains(&"Status"), "enum: {names:?}");
}

#[test]
fn typescript_extracts_class_methods() {
    let src = r#"
class UserService {
    private users: string[] = [];

    async findById(id: number): Promise<string | undefined> {
        return this.users[id];
    }

    create(name: string): void {
        this.users.push(name);
    }
}
"#;
    let chunks = chunk(src, "typescript");
    let names: Vec<&str> = chunks.symbols.iter().map(|s| s.name.as_str()).collect();
    assert!(names.contains(&"UserService"), "class: {names:?}");
    assert!(names.contains(&"findById"), "method: {names:?}");
    assert!(names.contains(&"create"), "method: {names:?}");
}

#[test]
fn typescript_extracts_imports() {
    let src = r#"
import { Request, Response } from 'express';
import type { User } from './models';

export function handler(req: Request, res: Response): void {
    res.json({});
}
"#;
    let chunks = chunk(src, "typescript");
    assert!(
        !chunks.imports.is_empty(),
        "should extract imports: {:?}",
        chunks.imports
    );
}

#[test]
fn typescript_arrow_function_export() {
    let src = r#"
export const processPayment = async (amount: number): Promise<void> => {
    console.log(amount);
};
"#;
    let chunks = chunk(src, "typescript");
    assert!(
        !chunks.symbols.is_empty(),
        "should extract exported arrow function"
    );
}

#[test]
fn tsx_parses_jsx_without_errors() {
    let src = r#"
import React from 'react';

interface Props {
    name: string;
    count: number;
}

export function Greeting({ name, count }: Props): JSX.Element {
    return (
        <div className="greeting">
            <h1>Hello {name}</h1>
            <p>You have {count} messages</p>
        </div>
    );
}
"#;
    let chunker = TreeSitterChunker::new();
    let chunks = chunker.chunk("App.tsx", src, "tsx").unwrap();
    let names: Vec<&str> = chunks.symbols.iter().map(|s| s.name.as_str()).collect();
    assert!(names.contains(&"Props"), "interface: {names:?}");
    assert!(names.contains(&"Greeting"), "function: {names:?}");
}

#[test]
fn tsx_extracts_component_class() {
    let src = r#"
import React, { Component } from 'react';

interface State {
    count: number;
}

class Counter extends Component<{}, State> {
    state = { count: 0 };

    increment() {
        this.setState({ count: this.state.count + 1 });
    }

    render() {
        return <button onClick={() => this.increment()}>{this.state.count}</button>;
    }
}
"#;
    let chunker = TreeSitterChunker::new();
    let chunks = chunker.chunk("Counter.tsx", src, "tsx").unwrap();
    let names: Vec<&str> = chunks.symbols.iter().map(|s| s.name.as_str()).collect();
    assert!(names.contains(&"Counter"), "class component: {names:?}");
}

#[test]
fn typescript_barrel_reexports_no_parse_errors() {
    let src = r#"
export { Button } from './Button.svelte';
export { Modal } from './Modal.svelte';
export { Header } from './components/Header';
export type { User, UserRole } from './types';
export { default as App } from './App.svelte';
"#;
    let chunker = TreeSitterChunker::new();
    let chunks = chunker.chunk("src/index.ts", src, "typescript").unwrap();
    // Barrel files are mostly re-exports; symbols may or may not be extracted
    // but the key thing is: NO parse errors (the tree should be valid).
    assert_eq!(chunks.file_content, src);
    // Imports count as exports in tree-sitter's view; verify no crash
    // Barrel files are valid TS — no panics, no errors in the tree.
    let _ = &chunks;
}

#[test]
fn tsx_barrel_reexports_no_parse_errors() {
    let src = r#"
export { Button } from './Button.svelte';
export { Modal } from './Modal';
export * from './utils';
"#;
    let chunker = TreeSitterChunker::new();
    let chunks = chunker.chunk("src/index.tsx", src, "tsx").unwrap();
    assert_eq!(chunks.file_content, src);
}

#[test]
fn tsx_file_extension_maps_to_tsx_language() {
    assert_eq!(detect_language("App.tsx"), Some("tsx"));
    assert_eq!(
        detect_language("src/App.ts"),
        Some("typescript")
    );
}

#[test]
fn java_extracts_class_and_methods() {
    let src = r#"
public class Calculator {
    public int add(int a, int b) {
        return a + b;
    }

    public int multiply(int a, int b) {
        return a * b;
    }
}
"#;
    let chunks = chunk(src, "java");
    let names: Vec<&str> = chunks.symbols.iter().map(|s| s.name.as_str()).collect();
    assert!(names.contains(&"Calculator"), "got: {names:?}");
    assert!(names.contains(&"add"), "got: {names:?}");
    assert!(names.contains(&"multiply"), "got: {names:?}");
}

#[test]
fn unknown_language_returns_file_only() {
    let chunks = chunk("some content", "brainfuck");
    assert!(chunks.symbols.is_empty());
    assert!(chunks.imports.is_empty());
    assert_eq!(chunks.file_content, "some content");
}

#[test]
fn malformed_code_still_returns_file_content() {
    let src = "fn broken( {{{{{ this is not valid rust";
    let chunks = chunk(src, "rust");
    assert_eq!(chunks.file_content, src);
}

#[test]
fn rust_extracts_call_references() {
    let src = r#"
fn orchestrate() {
    let x = validate_input();
    let y = process_data(x);
    emit_result(y);
}
"#;
    let chunks = chunk(src, "rust");
    let sym = &chunks.symbols[0];
    assert!(
        sym.references.contains(&"validate_input".to_string()),
        "refs: {:?}",
        sym.references
    );
    assert!(
        sym.references.contains(&"process_data".to_string()),
        "refs: {:?}",
        sym.references
    );
    assert!(
        sym.references.contains(&"emit_result".to_string()),
        "refs: {:?}",
        sym.references
    );
}

#[test]
fn rust_extracts_method_call_references() {
    let src = r#"
fn work(svc: &Service) {
    svc.run();
    svc.cleanup();
}
"#;
    let chunks = chunk(src, "rust");
    let sym = &chunks.symbols[0];
    assert!(
        sym.references.contains(&"run".to_string()),
        "refs: {:?}",
        sym.references
    );
    assert!(
        sym.references.contains(&"cleanup".to_string()),
        "refs: {:?}",
        sym.references
    );
}

#[test]
fn rust_extracts_scoped_call_references() {
    let src = r#"
fn create() {
    let map = HashMap::new();
    let config = Config::from_env();
}
"#;
    let chunks = chunk(src, "rust");
    let sym = &chunks.symbols[0];
    assert!(
        sym.references.contains(&"new".to_string()),
        "refs: {:?}",
        sym.references
    );
    assert!(
        sym.references.contains(&"from_env".to_string()),
        "refs: {:?}",
        sym.references
    );
}

#[test]
fn rust_extracts_macro_references() {
    let src = r#"
fn log_stuff() {
    println!("hello");
    vec![1, 2, 3];
}
"#;
    let chunks = chunk(src, "rust");
    let sym = &chunks.symbols[0];
    assert!(
        sym.references.contains(&"println".to_string()),
        "refs: {:?}",
        sym.references
    );
    assert!(
        sym.references.contains(&"vec".to_string()),
        "refs: {:?}",
        sym.references
    );
}

#[test]
fn rust_deduplicates_references() {
    let src = r#"
fn repeated() {
    foo();
    foo();
    foo();
}
"#;
    let chunks = chunk(src, "rust");
    let sym = &chunks.symbols[0];
    assert_eq!(
        sym.references.iter().filter(|r| *r == "foo").count(),
        1,
        "should deduplicate: {:?}",
        sym.references
    );
}

#[test]
fn rust_no_calls_means_empty_references() {
    let src = r#"
fn pure(x: i32) -> i32 {
    x + 1
}
"#;
    let chunks = chunk(src, "rust");
    let sym = &chunks.symbols[0];
    assert!(sym.references.is_empty(), "refs: {:?}", sym.references);
}

#[test]
fn go_extracts_call_references() {
    let src = r#"
package main

func handler(w http.ResponseWriter, r *http.Request) {
    data := parseRequest(r)
    result := processData(data)
    writeResponse(w, result)
}
"#;
    let chunks = chunk(src, "go");
    let sym = chunks.symbols.iter().find(|s| s.name == "handler").unwrap();
    assert!(
        sym.references.contains(&"parseRequest".to_string()),
        "refs: {:?}",
        sym.references
    );
    assert!(
        sym.references.contains(&"processData".to_string()),
        "refs: {:?}",
        sym.references
    );
    assert!(
        sym.references.contains(&"writeResponse".to_string()),
        "refs: {:?}",
        sym.references
    );
}

#[test]
fn python_extracts_call_references() {
    let src = r#"
def orchestrate():
    data = fetch_data()
    result = transform(data)
    save_result(result)
"#;
    let chunks = chunk(src, "python");
    let sym = &chunks.symbols[0];
    assert!(
        sym.references.contains(&"fetch_data".to_string()),
        "refs: {:?}",
        sym.references
    );
    assert!(
        sym.references.contains(&"transform".to_string()),
        "refs: {:?}",
        sym.references
    );
    assert!(
        sym.references.contains(&"save_result".to_string()),
        "refs: {:?}",
        sym.references
    );
}

#[test]
fn typescript_extracts_call_references() {
    let src = r#"
function handleRequest(req: Request): Response {
    const data = parseBody(req);
    const result = validate(data);
    return formatResponse(result);
}
"#;
    let chunks = chunk(src, "typescript");
    let sym = chunks
        .symbols
        .iter()
        .find(|s| s.name == "handleRequest")
        .unwrap();
    assert!(
        sym.references.contains(&"parseBody".to_string()),
        "refs: {:?}",
        sym.references
    );
    assert!(
        sym.references.contains(&"validate".to_string()),
        "refs: {:?}",
        sym.references
    );
    assert!(
        sym.references.contains(&"formatResponse".to_string()),
        "refs: {:?}",
        sym.references
    );
}

#[test]
fn java_extracts_method_invocation_references() {
    let src = r#"
public class Service {
    public void handle() {
        Data data = parser.parse();
        Result result = processor.transform(data);
        emitter.emit(result);
    }
}
"#;
    let chunks = chunk(src, "java");
    let sym = chunks.symbols.iter().find(|s| s.name == "handle").unwrap();
    assert!(
        sym.references.contains(&"parse".to_string()),
        "refs: {:?}",
        sym.references
    );
    assert!(
        sym.references.contains(&"transform".to_string()),
        "refs: {:?}",
        sym.references
    );
    assert!(
        sym.references.contains(&"emit".to_string()),
        "refs: {:?}",
        sym.references
    );
}

#[test]
fn last_identifier_segment_splits_correctly() {
    assert_eq!(last_identifier_segment("foo"), "foo");
    assert_eq!(last_identifier_segment("self.foo"), "foo");
    assert_eq!(last_identifier_segment("a.b.c"), "c");
    assert_eq!(last_identifier_segment("HashMap::new"), "new");
    assert_eq!(
        last_identifier_segment("std::collections::HashMap::new"),
        "new"
    );
}

#[test]
fn kinds_are_normalized() {
    assert_eq!(normalize_kind("function_item"), "function");
    assert_eq!(normalize_kind("struct_item"), "struct");
    assert_eq!(normalize_kind("something_else"), "something_else");
}

#[test]
fn jsdoc_types_are_dropped() {
    assert_eq!(strip_jsdoc_type("{string} name"), "name");
    assert_eq!(strip_jsdoc_type("name"), "name");
}

#[test]
fn jsdoc_tags_become_prose() {
    let lines = vec!["Adds.".to_string(), "@param a first".to_string(), "@returns the sum".to_string()];
    assert_eq!(fold_jsdoc(&lines), "Adds.\na: first\nReturns: the sum");
}

fn node(kind: &str, depth: u32, start: usize, end: usize, field: Option<&str>) -> TreeNode {
    TreeNode {
        kind: kind.to_string(),
        field: field.map(String::from),
        depth,
        start_byte: start,
        end_byte: end,
        start_row: 0,
        end_row: 0,
    }
}

#[test]
fn symbols_follow_the_tree_they_are_given() {
    let src = "fn go() { stop(); }";
    let nodes = vec![
        node("source_file", 0, 0, 19, None),
        node("function_item", 1, 0, 19, None),
        node("identifier", 2, 3, 5, Some("name")),
        node("block", 2, 8, 19, Some("body")),
        node("call_expression", 3, 10, 16, None),
        node("identifier", 4, 10, 14, Some("function")),
    ];
    let c = chunk_nodes("a.rs", src, "rust", &Some(nodes));
    assert_eq!(c.symbols.len(), 1);
    assert_eq!(c.symbols[0].name, "go");
    assert_eq!(c.symbols[0].body, src);
    assert_eq!(c.symbols[0].signature.as_deref(), Some("fn go()"));
    assert_eq!(c.symbols[0].references, vec!["stop"]);
    assert_eq!(c.symbols[0].start_line, 1);
}

#[test]
fn symbol_bodies_are_stretches_of_the_file() {
    let src = "/// Größe\nfn maß() {}\nstruct Ä;\n";
    let c = chunk(src, "rust");
    assert_eq!(c.symbols.len(), 2);
    for s in &c.symbols {
        assert!(src.contains(&s.body));
    }
}

#[test]
fn detected_languages_have_settings() {
    for path in [
        "a.rs", "a.go", "a.ts", "a.tsx", "a.js", "a.jsx", "a.py", "a.java", "a.c", "a.h", "a.cc",
        "a.hpp", "a.cs",
    ] {
        assert!(get_config(detect_language(path).unwrap()).is_some());
    }
    assert_eq!(detect_language("a.svelte"), Some("svelte"));
    assert!(get_config("svelte").is_none());
}

#[test]
fn bodies_begin_with_the_doc_comments_that_lead_them() {
    let c = chunk("/// Adds.\nfn add() {}", "rust");
    assert_eq!(c.symbols.len(), 1);
    assert_eq!(c.symbols[0].body, "/// Adds.\nfn add() {}");
    assert_eq!(c.symbols[0].name, "add");
    assert_eq!(c.symbols[0].start_line, 2);
    let c = chunk("fn one() {}\n/// Two\n/// lines.\nfn two() {}\nfn three() {}\n", "rust");
    assert_eq!(c.symbols[0].body, "fn one() {}");
    assert_eq!(c.symbols[1].body, "/// Two\n/// lines.\nfn two() {}");
    assert_eq!(c.symbols[2].body, "fn three() {}");
}

#[test]
fn members_keep_their_doc_comments() {
    let c = chunk("impl A {\n    /// first\n    fn a(&self) {}\n    fn b(&self) {}\n}\n", "rust");
    let body = |name: &str| c.symbols.iter().find(|s| s.name == name).unwrap().body.clone();
    assert_eq!(body("a"), "/// first\n    fn a(&self) {}");
    assert_eq!(body("b"), "fn b(&self) {}");
}

#[test]
fn other_comments_are_no_part_of_a_body() {
    let body = |src: &str, language: &str| chunk(src, language).symbols[0].body.clone();
    assert_eq!(body("// note\nfn f() {}", "rust"), "fn f() {}");
    assert_eq!(body("//! module\nfn f() {}", "rust"), "fn f() {}");
    assert_eq!(body("//// rule\nfn f() {}", "rust"), "fn f() {}");
    assert_eq!(body("/* licence */\nfn f() {}", "rust"), "fn f() {}");
    assert_eq!(body("/// far\n\nfn f() {}", "rust"), "fn f() {}");
    assert_eq!(body("/// far\n\n/// near\nfn f() {}", "rust"), "/// near\nfn f() {}");
    assert_eq!(body("/// doc\n// note\nfn f() {}", "rust"), "fn f() {}");
    assert_eq!(body("# note\ndef f():\n    pass", "python"), "def f():\n    pass");
    assert_eq!(body("// note\nfunction f() {}", "javascript"), "function f() {}");
}

#[test]
fn doc_comments_go_by_the_language() {
    let body = |src: &str, language: &str| chunk(src, language).symbols[0].body.clone();
    for (src, language) in [
        ("/** doc */\nfn f() {}", "rust"),
        ("/**\n * Doc.\n */\nfunction f() {}", "javascript"),
        ("/** Doc. */\nfunction f(): void {}", "typescript"),
        ("/** Doc. */\nclass A {}", "java"),
        ("/// Doc.\nclass A {}", "csharp"),
    ] {
        assert_eq!(body(src, language), src);
    }
    let c = chunk("package a\n\n// F does.\nfunc F() {}\n", "go");
    assert_eq!(c.symbols[0].body, "// F does.\nfunc F() {}");
}

#[test]
fn nameless_wrappers_are_shown_by_their_own_first_line() {
    let c = chunk("/** about */\nexport { a, b };\n", "typescript");
    assert_eq!(c.symbols[0].name, "export { a, b };");
    assert_eq!(c.symbols[0].body, "/** about */\nexport { a, b };");
}

#[test]
fn files_without_an_extension_have_no_language() {
    assert_eq!(detect_language("go"), None);
    assert_eq!(detect_language("src/rs"), None);
    assert_eq!(detect_language("c.d/h"), None);
    assert_eq!(detect_language("x.go"), Some("go"));
}
