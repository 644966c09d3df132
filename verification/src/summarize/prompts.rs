//! What a summarizer is asked, in words. The target is dense prose in the
//! vocabulary of user stories and tickets.
use vstd::prelude::*;

use crate::chunk::{Import, ImportView};
use crate::summarize::rollup::SymbolSummaryResultView;
use crate::summarize::{FileSummaryInput, FileSummaryInputView, SymbolSummaryInput,
    SymbolSummaryInputView};
use crate::text::{
    has_suffix, join, joined, lemma_joined_holds, lemma_part_at_end, lemma_part_between,
    lemma_part_of_part, lemma_part_stays, occurs,
};

verus! {

/// What every summarizer is told first.
pub const SYSTEM_PROMPT: &'static str = "You are a code summarizer for a semantic search index. Your summaries will be embedded as vectors and matched against natural-language queries — typically user stories, feature descriptions, or ticket titles like \"release commission payments to individual payees.\"\n\nRules:\n- Write dense, specific prose. Every sentence should contain searchable terms.\n- Focus on WHAT the code does in business/domain terms, not HOW it's implemented.\n- Include key identifiers (function names, type names, API endpoints) naturally in the prose — they're the bridge between code vocabulary and query vocabulary.\n- Reference relationships to other parts of the system when imports make them clear.\n- Do NOT include markdown formatting, bullet points, or headers. Plain prose only.\n- Do NOT start with \"This file\" or \"This function\" — start with the domain action.";

/// One line for an import.
pub open spec fn import_line(i: ImportView) -> Seq<char> {
    if i.names.len() == 0 {
        "- "@ + i.module
    } else {
        "- "@ + i.module + ": "@ + joined(i.names, ", "@)
    }
}

/// The lines of a list of imports.
pub open spec fn import_lines(imports: Seq<ImportView>) -> Seq<char>
    decreases imports.len(),
{
    if imports.len() == 0 {
        Seq::<char>::empty()
    } else {
        import_lines(imports.drop_last()) + import_line(imports.last()) + "\n"@
    }
}

/// The message for a file.
pub open spec fn file_message(input: FileSummaryInputView) -> Seq<char> {
    let head = "Summarize this "@ + input.language + " file in 2-4 sentences.\n\nFile: "@
        + input.file_path + "\n"@;
    let listed = if input.imports.len() > 0 {
        head + "\nImports:\n"@ + import_lines(input.imports)
    } else {
        head
    };
    listed + "\nCode:\n"@ + input.content
}

/// The message for a symbol.
pub open spec fn symbol_message(input: SymbolSummaryInputView) -> Seq<char> {
    let head = "Summarize this "@ + input.symbol_kind + " in 1-2 sentences.\n\nFile: "@
        + input.file_path + " — "@ + input.file_summary + "\n\n"@ + input.symbol_kind + " "@
        + input.symbol_name + " "@;
    let signed = match input.signature {
        Some(sig) => head + "\nSignature: "@ + sig + "\n"@,
        None => head,
    };
    let documented = match input.doc_comment {
        Some(doc) => signed + "\nDoc comment: "@ + doc + "\n"@,
        None => signed,
    };
    documented + "\nBody:\n"@ + input.body
}

/// The lines of a list of symbol summaries.
pub open spec fn summary_lines(list: Seq<SymbolSummaryResultView>) -> Seq<char>
    decreases list.len(),
{
    if list.len() == 0 {
        Seq::<char>::empty()
    } else {
        summary_lines(list.drop_last()) + "- "@ + list.last().name + ": "@ + list.last().summary
            + "\n"@
    }
}

/// Pairs of a symbol's name and its summary.
pub open spec fn pairs_of(list: Seq<(&str, &str)>) -> Seq<SymbolSummaryResultView> {
    list.map_values(
        |p: (&str, &str)| SymbolSummaryResultView { name: p.0@, summary: p.1@ },
    )
}

/// The message for a file that is too large to be shown: its symbols' summaries.
pub open spec fn rollup_message(
    file_path: Seq<char>,
    language: Seq<char>,
    list: Seq<SymbolSummaryResultView>,
) -> Seq<char> {
    "Summarize this "@ + language
        + " file in 2-4 sentences based on its constituent symbols.\n\nFile: "@ + file_path
        + "\n\nThis file is too large to summarize directly. Here are summaries of its individual symbols:\n\n"@
        + summary_lines(list)
        + "\nSynthesize these into a cohesive file-level summary. Focus on the overall purpose and how the symbols relate to each other."@
}

/// Writes the line of an import.
pub fn format_import(import: &Import) -> (r: String)
    ensures
        r@ == import_line(import.deep_view()),
{
    assert(import.names.deep_view().len() == import.names@.len());
    let mut r = "- ".to_string();
    r.append(import.module.as_str());
    if import.names.len() > 0 {
        r.append(": ");
        r.append(join(&import.names, ", ").as_str());
    }
    r
}

/// Builds the message for a file.
pub fn file_user_message(input: &FileSummaryInput) -> (r: String)
    ensures
        r@ == file_message(input.deep_view()),
{
    let mut msg = "Summarize this ".to_string();
    msg.append(input.language.as_str());
    msg.append(" file in 2-4 sentences.\n\nFile: ");
    msg.append(input.file_path.as_str());
    msg.append("\n");
    let ghost iv = input.imports.deep_view();
    assert(iv.len() == input.imports@.len());
    if input.imports.len() > 0 {
        msg.append("\nImports:\n");
        let ghost head = msg@;
        let mut i: usize = 0;
        assert(head + import_lines(iv.take(0)) =~= head);
        while i < input.imports.len()
            invariant
                i <= input.imports@.len(),
                iv == input.imports.deep_view(),
                msg@ == head + import_lines(iv.take(i as int)),
            decreases input.imports@.len() - i,
        {
            let ghost before = msg@;
            let line = format_import(&input.imports[i]);
            msg.append(line.as_str());
            msg.append("\n");
            proof {
                assert(iv.take(i + 1).drop_last() =~= iv.take(i as int));
                assert(iv.take(i + 1).last() == input.imports@[i as int].deep_view());
                assert(msg@ =~= head + import_lines(iv.take(i + 1)));
            }
            i += 1;
        }
        assert(iv.take(i as int) =~= iv);
    }
    msg.append("\nCode:\n");
    msg.append(input.content.as_str());
    msg
}

/// Builds the message for a symbol.
pub fn symbol_user_message(input: &SymbolSummaryInput) -> (r: String)
    ensures
        r@ == symbol_message(input.deep_view()),
{
    let mut msg = "Summarize this ".to_string();
    msg.append(input.symbol_kind.as_str());
    msg.append(" in 1-2 sentences.\n\nFile: ");
    msg.append(input.file_path.as_str());
    msg.append(" — ");
    msg.append(input.file_summary.as_str());
    msg.append("\n\n");
    msg.append(input.symbol_kind.as_str());
    msg.append(" ");
    msg.append(input.symbol_name.as_str());
    msg.append(" ");
    if let Some(sig) = &input.signature {
        msg.append("\nSignature: ");
        msg.append(sig.as_str());
        msg.append("\n");
    }
    if let Some(doc) = &input.doc_comment {
        msg.append("\nDoc comment: ");
        msg.append(doc.as_str());
        msg.append("\n");
    }
    msg.append("\nBody:\n");
    msg.append(input.body.as_str());
    msg
}

/// Builds the message for a file that is too large to be shown.
pub fn rollup_user_message(
    file_path: &str,
    language: &str,
    symbol_summaries: &[(&str, &str)],
) -> (r: String)
    ensures
        r@ == rollup_message(file_path@, language@, pairs_of(symbol_summaries@)),
{
    let mut msg = "Summarize this ".to_string();
    msg.append(language);
    msg.append(" file in 2-4 sentences based on its constituent symbols.\n\nFile: ");
    msg.append(file_path);
    msg.append(
        "\n\nThis file is too large to summarize directly. Here are summaries of its individual symbols:\n\n",
    );
    let ghost sv = pairs_of(symbol_summaries@);
    let ghost head = msg@;
    let mut i: usize = 0;
    assert(head + summary_lines(sv.take(0)) =~= head);
    while i < symbol_summaries.len()
        invariant
            i <= symbol_summaries@.len(),
            sv == pairs_of(symbol_summaries@),
            msg@ == head + summary_lines(sv.take(i as int)),
        decreases symbol_summaries@.len() - i,
    {
        let ghost before = msg@;
        msg.append("- ");
        msg.append(symbol_summaries[i].0);
        msg.append(": ");
        msg.append(symbol_summaries[i].1);
        msg.append("\n");
        proof {
            assert(sv.take(i + 1).drop_last() =~= sv.take(i as int));
            assert(sv.take(i + 1).last() == sv[i as int]);
            assert(msg@ =~= head + summary_lines(sv.take(i + 1)));
        }
        i += 1;
    }
    assert(sv.take(i as int) =~= sv);
    msg.append(
        "\nSynthesize these into a cohesive file-level summary. Focus on the overall purpose and how the symbols relate to each other.",
    );
    msg
}

// ---------------------------------------------------------------------------
// Laws
// ---------------------------------------------------------------------------

/// The message for a symbol ends with its whole body, and holds its kind, its
/// name, the path and the summary of its file, and its signature and doc comment
/// where it has them.
pub proof fn law_symbol_message_holds_the_symbol(input: SymbolSummaryInputView)
    ensures
        has_suffix(symbol_message(input), input.body),
        occurs(symbol_message(input), input.symbol_kind + " "@ + input.symbol_name),
        occurs(symbol_message(input), input.symbol_kind),
        occurs(symbol_message(input), input.symbol_name),
        occurs(symbol_message(input), input.file_path),
        occurs(symbol_message(input), input.file_summary),
        input.signature matches Some(sig) ==> occurs(symbol_message(input), sig),
        input.doc_comment matches Some(doc) ==> occurs(symbol_message(input), doc),
{
    let d = "Summarize this "@ + input.symbol_kind + " in 1-2 sentences.\n\nFile: "@
        + input.file_path + " — "@ + input.file_summary + "\n\n"@ + input.symbol_kind + " "@
        + input.symbol_name;
    let call = input.symbol_kind + " "@ + input.symbol_name;
    lemma_symbol_head(input);
    lemma_holds_on(input, d, call);
    lemma_holds_on(input, d, input.symbol_kind);
    lemma_holds_on(input, d, input.symbol_name);
    lemma_holds_on(input, d, input.file_path);
    lemma_holds_on(input, d, input.file_summary);
    lemma_symbol_tail(input);
}

proof fn lemma_symbol_head(input: SymbolSummaryInputView)
    ensures
        ({
            let d = "Summarize this "@ + input.symbol_kind + " in 1-2 sentences.\n\nFile: "@
                + input.file_path + " — "@ + input.file_summary + "\n\n"@ + input.symbol_kind
                + " "@ + input.symbol_name;
            &&& occurs(d, input.symbol_kind + " "@ + input.symbol_name)
            &&& occurs(d, input.symbol_kind)
            &&& occurs(d, input.symbol_name)
            &&& occurs(d, input.file_path)
            &&& occurs(d, input.file_summary)
        }),
{
    let a = "Summarize this "@ + input.symbol_kind + " in 1-2 sentences.\n\nFile: "@;
    let b = a + input.file_path;
    let c = b + " — "@ + input.file_summary;
    let call = input.symbol_kind + " "@ + input.symbol_name;
    let d = c + "\n\n"@ + input.symbol_kind + " "@ + input.symbol_name;
    assert(d =~= c + "\n\n"@ + call);
    lemma_part_at_end(c + "\n\n"@, call);
    lemma_part_at_end(input.symbol_kind + " "@, input.symbol_name);
    lemma_part_of_part(input.symbol_name, call, d);
    lemma_part_between(Seq::empty(), input.symbol_kind, " "@ + input.symbol_name);
    assert(Seq::empty() + input.symbol_kind + (" "@ + input.symbol_name) =~= call);
    lemma_part_of_part(input.symbol_kind, call, d);
    lemma_part_at_end(a, input.file_path);
    lemma_part_stays(b, input.file_path, " — "@);
    lemma_part_stays(b + " — "@, input.file_path, input.file_summary);
    lemma_part_at_end(b + " — "@, input.file_summary);
    lemma_part_stays(c, input.file_path, "\n\n"@);
    lemma_part_stays(c, input.file_summary, "\n\n"@);
    lemma_part_stays(c + "\n\n"@, input.file_path, call);
    lemma_part_stays(c + "\n\n"@, input.file_summary, call);
}

proof fn lemma_symbol_tail(input: SymbolSummaryInputView)
    ensures
        has_suffix(symbol_message(input), input.body),
        input.signature matches Some(sig) ==> occurs(symbol_message(input), sig),
        input.doc_comment matches Some(doc) ==> occurs(symbol_message(input), doc),
{
    let head = "Summarize this "@ + input.symbol_kind + " in 1-2 sentences.\n\nFile: "@
        + input.file_path + " — "@ + input.file_summary + "\n\n"@ + input.symbol_kind + " "@
        + input.symbol_name + " "@;
    let signed = match input.signature {
        Some(sig) => head + "\nSignature: "@ + sig + "\n"@,
        None => head,
    };
    let documented = match input.doc_comment {
        Some(doc) => signed + "\nDoc comment: "@ + doc + "\n"@,
        None => signed,
    };
    lemma_part_at_end(documented + "\nBody:\n"@, input.body);
    if let Some(sig) = input.signature {
        lemma_part_at_end(head + "\nSignature: "@, sig);
        lemma_part_stays(head + "\nSignature: "@ + sig, sig, "\n"@);
        if let Some(doc) = input.doc_comment {
            lemma_part_stays(signed, sig, "\nDoc comment: "@);
            lemma_part_stays(signed + "\nDoc comment: "@, sig, doc);
            lemma_part_stays(signed + "\nDoc comment: "@ + doc, sig, "\n"@);
        }
        lemma_part_stays(documented, sig, "\nBody:\n"@);
        lemma_part_stays(documented + "\nBody:\n"@, sig, input.body);
    }
    if let Some(doc) = input.doc_comment {
        lemma_part_at_end(signed + "\nDoc comment: "@, doc);
        lemma_part_stays(signed + "\nDoc comment: "@ + doc, doc, "\n"@);
        lemma_part_stays(documented, doc, "\nBody:\n"@);
        lemma_part_stays(documented + "\nBody:\n"@, doc, input.body);
    }
}

proof fn lemma_holds_on(input: SymbolSummaryInputView, d: Seq<char>, p: Seq<char>)
    requires
        occurs(d, p),
        d == "Summarize this "@ + input.symbol_kind + " in 1-2 sentences.\n\nFile: "@
            + input.file_path + " — "@ + input.file_summary + "\n\n"@ + input.symbol_kind + " "@
            + input.symbol_name,
    ensures
        occurs(symbol_message(input), p),
{
    let head = d + " "@;
    lemma_part_stays(d, p, " "@);
    let signed = match input.signature {
        Some(sig) => {
            lemma_part_stays(head, p, "\nSignature: "@);
            lemma_part_stays(head + "\nSignature: "@, p, sig);
            lemma_part_stays(head + "\nSignature: "@ + sig, p, "\n"@);
            head + "\nSignature: "@ + sig + "\n"@
        },
        None => head,
    };
    let documented = match input.doc_comment {
        Some(doc) => {
            lemma_part_stays(signed, p, "\nDoc comment: "@);
            lemma_part_stays(signed + "\nDoc comment: "@, p, doc);
            lemma_part_stays(signed + "\nDoc comment: "@ + doc, p, "\n"@);
            signed + "\nDoc comment: "@ + doc + "\n"@
        },
        None => signed,
    };
    lemma_part_stays(documented, p, "\nBody:\n"@);
    lemma_part_stays(documented + "\nBody:\n"@, p, input.body);
}

proof fn lemma_import_line(i: ImportView)
    ensures
        occurs(import_line(i), i.module),
        forall|k: int| 0 <= k < i.names.len() ==> occurs(import_line(i), #[trigger] i.names[k]),
{
    lemma_part_at_end("- "@, i.module);
    if i.names.len() > 0 {
        let names = joined(i.names, ", "@);
        lemma_part_stays("- "@ + i.module, i.module, ": "@);
        lemma_part_stays("- "@ + i.module + ": "@, i.module, names);
        lemma_part_at_end("- "@ + i.module + ": "@, names);
        assert forall|k: int| 0 <= k < i.names.len() implies occurs(
            import_line(i),
            #[trigger] i.names[k],
        ) by {
            lemma_joined_holds(i.names, ", "@, k);
            lemma_part_of_part(i.names[k], names, import_line(i));
        }
    }
}

proof fn lemma_import_lines(imports: Seq<ImportView>, k: int)
    requires
        0 <= k < imports.len(),
    ensures
        occurs(import_lines(imports), import_line(imports[k])),
    decreases imports.len(),
{
    let head = import_lines(imports.drop_last());
    let line = import_line(imports.last());
    if k < imports.len() - 1 {
        lemma_import_lines(imports.drop_last(), k);
        lemma_part_stays(head, import_line(imports[k]), line);
        lemma_part_stays(head + line, import_line(imports[k]), "\n"@);
    } else {
        lemma_part_at_end(head, line);
        lemma_part_stays(head + line, line, "\n"@);
    }
}

/// The message for a file ends with its whole content, and holds its language,
/// its path, and every module and every name it imports.
pub proof fn law_file_message_holds_the_file(input: FileSummaryInputView)
    ensures
        has_suffix(file_message(input), input.content),
        occurs(file_message(input), input.language),
        occurs(file_message(input), input.file_path),
        forall|k: int|
            0 <= k < input.imports.len() ==> occurs(
                file_message(input),
                (#[trigger] input.imports[k]).module,
            ),
        forall|k: int, j: int|
            0 <= k < input.imports.len() && 0 <= j < input.imports[k].names.len() ==> occurs(
                file_message(input),
                #[trigger] input.imports[k].names[j],
            ),
{
    let a = "Summarize this "@ + input.language;
    let b = a + " file in 2-4 sentences.\n\nFile: "@ + input.file_path;
    let head = b + "\n"@;
    let lines = import_lines(input.imports);
    let listed = if input.imports.len() > 0 {
        head + "\nImports:\n"@ + lines
    } else {
        head
    };
    let m = listed + "\nCode:\n"@ + input.content;
    assert(m == file_message(input));
    lemma_part_at_end(listed + "\nCode:\n"@, input.content);
    lemma_part_at_end("Summarize this "@, input.language);
    lemma_part_stays(a, input.language, " file in 2-4 sentences.\n\nFile: "@);
    lemma_part_stays(
        a + " file in 2-4 sentences.\n\nFile: "@,
        input.language,
        input.file_path,
    );
    lemma_part_at_end(a + " file in 2-4 sentences.\n\nFile: "@, input.file_path);
    let rest = if input.imports.len() > 0 {
        "\n"@ + "\nImports:\n"@ + lines + "\nCode:\n"@ + input.content
    } else {
        "\n"@ + "\nCode:\n"@ + input.content
    };
    assert(m =~= b + rest);
    lemma_part_stays(b, input.language, rest);
    lemma_part_stays(b, input.file_path, rest);
    assert forall|k: int| 0 <= k < input.imports.len() implies occurs(
        m,
        import_line(#[trigger] input.imports[k]),
    ) by {
        lemma_import_lines(input.imports, k);
        lemma_part_at_end(head + "\nImports:\n"@, lines);
        lemma_part_stays(listed, lines, "\nCode:\n"@);
        lemma_part_stays(listed + "\nCode:\n"@, lines, input.content);
        lemma_part_of_part(import_line(input.imports[k]), lines, m);
    }
    assert forall|k: int| 0 <= k < input.imports.len() implies occurs(
        m,
        (#[trigger] input.imports[k]).module,
    ) by {
        lemma_import_line(input.imports[k]);
        lemma_part_of_part(input.imports[k].module, import_line(input.imports[k]), m);
    }
    assert forall|k: int, j: int|
        0 <= k < input.imports.len() && 0 <= j < input.imports[k].names.len() implies occurs(
        m,
        #[trigger] input.imports[k].names[j],
    ) by {
        lemma_import_line(input.imports[k]);
        lemma_part_of_part(input.imports[k].names[j], import_line(input.imports[k]), m);
    }
}

proof fn lemma_summary_lines(list: Seq<SymbolSummaryResultView>, k: int)
    requires
        0 <= k < list.len(),
    ensures
        occurs(summary_lines(list), "- "@ + list[k].name + ": "@ + list[k].summary + "\n"@),
        k + 1 < list.len() ==> occurs(
            summary_lines(list),
            "- "@ + list[k].name + ": "@ + list[k].summary + "\n"@ + "- "@ + list[k + 1].name
                + ": "@ + list[k + 1].summary + "\n"@,
        ),
    decreases list.len(),
{
    let before = list.drop_last();
    let head = summary_lines(before);
    let x = list.last();
    let line = "- "@ + x.name + ": "@ + x.summary + "\n"@;
    assert(summary_lines(list) =~= head + line);
    if k == list.len() - 1 {
        lemma_part_at_end(head, line);
    } else {
        lemma_summary_lines(before, k);
        lemma_part_stays(head, "- "@ + list[k].name + ": "@ + list[k].summary + "\n"@, line);
        if k + 1 < list.len() - 1 {
            lemma_part_stays(
                head,
                "- "@ + list[k].name + ": "@ + list[k].summary + "\n"@ + "- "@ + list[k + 1].name
                    + ": "@ + list[k + 1].summary + "\n"@,
                line,
            );
        } else {
            let y = before.last();
            let own = "- "@ + y.name + ": "@ + y.summary + "\n"@;
            let far = summary_lines(before.drop_last());
            assert(head =~= far + own);
            let two = "- "@ + list[k].name + ": "@ + list[k].summary + "\n"@ + "- "@ + list[k
                + 1].name + ": "@ + list[k + 1].summary + "\n"@;
            assert(two =~= own + line);
            assert(summary_lines(list) =~= far + two);
            lemma_part_at_end(far, two);
        }
    }
}

/// The message for a file that is too large holds its language and its path, and
/// for every symbol, one after the other, its name with its own summary.
pub proof fn law_rollup_message_holds_the_summaries(
    file_path: Seq<char>,
    language: Seq<char>,
    list: Seq<SymbolSummaryResultView>,
)
    ensures
        occurs(rollup_message(file_path, language, list), language),
        occurs(rollup_message(file_path, language, list), file_path),
        forall|k: int|
            0 <= k < list.len() ==> occurs(
                rollup_message(file_path, language, list),
                "- "@ + (#[trigger] list[k]).name + ": "@ + list[k].summary + "\n"@,
            ),
        forall|k: int|
            0 <= k < list.len() - 1 ==> occurs(
                rollup_message(file_path, language, list),
                "- "@ + (#[trigger] list[k]).name + ": "@ + list[k].summary + "\n"@ + "- "@ + list[k
                    + 1].name + ": "@ + list[k + 1].summary + "\n"@,
            ),
{
    let m = rollup_message(file_path, language, list);
    let q1 = " file in 2-4 sentences based on its constituent symbols.\n\nFile: "@;
    let q2 =
        "\n\nThis file is too large to summarize directly. Here are summaries of its individual symbols:\n\n"@;
    let q3 =
        "\nSynthesize these into a cohesive file-level summary. Focus on the overall purpose and how the symbols relate to each other."@;
    let lines = summary_lines(list);
    let a = "Summarize this "@ + language;
    let b = a + q1 + file_path;
    lemma_part_at_end("Summarize this "@, language);
    lemma_part_at_end(a + q1, file_path);
    assert(m =~= a + (q1 + file_path + q2 + lines + q3));
    assert(m =~= b + (q2 + lines + q3));
    assert(m =~= b + q2 + lines + q3);
    lemma_part_stays(a, language, q1 + file_path + q2 + lines + q3);
    lemma_part_stays(b, file_path, q2 + lines + q3);
    lemma_part_at_end(b + q2, lines);
    lemma_part_stays(b + q2 + lines, lines, q3);
    assert forall|k: int| 0 <= k < list.len() implies occurs(
        m,
        "- "@ + (#[trigger] list[k]).name + ": "@ + list[k].summary + "\n"@,
    ) by {
        lemma_summary_lines(list, k);
        lemma_part_of_part("- "@ + list[k].name + ": "@ + list[k].summary + "\n"@, lines, m);
    }
    assert forall|k: int| 0 <= k < list.len() - 1 implies occurs(
        m,
        "- "@ + (#[trigger] list[k]).name + ": "@ + list[k].summary + "\n"@ + "- "@ + list[k
            + 1].name + ": "@ + list[k + 1].summary + "\n"@,
    ) by {
        lemma_summary_lines(list, k);
        lemma_part_of_part(
            "- "@ + list[k].name + ": "@ + list[k].summary + "\n"@ + "- "@ + list[k + 1].name
                + ": "@ + list[k + 1].summary + "\n"@,
            lines,
            m,
        );
    }
}

} // verus!
