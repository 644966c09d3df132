//! What git says, read: changed files and the identity of a repository.
use vstd::prelude::*;

use crate::hash::{short_hash, short_hash_of};
use crate::text::{
    after_last, from_chars, has_suffix, is_white, law_first_position, lemma_tail_is_part, lines,
    lines_of, occurs_at, position, replace, replaced, same, tail_after, to_chars, trim,
    trim_end_matches, trimmed, without_trailing,
};

verus! {

/// Whether a character is alphabetic or numeric in Unicode's sense.
pub uninterp spec fn alphanumeric(c: char) -> bool;

/// `char::is_alphanumeric`: whether a character is alphabetic or numeric. Which
/// characters are is a table of Unicode and is not said here.
#[verifier::external_body]
fn is_alphanumeric(c: char) -> (r: bool)
    ensures
        r == alphanumeric(c),
{
    c.is_alphanumeric()
}

/// The files that differ between two commits.
#[derive(Debug)]
pub struct DiffResult {
    pub changed: Vec<String>,
    pub deleted: Vec<String>,
}

/// The path of a status line: what stands after its first tab.
pub open spec fn status_path(line: Seq<char>) -> Option<Seq<char>> {
    match position(line, '\t') {
        Some(i) => Some(line.skip(i + 1)),
        None => None,
    }
}

/// Whether a status line says that its file was deleted.
pub open spec fn is_deletion(line: Seq<char>) -> bool {
    position(line, '\t') matches Some(i) && line.take(i) == "D"@
}

/// The paths of the lines that do, or do not, say that a file was deleted.
/// Lines without a tab are left out.
pub open spec fn diff_paths(lines: Seq<Seq<char>>, deleted: bool) -> Seq<Seq<char>>
    decreases lines.len(),
{
    if lines.len() == 0 {
        Seq::<Seq<char>>::empty()
    } else {
        let head = diff_paths(lines.drop_last(), deleted);
        match status_path(lines.last()) {
            Some(p) => if is_deletion(lines.last()) == deleted {
                head.push(p)
            } else {
                head
            },
            None => head,
        }
    }
}

/// Reads the output of `git diff --name-status`.
pub fn parse_diff(output: &str) -> (r: DiffResult)
    ensures
        r.changed.deep_view() == diff_paths(lines_of(output@), false),
        r.deleted.deep_view() == diff_paths(lines_of(output@), true),
{
    let list = lines(output);
    let ghost lv = list.deep_view();
    let mut changed: Vec<String> = Vec::new();
    let mut deleted: Vec<String> = Vec::new();
    let mut i: usize = 0;
    assert(changed.deep_view() =~= diff_paths(lv.take(0), false));
    assert(deleted.deep_view() =~= diff_paths(lv.take(0), true));
    while i < list.len()
        invariant
            i <= list@.len(),
            lv == list.deep_view(),
            changed.deep_view() == diff_paths(lv.take(i as int), false),
            deleted.deep_view() == diff_paths(lv.take(i as int), true),
        decreases list@.len() - i,
    {
        let line = list[i].as_str();
        proof {
            assert(lv.take(i + 1).drop_last() =~= lv.take(i as int));
            assert(lv.take(i + 1).last() == line@);
        }
        let v = to_chars(line);
        let n: usize = v.len();
        if let Some(t) = crate::text::find_char(v.as_slice(), '\t') {
            let status = from_chars(v.as_slice(), 0, t);
            let path = from_chars(v.as_slice(), t + 1, n);
            let ghost pv = path@;
            proof {
                assert(status@ =~= line@.take(t as int));
                assert(path@ =~= line@.skip(t + 1));
            }
            if same(status.as_str(), "D") {
                let ghost before = deleted.deep_view();
                deleted.push(path);
                assert(deleted.deep_view() =~= before.push(pv));
            } else {
                let ghost before = changed.deep_view();
                changed.push(path);
                assert(changed.deep_view() =~= before.push(pv));
            }
        }
        i += 1;
    }
    assert(lv.take(i as int) =~= lv);
    DiffResult { changed, deleted }
}

/// A remote's URL without scheme, user and `.git`, so that the ways to write
/// one remote come out the same.
pub open spec fn normal_remote(url: Seq<char>) -> Seq<char> {
    let bare = without_trailing(without_trailing(trimmed(url), "/"@), ".git"@);
    replaced(
        replaced(
            replaced(replaced(replaced(bare, "ssh://"@, ""@), "https://"@, ""@), "http://"@, ""@),
            "git@"@,
            ""@,
        ),
        ":"@,
        "/"@,
    )
}

/// Whether a character may stand in a namespace's name: a letter, a digit, a
/// hyphen or an underscore.
pub open spec fn is_name_char(c: char) -> bool {
    if c as u32 <= 0x7f {
        'a' <= c <= 'z' || 'A' <= c <= 'Z' || '0' <= c <= '9' || c == '-' || c == '_'
    } else {
        alphanumeric(c)
    }
}

/// Tells the characters that may stand in a namespace's name.
fn may_name(c: char) -> (r: bool)
    ensures
        r == is_name_char(c),
{
    if c as u32 <= 0x7f {
        ('a' <= c && c <= 'z') || ('A' <= c && c <= 'Z') || ('0' <= c && c <= '9') || c == '-'
            || c == '_'
    } else {
        is_alphanumeric(c)
    }
}

/// The namespace of a remote: the last part of its path, and a hash of all of it.
pub open spec fn namespace_of(url: Seq<char>) -> Seq<char> {
    let normal = normal_remote(url);
    after_last(normal, '/').filter(|c: char| is_name_char(c)) + "-"@ + short_hash_of(normal, 12)
}

fn name_chars(s: &str) -> (r: String)
    ensures
        r@ == s@.filter(|c: char| is_name_char(c)),
{
    let v = to_chars(s);
    let ghost p = |c: char| is_name_char(c);
    let mut out = String::new();
    let mut i: usize = 0;
    proof {
        reveal(Seq::filter);
        assert(out@ =~= s@.take(0).filter(p));
    }
    while i < v.len()
        invariant
            i <= v@.len(),
            v@ == s@,
            p == (|c: char| is_name_char(c)),
            out@ == s@.take(i as int).filter(p),
        decreases v@.len() - i,
    {
        proof {
            reveal(Seq::filter);
            assert(s@.take(i + 1).drop_last() =~= s@.take(i as int));
        }
        let c = v[i];
        if may_name(c) {
            out.push(c);
        }
        i += 1;
    }
    assert(s@.take(i as int) =~= s@);
    out
}

/// The normal form of a remote's URL.
pub fn normalize_remote(remote_url: &str) -> (r: String)
    ensures
        r@ == normal_remote(remote_url@),
{
    proof {
        reveal_strlit("/");
        reveal_strlit(".git");
        reveal_strlit("ssh://");
        reveal_strlit("https://");
        reveal_strlit("http://");
        reveal_strlit("git@");
        reveal_strlit(":");
    }
    let a = trim(remote_url);
    let b = trim_end_matches(a.as_str(), "/");
    let c = trim_end_matches(b.as_str(), ".git");
    let d = replace(c.as_str(), "ssh://", "");
    let e = replace(d.as_str(), "https://", "");
    let f = replace(e.as_str(), "http://", "");
    let g = replace(f.as_str(), "git@", "");
    replace(g.as_str(), ":", "/")
}

proof fn lemma_namespace_shape(url: Seq<char>, ns: Seq<char>)
    requires
        ns == namespace_of(url),
        short_hash_of(normal_remote(url), 12).len() == 12,
    ensures
        ns.len() >= 13,
        ns[ns.len() - 13] == '-',
        forall|i: int| 0 <= i < ns.len() - 13 ==> is_name_char(#[trigger] ns[i]),
{
    let p = |c: char| is_name_char(c);
    let tail = after_last(normal_remote(url), '/');
    let name = tail.filter(p);
    let hash = short_hash_of(normal_remote(url), 12);
    reveal_strlit("-");
    assert(ns =~= name + "-"@ + hash);
    assert forall|i: int| 0 <= i < ns.len() - 13 implies is_name_char(#[trigger] ns[i]) by {
        tail.lemma_filter_pred(p, i);
        assert(p(name[i]));
    }
}

/// Derives a repository's namespace from its remote: a name of letters, digits,
/// hyphens and underscores alone, a hyphen, and twelve digits of a hash.
pub fn derive_namespace(remote_url: &str) -> (r: String)
    ensures
        r@ == namespace_of(remote_url@),
        r@.len() >= 13,
        r@[r@.len() - 13] == '-',
        forall|i: int| 0 <= i < r@.len() - 13 ==> is_name_char(#[trigger] r@[i]),
{
    let normal = normalize_remote(remote_url);
    let mut name = name_chars(tail_after(normal.as_str(), '/').as_str());
    name.append("-");
    name.append(short_hash(normal.as_str(), 12).as_str());
    proof {
        lemma_namespace_shape(remote_url@, name@);
    }
    name
}

/// The namespace to index under: the configured one, or the remote's where
/// none is configured.
pub open spec fn chosen_namespace(configured: Seq<char>, remote: Seq<char>) -> Seq<char> {
    if configured.len() == 0 {
        namespace_of(remote)
    } else {
        configured
    }
}

/// Chooses the namespace to index under.
pub fn namespace_for(configured: &str, remote_url: &str) -> (r: crate::store::Namespace)
    ensures
        r.name@ == chosen_namespace(configured@, remote_url@),
{
    if configured.unicode_len() == 0 {
        crate::store::Namespace { name: derive_namespace(remote_url) }
    } else {
        crate::store::Namespace::from(configured)
    }
}

// ---------------------------------------------------------------------------
// Laws
// ---------------------------------------------------------------------------

/// Whether a line is a status, a tab and a path, with no tab in the status.
pub open spec fn is_status_line(line: Seq<char>, status: Seq<char>, path: Seq<char>) -> bool {
    &&& line == status.push('\t') + path
    &&& !status.contains('\t')
}

proof fn lemma_status_line(line: Seq<char>, status: Seq<char>, path: Seq<char>)
    requires
        is_status_line(line, status, path),
    ensures
        status_path(line) == Some(path),
        is_deletion(line) == (status == "D"@),
{
    law_first_position(line, '\t');
    let n = status.len() as int;
    assert(line[n] == '\t');
    match position(line, '\t') {
        Some(i) => {
            if i < n {
                assert(status[i] == '\t');
                assert(status.contains('\t'));
            }
            assert(i == n);
            assert(line.skip(n + 1) =~= path);
            assert(line.take(n) =~= status);
        },
        None => {},
    }
}

proof fn lemma_has_status(line: Seq<char>)
    requires
        status_path(line) is Some,
    ensures
        is_status_line(
            line,
            line.take(position(line, '\t')->0),
            line.skip(position(line, '\t')->0 + 1),
        ),
{
    law_first_position(line, '\t');
    let i = position(line, '\t')->0;
    let status = line.take(i);
    let path = line.skip(i + 1);
    assert(line =~= status.push('\t') + path);
    if status.contains('\t') {
        let k = choose|k: int| 0 <= k < status.len() && status[k] == '\t';
        assert(line[k] == '\t');
    }
}

/// Every status line is read: its path is deleted where the status is `D`, and
/// changed under any other status; and no other path is told of.
pub proof fn law_diffs_are_read_whole(lines: Seq<Seq<char>>, path: Seq<char>)
    ensures
        diff_paths(lines, true).contains(path) <==> exists|k: int|
            0 <= k < lines.len() && is_status_line(#[trigger] lines[k], "D"@, path),
        diff_paths(lines, false).contains(path) <==> exists|k: int, status: Seq<char>|
            0 <= k < lines.len() && status != "D"@ && #[trigger] is_status_line(
                lines[k],
                status,
                path,
            ),
    decreases lines.len(),
{
    if lines.len() > 0 {
        let head = lines.drop_last();
        let n = head.len() as int;
        law_diffs_are_read_whole(head, path);
        assert(forall|k: int| 0 <= k < n ==> #[trigger] lines[k] == head[k]);
        let x = lines.last();
        let gone = diff_paths(lines, true);
        let kept = diff_paths(lines, false);
        let gone0 = diff_paths(head, true);
        let kept0 = diff_paths(head, false);
        if status_path(x) is Some {
            lemma_has_status(x);
            let p = status_path(x)->0;
            if is_deletion(x) {
                assert(gone[gone0.len() as int] == p);
            } else {
                assert(kept[kept0.len() as int] == p);
            }
        }
        if gone0.contains(path) {
            let m = choose|m: int| 0 <= m < gone0.len() && gone0[m] == path;
            assert(gone[m] == path);
        }
        if kept0.contains(path) {
            let m = choose|m: int| 0 <= m < kept0.len() && kept0[m] == path;
            assert(kept[m] == path);
        }
        if gone.contains(path) {
            let m = choose|m: int| 0 <= m < gone.len() && gone[m] == path;
            if m < gone0.len() {
                assert(gone0[m] == path);
                let k = choose|k: int|
                    0 <= k < head.len() && is_status_line(#[trigger] head[k], "D"@, path);
                assert(is_status_line(lines[k], "D"@, path));
            } else {
                assert(is_status_line(lines[n], "D"@, path));
            }
        }
        if kept.contains(path) {
            let m = choose|m: int| 0 <= m < kept.len() && kept[m] == path;
            if m < kept0.len() {
                assert(kept0[m] == path);
                let (k, status) = choose|k: int, status: Seq<char>|
                    0 <= k < head.len() && status != "D"@ && #[trigger] is_status_line(
                        head[k],
                        status,
                        path,
                    );
                assert(is_status_line(lines[k], status, path));
            } else {
                assert(is_status_line(lines[n], x.take(position(x, '\t')->0), path));
            }
        }
        if exists|k: int| 0 <= k < lines.len() && is_status_line(#[trigger] lines[k], "D"@, path) {
            let k = choose|k: int|
                0 <= k < lines.len() && is_status_line(#[trigger] lines[k], "D"@, path);
            lemma_status_line(lines[k], "D"@, path);
            if k < n {
                assert(is_status_line(head[k], "D"@, path));
            }
        }
        if exists|k: int, status: Seq<char>|
            0 <= k < lines.len() && status != "D"@ && #[trigger] is_status_line(
                lines[k],
                status,
                path,
            ) {
            let (k, status) = choose|k: int, status: Seq<char>|
                0 <= k < lines.len() && status != "D"@ && #[trigger] is_status_line(
                    lines[k],
                    status,
                    path,
                );
            lemma_status_line(lines[k], status, path);
            if k < n {
                assert(is_status_line(head[k], status, path));
            }
        }
    }
}

/// A derived namespace is made of characters that may stand in a name, a hyphen,
/// and the beginning of a hash; a configured one is taken as it is.
pub proof fn law_namespaces_are_names(configured: Seq<char>, remote: Seq<char>)
    ensures
        configured.len() > 0 ==> chosen_namespace(configured, remote) == configured,
        configured.len() == 0 ==> {
            let name = chosen_namespace(configured, remote);
            let tail = "-"@ + short_hash_of(normal_remote(remote), 12);
            &&& has_suffix(name, tail)
            &&& forall|k: int|
                0 <= k < name.len() - tail.len() ==> is_name_char(#[trigger] name[k])
                    && normal_remote(remote).contains(name[k])
        },
{
    let normal = normal_remote(remote);
    let own = after_last(normal, '/');
    let p = |c: char| is_name_char(c);
    let kept = own.filter(p);
    let tail = "-"@ + short_hash_of(normal, 12);
    let name = namespace_of(remote);
    assert(name =~= kept + tail);
    assert(name.skip(name.len() - tail.len()) =~= tail);
    assert forall|k: int| 0 <= k < name.len() - tail.len() implies is_name_char(#[trigger] name[k])
        && normal.contains(name[k]) by {
        assert(name[k] == kept[k]);
        own.lemma_filter_pred(p, k);
        assert(p(kept[k]));
        assert(kept.contains(kept[k]));
        own.lemma_filter_contains_rev(p, kept[k]);
        lemma_tail_is_part(normal, '/');
        let at = choose|at: int| occurs_at(normal, own, at);
        let m = choose|m: int| 0 <= m < own.len() && own[m] == kept[k];
        assert(normal.subrange(at, at + own.len())[m] == own[m]);
        assert(normal[at + m] == own[m]);
    }
}

/// The part of a remote's path that a namespace is named after is lost in none of
/// its name characters: each stands in the namespace.
pub proof fn law_namespaces_keep_the_name(remote: Seq<char>, c: char)
    requires
        is_name_char(c),
        after_last(normal_remote(remote), '/').contains(c),
    ensures
        namespace_of(remote).contains(c),
{
    let own = after_last(normal_remote(remote), '/');
    let p = |c: char| is_name_char(c);
    let m = choose|m: int| 0 <= m < own.len() && own[m] == c;
    assert(p(own[m]));
    own.lemma_filter_contains(p, m);
    let kept = own.filter(p);
    let k = choose|k: int| 0 <= k < kept.len() && kept[k] == c;
    assert(namespace_of(remote)[k] == c);
}

proof fn lemma_without_trailing_once(s: Seq<char>, p: Seq<char>)
    requires
        p.len() > 0,
    ensures
        without_trailing(s + p, p) == without_trailing(s, p),
{
    let t = s + p;
    assert(t.skip(t.len() - p.len()) =~= p);
    assert(t.take(t.len() - p.len()) =~= s);
}

/// A slash or a `.git` at the end of a remote's URL makes no difference.
pub proof fn law_ends_of_a_remote_make_no_difference(url: Seq<char>)
    requires
        url.len() > 0,
        !is_white(url[0]),
        !is_white(url.last()),
    ensures
        normal_remote(url + "/"@) == normal_remote(url),
        namespace_of(url + "/"@) == namespace_of(url),
        url.last() != '/' ==> normal_remote(url + ".git"@) == normal_remote(url),
        url.last() != '/' ==> namespace_of(url + ".git"@) == namespace_of(url),
{
    reveal_strlit("/");
    reveal_strlit(".git");
    let a = url + "/"@;
    let b = url + ".git"@;
    assert(a[0] == url[0] && a.last() == '/');
    assert(b[0] == url[0] && b.last() == 't');
    assert(trimmed(url) =~= url);
    assert(trimmed(a) =~= a);
    assert(trimmed(b) =~= b);
    lemma_without_trailing_once(url, "/"@);
    if url.last() != '/' {
        assert(!has_suffix(url, "/"@)) by {
            if has_suffix(url, "/"@) {
                assert(url.skip(url.len() - 1)[0] == url.last());
            }
        }
        assert(!has_suffix(b, "/"@)) by {
            if has_suffix(b, "/"@) {
                assert(b.skip(b.len() - 1)[0] == b.last());
            }
        }
        assert(without_trailing(b, "/"@) == b);
        assert(without_trailing(url, "/"@) == url);
        lemma_without_trailing_once(url, ".git"@);
    }
}

} // verus!
