//! Source synthesis: the deterministic assembly of a session's ordered
//! fragments into one complete program text.

use vstd::prelude::*;
use crate::fragment::{Placement, SolSnippet, spec_placement};
use crate::version::{LangVersion, version_chars};

verus! {

/// The raw text of the first fragment classified as a pragma candidate,
/// if the session has one.
pub open spec fn first_pragma_raw(s: Seq<SolSnippet>) -> Option<Seq<char>>
    decreases s.len(),
{
    if s.len() == 0 {
        None
    } else if spec_placement(s.first().kinds@) == Placement::PragmaCandidate {
        Some(s.first().raw@)
    } else {
        first_pragma_raw(s.drop_first())
    }
}

/// The pragma line of the synthesized program: the first pragma fragment's
/// exact text, or the canonical line embedding the session's version.
pub open spec fn spec_pragma_line(v: LangVersion, s: Seq<SolSnippet>) -> Seq<char> {
    match first_pragma_raw(s) {
        Some(t) => t,
        None => "pragma solidity "@ + version_chars(v) + ";"@,
    }
}

/// The literal paths of every import directive of every fragment, in session
/// order and then in tree order.
pub open spec fn import_paths(s: Seq<SolSnippet>) -> Seq<Seq<char>>
    decreases s.len(),
{
    if s.len() == 0 {
        Seq::empty()
    } else {
        import_paths(s.drop_last()) + s.last().imports.deep_view()
    }
}

/// The raw texts of the fragments classified as `p`, in session order.
pub open spec fn texts_placed(s: Seq<SolSnippet>, p: Placement) -> Seq<Seq<char>>
    decreases s.len(),
{
    if s.len() == 0 {
        Seq::empty()
    } else {
        texts_placed(s.drop_last(), p) + if spec_placement(s.last().kinds@) == p {
            seq![s.last().raw@]
        } else {
            Seq::empty()
        }
    }
}

/// `parts` joined with the separator `sep` between each two, none trailing.
pub open spec fn joined(parts: Seq<Seq<char>>, sep: Seq<char>) -> Seq<char>
    decreases parts.len(),
{
    if parts.len() == 0 {
        Seq::empty()
    } else if parts.len() == 1 {
        parts[0]
    } else {
        joined(parts.drop_last(), sep) + sep + parts.last()
    }
}

/// The complete synthesized program text: a license marker, the pragma line,
/// the import block, and one container wrapping the renderable fragments and
/// a default entry point wrapping the fallback fragments.
pub open spec fn spec_render(v: LangVersion, s: Seq<SolSnippet>) -> Seq<char> {
    "// SPDX-License-Identifier: UNLICENSED\n"@ + spec_pragma_line(v, s)
        + "\n\n// Imports\n"@ + joined(import_paths(s), "\n"@)
        + "\n\n/// @title REPL\ncontract REPL {\n    "@
        + joined(texts_placed(s, Placement::TopLevelRenderable), "\n\n"@)
        + "\n\n    fallback() {\n        "@
        + joined(texts_placed(s, Placement::FallbackOnly), "\n"@) + "\n    }\n}\n"@
}

/// Finds the first pragma-candidate fragment's raw text.
fn find_pragma(session: &Vec<SolSnippet>) -> (r: Option<String>)
    ensures
        match r {
            Some(t) => first_pragma_raw(session@) == Some(t@),
            None => first_pragma_raw(session@) is None,
        },
{
    let n = session.len();
    let mut i: usize = 0;
    proof {
        assert(session@.skip(0) =~= session@);
    }
    loop
        invariant
            i <= n == session@.len(),
            first_pragma_raw(session@) == first_pragma_raw(session@.skip(i as int)),
        ensures
            match first_pragma_raw(session@) {
                Some(t) => i < n && session@[i as int].raw@ == t,
                None => i == n,
            },
        decreases n - i,
    {
        if i >= n {
            proof {
                assert(session@.skip(i as int) =~= Seq::<SolSnippet>::empty());
            }
            break;
        }
        let ghost rest = session@.skip(i as int);
        proof {
            assert(rest.first() == session@[i as int]);
        }
        if matches!(session[i].placement(), Placement::PragmaCandidate) {
            break;
        }
        proof {
            assert(rest.drop_first() =~= session@.skip(i as int + 1));
        }
        i = i + 1;
    }
    if i < session.len() {
        Some(session[i].raw.clone())
    } else {
        None
    }
}

/// Joins parts with a separator, none leading or trailing.
pub fn join_with(parts: &Vec<String>, sep: &str) -> (r: String)
    ensures
        r@ == joined(parts.deep_view(), sep@),
{
    let mut out = String::new();
    let n = parts.len();
    let mut i: usize = 0;
    while i < n
        invariant
            i <= n == parts@.len(),
            out@ == joined(parts.deep_view().take(i as int), sep@),
        decreases n - i,
    {
        let ghost prev = parts.deep_view().take(i as int);
        let ghost cur = parts.deep_view().take(i as int + 1);
        if i > 0 {
            out.append(sep);
        }
        out.append(parts[i].as_str());
        proof {
            assert(cur.last() == parts.deep_view()[i as int]);
            if i == 0 {
                assert(joined(cur, sep@) == cur[0]);
            } else {
                assert(cur.drop_last() =~= prev);
                assert(joined(cur, sep@) == joined(prev, sep@) + sep@ + cur.last());
            }
        }
        i = i + 1;
    }
    proof {
        assert(parts.deep_view().take(n as int) =~= parts.deep_view());
    }
    out
}

/// Collects the import paths of the whole session, in order.
fn collect_imports(session: &Vec<SolSnippet>) -> (r: Vec<String>)
    ensures
        r.deep_view() == import_paths(session@),
{
    let mut out: Vec<String> = Vec::new();
    let n = session.len();
    let mut i: usize = 0;
    while i < n
        invariant
            i <= n == session@.len(),
            out.deep_view() == import_paths(session@.take(i as int)),
        decreases n - i,
    {
        let ghost cur = session@.take(i as int + 1);
        let snippet = &session[i];
        let m = snippet.imports.len();
        let mut k: usize = 0;
        while k < m
            invariant
                k <= m == snippet.imports@.len(),
                snippet == session@[i as int],
                i < n == session@.len(),
                out.deep_view() == import_paths(session@.take(i as int))
                    + snippet.imports.deep_view().take(k as int),
            decreases m - k,
        {
            let ghost before = out.deep_view();
            let c = snippet.imports[k].clone();
            let ghost cv = c@;
            out.push(c);
            proof {
                assert(out.deep_view() =~= before.push(cv));
                assert(cv == snippet.imports.deep_view()[k as int]);
                assert(snippet.imports.deep_view().take(k as int + 1)
                    =~= snippet.imports.deep_view().take(k as int).push(cv));
                assert(out.deep_view() =~= import_paths(session@.take(i as int))
                    + snippet.imports.deep_view().take(k as int + 1));
            }
            k = k + 1;
        }
        proof {
            assert(cur.drop_last() =~= session@.take(i as int));
            assert(cur.last() == session@[i as int]);
            assert(snippet.imports.deep_view().take(m as int) =~= snippet.imports.deep_view());
        }
        i = i + 1;
    }
    proof {
        assert(session@.take(n as int) =~= session@);
    }
    out
}

/// Collects the raw texts of the fragments classified as `p`, in order.
fn collect_placed(session: &Vec<SolSnippet>, p: Placement) -> (r: Vec<String>)
    ensures
        r.deep_view() == texts_placed(session@, p),
{
    let mut out: Vec<String> = Vec::new();
    let n = session.len();
    let mut i: usize = 0;
    while i < n
        invariant
            i <= n == session@.len(),
            out.deep_view() == texts_placed(session@.take(i as int), p),
        decreases n - i,
    {
        let ghost cur = session@.take(i as int + 1);
        proof {
            assert(cur.drop_last() =~= session@.take(i as int));
            assert(cur.last() == session@[i as int]);
        }
        if session[i].placement() == p {
            out.push(session[i].raw.clone());
            proof {
                assert(out.deep_view() =~= texts_placed(cur, p));
            }
        } else {
            proof {
                assert(out.deep_view() =~= texts_placed(cur, p));
            }
        }
        i = i + 1;
    }
    proof {
        assert(session@.take(n as int) =~= session@);
    }
    out
}

/// Renders the full source code for a session: deterministic in the session
/// content and the pinned version alone.
pub fn synthesize(version: &LangVersion, session: &Vec<SolSnippet>) -> (r: String)
    ensures
        r@ == spec_render(*version, session@),
{
    let pragma_line: String = match find_pragma(session) {
        Some(t) => t,
        None => {
            let mut line = String::from_str("pragma solidity ");
            let v = version.render();
            line.append(v.as_str());
            line.append(";");
            line
        },
    };
    let imports = collect_imports(session);
    let import_block = join_with(&imports, "\n");
    let tops = collect_placed(session, Placement::TopLevelRenderable);
    let top_block = join_with(&tops, "\n\n");
    let falls = collect_placed(session, Placement::FallbackOnly);
    let fall_block = join_with(&falls, "\n");
    let mut out = String::from_str("// SPDX-License-Identifier: UNLICENSED\n");
    out.append(pragma_line.as_str());
    out.append("\n\n// Imports\n");
    out.append(import_block.as_str());
    out.append("\n\n/// @title REPL\ncontract REPL {\n    ");
    out.append(top_block.as_str());
    out.append("\n\n    fallback() {\n        ");
    out.append(fall_block.as_str());
    out.append("\n    }\n}\n");
    out
}

} // verus!
