//! The library's general laws, each proved once and for all: rendering is
//! deterministic in the session content, placement groups preserve
//! submission order, pragma selection honors the first pragma fragment, and
//! a printed snapshot reads back as exactly what was printed.

use vstd::prelude::*;
use crate::dec::{dec_digits, dec_val, digit_run_len, is_digit};
use crate::env::ChiselEnv;
use crate::fragment::{parsed, spec_placement, Placement, SolSnippet};
use crate::synth::{first_pragma_raw, import_paths, joined, spec_pragma_line, spec_render, texts_placed};
use crate::version::{version_chars, LangVersion};
use crate::snapshot::{escape, esc_char, esc_code, record_chars, records_chars, snapshot_chars, spec_expect, spec_parse_dec, spec_parse_record, spec_parse_records, spec_parse_snapshot, spec_parse_string, spec_parse_version_at, SnapRecordView, SnapshotView};
use crate::cache::{has_at, lemma_session_name_round_trip, session_file_chars, spec_next_session, winner_latest, CacheEntry, CacheError};

verus! {

/// Two sessions whose fragments carry the same data, element for element:
/// the same declaration kinds, the same import paths, the same raw text.
pub open spec fn session_views_equal(s1: Seq<SolSnippet>, s2: Seq<SolSnippet>) -> bool {
    s1.len() == s2.len() && forall|i: int|
        0 <= i < s1.len() ==> (#[trigger] s1[i]).kinds@ == s2[i].kinds@
            && s1[i].imports.deep_view() == s2[i].imports.deep_view() && s1[i].raw@ == s2[i].raw@
}

proof fn lemma_pragma_views(s1: Seq<SolSnippet>, s2: Seq<SolSnippet>)
    requires
        session_views_equal(s1, s2),
    ensures
        first_pragma_raw(s1) == first_pragma_raw(s2),
    decreases s1.len(),
{
    if s1.len() > 0 {
        assert(session_views_equal(s1.drop_first(), s2.drop_first())) by {
            assert forall|i: int|
                0 <= i < s1.drop_first().len() implies (#[trigger] s1.drop_first()[i]).kinds@
                == s2.drop_first()[i].kinds@ && s1.drop_first()[i].imports.deep_view()
                == s2.drop_first()[i].imports.deep_view() && s1.drop_first()[i].raw@
                == s2.drop_first()[i].raw@ by {
                assert(s1.drop_first()[i] == s1[i + 1]);
                assert(s2.drop_first()[i] == s2[i + 1]);
            }
        }
        lemma_pragma_views(s1.drop_first(), s2.drop_first());
        assert(s1.first() == s1[0] && s2.first() == s2[0]);
    }
}

proof fn lemma_imports_views(s1: Seq<SolSnippet>, s2: Seq<SolSnippet>)
    requires
        session_views_equal(s1, s2),
    ensures
        import_paths(s1) == import_paths(s2),
    decreases s1.len(),
{
    if s1.len() > 0 {
        assert(session_views_equal(s1.drop_last(), s2.drop_last()));
        lemma_imports_views(s1.drop_last(), s2.drop_last());
        assert(s1.last() == s1[s1.len() - 1] && s2.last() == s2[s2.len() - 1]);
    }
}

proof fn lemma_texts_views(s1: Seq<SolSnippet>, s2: Seq<SolSnippet>, p: Placement)
    requires
        session_views_equal(s1, s2),
    ensures
        texts_placed(s1, p) == texts_placed(s2, p),
    decreases s1.len(),
{
    if s1.len() > 0 {
        assert(session_views_equal(s1.drop_last(), s2.drop_last()));
        lemma_texts_views(s1.drop_last(), s2.drop_last(), p);
        assert(s1.last() == s1[s1.len() - 1] && s2.last() == s2[s2.len() - 1]);
    }
}

/// Rendering is deterministic in the session's content: two sessions whose
/// fragments carry the same data render to the same text, whatever distinct
/// values hold that data.
pub proof fn lemma_render_deterministic(v: LangVersion, s1: Seq<SolSnippet>, s2: Seq<SolSnippet>)
    requires
        session_views_equal(s1, s2),
    ensures
        spec_render(v, s1) == spec_render(v, s2),
{
    lemma_pragma_views(s1, s2);
    lemma_imports_views(s1, s2);
    lemma_texts_views(s1, s2, Placement::TopLevelRenderable);
    lemma_texts_views(s1, s2, Placement::FallbackOnly);
}

/// Placement groups preserve submission order: the group of an extended
/// session is the group of its first part followed by the group of what was
/// appended, in order.
pub proof fn lemma_groups_append(s1: Seq<SolSnippet>, s2: Seq<SolSnippet>, p: Placement)
    ensures
        texts_placed(s1 + s2, p) == texts_placed(s1, p) + texts_placed(s2, p),
    decreases s2.len(),
{
    if s2.len() == 0 {
        assert(s1 + s2 =~= s1);
        assert(texts_placed(s1, p) + texts_placed(s2, p) =~= texts_placed(s1, p));
    } else {
        assert((s1 + s2).drop_last() =~= s1 + s2.drop_last());
        assert((s1 + s2).last() == s2.last());
        lemma_groups_append(s1, s2.drop_last(), p);
        let tail: Seq<Seq<char>> = if spec_placement(s2.last().kinds@) == p {
            seq![s2.last().raw@]
        } else {
            Seq::empty()
        };
        assert((texts_placed(s1, p) + texts_placed(s2.drop_last(), p)) + tail =~= texts_placed(
            s1,
            p,
        ) + (texts_placed(s2.drop_last(), p) + tail));
    }
}

/// A session containing a pragma fragment renders that fragment's exact
/// text as its pragma line; the earliest pragma fragment wins.
pub proof fn lemma_pragma_precedence(v: LangVersion, s: Seq<SolSnippet>, k: int)
    requires
        0 <= k < s.len(),
        spec_placement(s[k].kinds@) == Placement::PragmaCandidate,
        forall|j: int|
            0 <= j < k ==> spec_placement((#[trigger] s[j]).kinds@)
                != Placement::PragmaCandidate,
    ensures
        spec_pragma_line(v, s) == s[k].raw@,
    decreases k,
{
    if k == 0 {
        assert(s.first() == s[0]);
    } else {
        assert(s.first() == s[0]);
        assert(spec_placement(s[0].kinds@) != Placement::PragmaCandidate);
        assert forall|j: int|
            0 <= j < k - 1 implies spec_placement((#[trigger] s.drop_first()[j]).kinds@)
            != Placement::PragmaCandidate by {
            assert(s.drop_first()[j] == s[j + 1]);
        }
        assert(s.drop_first()[k - 1] == s[k]);
        lemma_pragma_precedence(v, s.drop_first(), k - 1);
    }
}

/// A session with no pragma fragment renders the canonical pragma line
/// embedding the pinned version.
pub proof fn lemma_pragma_default(v: LangVersion, s: Seq<SolSnippet>)
    requires
        forall|i: int|
            0 <= i < s.len() ==> spec_placement((#[trigger] s[i]).kinds@)
                != Placement::PragmaCandidate,
    ensures
        spec_pragma_line(v, s) == "pragma solidity "@ + version_chars(v) + ";"@,
    decreases s.len(),
{
    if s.len() > 0 {
        assert(s.first() == s[0]);
        assert forall|i: int|
            0 <= i < s.drop_first().len() implies spec_placement(
            (#[trigger] s.drop_first()[i]).kinds@,
        ) != Placement::PragmaCandidate by {
            assert(s.drop_first()[i] == s[i + 1]);
        }
        lemma_pragma_default(v, s.drop_first());
    }
}

/// What an environment persists as reads back as exactly what was
/// persisted: the same version, the same record texts in the same order,
/// and the same id.
pub proof fn lemma_env_round_trip(env: ChiselEnv, id: Option<u64>)
    ensures
        spec_parse_snapshot(snapshot_chars(env.snapshot_view(id))) == Some(env.snapshot_view(id)),
{
    lemma_snapshot_round_trip(env.snapshot_view(id));
}

/// On restore, re-parsing each persisted record's source text yields the
/// very declaration kinds and import paths the live session held, so every
/// restored fragment classifies exactly as the original did.
pub proof fn lemma_restore_classifies_identically(env: ChiselEnv, id: Option<u64>)
    requires
        env.wf(),
    ensures
        ({
            let sv = env.snapshot_view(id);
            forall|i: int|
                0 <= i < sv.records.len() ==> parsed(#[trigger] sv.records[i].source_unit)
                    == Some((env.session@[i].kinds@, env.session@[i].imports.deep_view()))
        }),
{
    let sv = env.snapshot_view(id);
    assert forall|i: int| 0 <= i < sv.records.len() implies parsed(
        #[trigger] sv.records[i].source_unit,
    ) == Some((env.session@[i].kinds@, env.session@[i].imports.deep_view())) by {
        assert(sv.records[i].source_unit == env.session@[i].raw@);
        assert(env.session@[i].wf());
    }
}

/// After a snapshot with id `id` becomes the most recently modified entry,
/// the next allocation yields `id + 1`.
pub proof fn lemma_next_session_after_write(entries: Seq<CacheEntry>, id: u64)
    requires
        entries.len() > 0,
        id < u64::MAX,
        entries[winner_latest(entries)].name@ == session_file_chars(id as nat),
    ensures
        spec_next_session(entries) == Ok::<u64, CacheError>((id + 1) as u64),
{
    lemma_session_name_round_trip(id);
}

/// A maximal digit run over an all-digit stretch with a non-digit boundary
/// is exactly that stretch.
pub proof fn lemma_run_exact(s: Seq<char>, i: int, e: int)
    requires
        0 <= i <= e <= s.len(),
        forall|j: int| i <= j < e ==> is_digit(#[trigger] s[j]),
        e == s.len() || !is_digit(s[e]),
    ensures
        digit_run_len(s, i) == e - i,
    decreases e - i,
{
    if i < e {
        lemma_run_exact(s, i + 1, e);
    }
}

/// A literal found at the front of a compound is found in each of its parts.
pub proof fn lemma_has_at_split(s: Seq<char>, i: int, a: Seq<char>, b: Seq<char>)
    requires
        has_at(s, i, a + b),
    ensures
        has_at(s, i, a),
        has_at(s, i + a.len(), b),
{
    let ab = a + b;
    assert forall|j: int| 0 <= j < a.len() implies s.subrange(i, i + a.len() as int)[j] == a[j] by {
        assert(s.subrange(i, i + ab.len() as int)[j] == ab[j]);
        assert(ab[j] == a[j]);
        assert(s.subrange(i, i + ab.len() as int)[j] == s[i + j]);
        assert(s.subrange(i, i + a.len() as int)[j] == s[i + j]);
    }
    assert(s.subrange(i, i + a.len() as int) =~= a);
    assert forall|j: int| 0 <= j < b.len() implies s.subrange(
        i + a.len(),
        i + a.len() + b.len() as int,
    )[j] == b[j] by {
        assert(s.subrange(i, i + ab.len() as int)[a.len() + j] == ab[a.len() + j]);
        assert(ab[a.len() + j] == b[j]);
        assert(s.subrange(i, i + ab.len() as int)[a.len() + j] == s[i + a.len() + j]);
        assert(s.subrange(i + a.len(), i + a.len() + b.len() as int)[j] == s[i + a.len() + j]);
    }
    assert(s.subrange(i + a.len(), i + a.len() + b.len() as int) =~= b);
}

/// A character inside a literal found at `i` is the literal's character.
pub proof fn lemma_has_at_index(s: Seq<char>, i: int, p: Seq<char>, j: int)
    requires
        has_at(s, i, p),
        0 <= j < p.len(),
    ensures
        s[i + j] == p[j],
{
    assert(s.subrange(i, i + p.len() as int)[j] == s[i + j]);
}

/// Scanning a decimal at a printed number yields the number back.
pub proof fn lemma_dec_at(s: Seq<char>, i: int, n: u64)
    requires
        has_at(s, i, dec_digits(n as nat)),
        i + dec_digits(n as nat).len() == s.len() || !is_digit(
            s[i + dec_digits(n as nat).len()],
        ),
    ensures
        spec_parse_dec(s, i) == Some((n, i + dec_digits(n as nat).len() as int)),
{
    let d = dec_digits(n as nat);
    crate::dec::lemma_dec_digits_shape(n as nat);
    crate::dec::lemma_dec_round_trip(n as nat);
    assert forall|j: int| i <= j < i + d.len() implies is_digit(#[trigger] s[j]) by {
        assert(s[j] == s.subrange(i, i + d.len())[j - i]);
    }
    lemma_run_exact(s, i, i + d.len() as int);
    assert(s.subrange(i, i + d.len()) == d);
    assert(dec_val(d) == n as nat);
}

/// Reading a quoted string at an escaped text followed by a quote yields
/// the text back, stopping at the quote.
pub proof fn lemma_escape_parse(s: Seq<char>, i: int, t: Seq<char>)
    requires
        has_at(s, i, escape(t)),
        i + escape(t).len() < s.len(),
        s[i + escape(t).len()] == '"',
    ensures
        spec_parse_string(s, i) == Some((t, i + escape(t).len() as int)),
    decreases t.len(),
{
    if t.len() == 0 {
        assert(t =~= Seq::<char>::empty());
        assert(escape(t).len() == 0);
    } else {
        let c = t.first();
        let t2 = t.drop_first();
        assert(escape(t) == esc_char(c) + escape(t2));
        lemma_has_at_split(s, i, esc_char(c), escape(t2));
        assert(seq![c] + t2 =~= t);
        if c == '"' || c == '\\' || c == '\n' || c == '\r' || c == '\t' {
            assert(esc_char(c).len() == 2);
            lemma_has_at_index(s, i, esc_char(c), 0);
            lemma_has_at_index(s, i, esc_char(c), 1);
            assert(s[i] == '\\');
            assert(esc_code(s[i + 1]) == Some(c));
            lemma_escape_parse(s, i + 2, t2);
        } else {
            assert(esc_char(c) =~= seq![c]);
            lemma_has_at_index(s, i, esc_char(c), 0);
            assert(s[i] == c);
            lemma_escape_parse(s, i + 1, t2);
        }
    }
}

/// Reading a dotted version at a printed one yields it back.
pub proof fn lemma_version_at(s: Seq<char>, i: int, v: LangVersion)
    requires
        has_at(s, i, version_chars(v)),
        i + version_chars(v).len() == s.len() || !is_digit(s[i + version_chars(v).len()]),
    ensures
        spec_parse_version_at(s, i) == Some((v, i + version_chars(v).len() as int)),
{
    reveal_strlit(".");
    let dmaj = dec_digits(v.major as nat);
    let dmin = dec_digits(v.minor as nat);
    let dpat = dec_digits(v.patch as nat);
    let dot = seq!['.'];
    assert(version_chars(v) =~= dmaj + (dot + (dmin + (dot + dpat))));
    lemma_has_at_split(s, i, dmaj, dot + (dmin + (dot + dpat)));
    let i1 = i + dmaj.len();
    lemma_has_at_split(s, i1, dot, dmin + (dot + dpat));
    let i2 = i1 + 1;
    lemma_has_at_split(s, i2, dmin, dot + dpat);
    let i3 = i2 + dmin.len();
    lemma_has_at_split(s, i3, dot, dpat);
    let i4 = i3 + 1;
    lemma_has_at_index(s, i1, dot, 0);
    lemma_has_at_index(s, i3, dot, 0);
    assert(s[i1] == '.');
    assert(s[i3] == '.');
    lemma_dec_at(s, i, v.major);
    assert("."@ =~= dot);
    assert(has_at(s, i1, "."@));
    lemma_dec_at(s, i2, v.minor);
    assert(has_at(s, i3, "."@));
    lemma_dec_at(s, i4, v.patch);
}

/// Reading one record at a printed one yields it back.
pub proof fn lemma_record_at(s: Seq<char>, i: int, r: SnapRecordView)
    requires
        has_at(s, i, record_chars(r)),
    ensures
        spec_parse_record(s, i) == Some((r, i + record_chars(r).len() as int)),
{
    reveal_strlit("{\"source_unit\":\"");
    reveal_strlit("\",\"raw\":\"");
    reveal_strlit("\"}");
    let l1 = "{\"source_unit\":\""@;
    let l2 = "\",\"raw\":\""@;
    let l3 = "\"}"@;
    let e1 = escape(r.source_unit);
    let e2 = escape(r.raw);
    assert(record_chars(r) =~= l1 + (e1 + (l2 + (e2 + l3))));
    lemma_has_at_split(s, i, l1, e1 + (l2 + (e2 + l3)));
    let i1 = i + l1.len();
    lemma_has_at_split(s, i1, e1, l2 + (e2 + l3));
    let i2 = i1 + e1.len();
    lemma_has_at_split(s, i2, l2, e2 + l3);
    let i3 = i2 + l2.len();
    lemma_has_at_split(s, i3, e2, l3);
    let i4 = i3 + e2.len();
    lemma_has_at_index(s, i2, l2, 0);
    assert(s[i2] == l2[0]);
    lemma_escape_parse(s, i1, r.source_unit);
    lemma_has_at_index(s, i4, l3, 0);
    assert(s[i4] == l3[0]);
    lemma_escape_parse(s, i3, r.raw);
}

/// A joined list, seen from the front: its first part, the separator, then
/// the rest joined.
pub proof fn lemma_joined_front(parts: Seq<Seq<char>>, sep: Seq<char>)
    requires
        parts.len() >= 2,
    ensures
        joined(parts, sep) == parts.first() + sep + joined(parts.drop_first(), sep),
    decreases parts.len(),
{
    if parts.len() == 2 {
        assert(parts.drop_last() =~= seq![parts.first()]);
        assert(parts.drop_first() =~= seq![parts.last()]);
        assert(joined(parts.drop_first(), sep) == parts[1]);
        assert(joined(parts.drop_last(), sep) == parts.first());
    } else {
        lemma_joined_front(parts.drop_last(), sep);
        assert(parts.drop_last().drop_first() =~= parts.drop_first().drop_last());
        assert(parts.drop_last().first() == parts.first());
        assert(parts.drop_first().last() == parts.last());
        let q = parts.drop_first();
        assert(joined(q, sep) == joined(q.drop_last(), sep) + sep + q.last());
        assert((parts.first() + sep + joined(q.drop_last(), sep)) + sep + q.last() =~= parts.first()
            + sep + (joined(q.drop_last(), sep) + sep + q.last()));
    }
}

/// Reading a record list at a printed non-empty one, with a closing bracket
/// after it, yields the records back.
pub proof fn lemma_records_at(s: Seq<char>, i: int, rs: Seq<SnapRecordView>)
    requires
        rs.len() >= 1,
        has_at(s, i, records_chars(rs)),
        i + records_chars(rs).len() < s.len(),
        s[i + records_chars(rs).len()] == ']',
    ensures
        spec_parse_records(s, i) == Some((rs, i + records_chars(rs).len() as int)),
    decreases rs.len(),
{
    reveal_strlit("{\"source_unit\":\"");
    let parts = rs.map_values(|r: SnapRecordView| record_chars(r));
    if rs.len() == 1 {
        assert(records_chars(rs) == record_chars(rs[0]));
        lemma_record_at(s, i, rs[0]);
        let j = i + record_chars(rs[0]).len();
        assert(s[j] == ']');
        assert(seq![rs[0]] =~= rs);
    } else {
        lemma_joined_front(parts, seq![',']);
        assert(parts.first() == record_chars(rs[0]));
        assert(records_chars(rs) == record_chars(rs[0]) + seq![','] + joined(
            parts.drop_first(),
            seq![','],
        ));
        assert(parts.drop_first() =~= rs.drop_first().map_values(
            |r: SnapRecordView| record_chars(r),
        ));
        let rest_chars = records_chars(rs.drop_first());
        assert(records_chars(rs) =~= record_chars(rs[0]) + (seq![','] + rest_chars));
        lemma_has_at_split(s, i, record_chars(rs[0]), seq![','] + rest_chars);
        let j = i + record_chars(rs[0]).len();
        lemma_has_at_split(s, j, seq![','], rest_chars);
        lemma_record_at(s, i, rs[0]);
        lemma_has_at_index(s, j, seq![','], 0);
        assert(s[j] == ',');
        lemma_records_at(s, j + 1, rs.drop_first());
        assert(seq![rs.first()] + rs.drop_first() =~= rs);
    }
}

/// Reading back a printed snapshot yields exactly the printed content.
#[verifier::rlimit(100)]
pub proof fn lemma_snapshot_round_trip(v: SnapshotView)
    ensures
        spec_parse_snapshot(snapshot_chars(v)) == Some(v),
{
    reveal_strlit("{\"solc_version\":\"");
    reveal_strlit("\",\"session\":[");
    reveal_strlit("]");
    reveal_strlit("}");
    reveal_strlit(",\"id\":");
    reveal_strlit("{\"source_unit\":\"");
    let s = snapshot_chars(v);
    let l0 = "{\"solc_version\":\""@;
    let vc = version_chars(v.solc_version);
    let l1 = "\",\"session\":["@;
    let rc = records_chars(v.records);
    let tail: Seq<char> = match v.id {
        Some(i) => ",\"id\":"@ + dec_digits(i as nat) + "}"@,
        None => "}"@,
    };
    assert(s =~= l0 + (vc + (l1 + (rc + (seq![']'] + tail)))));
    assert(has_at(s, 0, s)) by {
        assert(s.subrange(0, s.len() as int) =~= s);
    }
    lemma_has_at_split(s, 0, l0, vc + (l1 + (rc + (seq![']'] + tail))));
    let i1 = l0.len() as int;
    lemma_has_at_split(s, i1, vc, l1 + (rc + (seq![']'] + tail)));
    let i2 = i1 + vc.len();
    lemma_has_at_split(s, i2, l1, rc + (seq![']'] + tail));
    let i3 = i2 + l1.len();
    lemma_has_at_split(s, i3, rc, seq![']'] + tail);
    let i4 = i3 + rc.len();
    lemma_has_at_split(s, i4, seq![']'], tail);
    let i5 = i4 + 1;
    lemma_has_at_index(s, i2, l1, 0);
    assert(s[i2] == l1[0]);
    assert(!is_digit('"'));
    lemma_version_at(s, i1, v.solc_version);
    assert(spec_expect(s, 0, l0) == Some(i1));
    assert(spec_expect(s, i2, l1) == Some(i3));
    if v.records.len() == 0 {
        assert(v.records.map_values(|r: SnapRecordView| record_chars(r)) =~= Seq::<
            Seq<char>,
        >::empty());
        assert(rc =~= Seq::<char>::empty());
        assert(i4 == i3);
        assert("]"@ =~= seq![']']);
        assert(has_at(s, i3, "]"@));
        lemma_snapshot_tail(v, s, i3 + 1, tail);
        assert(v.records =~= Seq::<SnapRecordView>::empty());
        assert(i3 + 1 + tail.len() == s.len());
        assert(spec_parse_snapshot(s) == Some(v));
    } else {
        lemma_has_at_index(s, i4, seq![']'], 0);
        assert(s[i4] == ']');
        lemma_records_at(s, i3, v.records);
        assert(!has_at(s, i3, "]"@)) by {
            assert(record_chars(v.records[0]).len() >= 1);
            assert(rc.len() >= 1) by {
                let parts = v.records.map_values(|r: SnapRecordView| record_chars(r));
                if parts.len() >= 2 {
                    lemma_joined_front(parts, seq![',']);
                } else {
                    assert(rc == record_chars(v.records[0]));
                }
            }
            lemma_has_at_index(s, i3, rc, 0);
            assert(s[i3] == rc[0]);
            assert(rc[0] == record_chars(v.records[0])[0]) by {
                let parts = v.records.map_values(|r: SnapRecordView| record_chars(r));
                if parts.len() >= 2 {
                    lemma_joined_front(parts, seq![',']);
                } else {
                    assert(rc == record_chars(v.records[0]));
                }
            }
            assert(record_chars(v.records[0])[0] == '{');
            if has_at(s, i3, "]"@) {
                lemma_has_at_index(s, i3, "]"@, 0);
            }
        }
        assert("]"@ =~= seq![']']);
        assert(has_at(s, i4, "]"@));
        assert(spec_expect(s, i4, "]"@) == Some(i5));
        lemma_snapshot_tail(v, s, i5, tail);
        assert(spec_parse_records(s, i3) == Some((v.records, i4)));
        assert(i5 + tail.len() == s.len());
        assert(spec_parse_snapshot(s) == Some(v));
    }
}

/// The closing part of a printed snapshot reads back as its id.
proof fn lemma_snapshot_tail(v: SnapshotView, s: Seq<char>, i: int, tail: Seq<char>)
    requires
        tail == match v.id {
            Some(idv) => ",\"id\":"@ + dec_digits(idv as nat) + "}"@,
            None => "}"@,
        },
        has_at(s, i, tail),
        i + tail.len() == s.len(),
    ensures
        match v.id {
            Some(idv) => {
                &&& spec_expect(s, i, "}"@) != Some(s.len() as int)
                &&& spec_expect(s, i, ",\"id\":"@) == Some(i + ",\"id\":"@.len() as int)
                &&& spec_parse_dec(s, i + ",\"id\":"@.len() as int) == Some(
                    (idv, s.len() - 1),
                )
                &&& spec_expect(s, (s.len() - 1) as int, "}"@) == Some(s.len() as int)
            },
            None => spec_expect(s, i, "}"@) == Some(s.len() as int),
        },
{
    reveal_strlit("}");
    reveal_strlit(",\"id\":");
    match v.id {
        None => {
            assert(tail =~= "}"@);
        },
        Some(idv) => {
            let lid = ",\"id\":"@;
            let d = dec_digits(idv as nat);
            assert(tail =~= lid + (d + "}"@));
            lemma_has_at_split(s, i, lid, d + "}"@);
            let j = i + lid.len();
            lemma_has_at_split(s, j, d, "}"@);
            let e = j + d.len();
            lemma_has_at_index(s, e, "}"@, 0);
            assert(s[e] == '}');
            assert(!is_digit('}'));
            lemma_dec_at(s, j, idv);
            assert(e == s.len() - 1);
            lemma_has_at_index(s, i, lid, 0);
            assert(s[i] == ',');
            if has_at(s, i, "}"@) {
                assert(s.subrange(i, i + 1)[0] == '}');
            }
        },
    }
}

} // verus!
