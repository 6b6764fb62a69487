//! The snapshot codec: a session's version, records and id, printed as one
//! structured text, and read back from it.

use vstd::prelude::*;
use crate::dec::{dec_digits, dec_val, digit_run_len, is_digit, parse_u64_at, u64_to_dec};
use crate::version::{LangVersion, version_chars};
use crate::cache::has_at;
use crate::synth::joined;

verus! {

/// One stored fragment record. On write both fields hold the same raw text,
/// duplicated; on read the stored `source_unit` text is re-parsed for the
/// tree while `raw` is kept as the fragment's text.
#[derive(Debug)]
pub struct SnapRecord {
    /// The text that stands for the parsed source unit.
    pub source_unit: String,
    /// The raw source code.
    pub raw: String,
}

/// The mathematical content of a stored record.
pub ghost struct SnapRecordView {
    /// The stored source-unit text.
    pub source_unit: Seq<char>,
    /// The stored raw text.
    pub raw: Seq<char>,
}

impl View for SnapRecord {
    type V = SnapRecordView;

    open spec fn view(&self) -> SnapRecordView {
        SnapRecordView { source_unit: self.source_unit@, raw: self.raw@ }
    }
}

/// A whole session snapshot: the pinned version, the ordered records, and
/// the session id when one was ever assigned.
#[derive(Debug)]
pub struct Snapshot {
    /// The session's language version.
    pub solc_version: LangVersion,
    /// The ordered session records.
    pub records: Vec<SnapRecord>,
    /// The session id, absent until a first persist assigned one.
    pub id: Option<u64>,
}

/// The mathematical content of a snapshot.
pub ghost struct SnapshotView {
    /// The session's language version.
    pub solc_version: LangVersion,
    /// The ordered session records.
    pub records: Seq<SnapRecordView>,
    /// The session id, if assigned.
    pub id: Option<u64>,
}

impl View for Snapshot {
    type V = SnapshotView;

    open spec fn view(&self) -> SnapshotView {
        SnapshotView {
            solc_version: self.solc_version,
            records: self.records@.map_values(|r: SnapRecord| r@),
            id: self.id,
        }
    }
}

/// How one character is written inside a quoted string: the five special
/// characters get a two-character escape, every other character stands for
/// itself.
pub open spec fn esc_char(c: char) -> Seq<char> {
    if c == '"' {
        seq!['\\', '"']
    } else if c == '\\' {
        seq!['\\', '\\']
    } else if c == '\n' {
        seq!['\\', 'n']
    } else if c == '\r' {
        seq!['\\', 'r']
    } else if c == '\t' {
        seq!['\\', 't']
    } else {
        seq![c]
    }
}

/// A text written inside a quoted string, character by character.
pub open spec fn escape(s: Seq<char>) -> Seq<char>
    decreases s.len(),
{
    if s.len() == 0 {
        Seq::empty()
    } else {
        esc_char(s.first()) + escape(s.drop_first())
    }
}

/// Relies on String::push: appends one character to the string.
#[verifier::external_body]
fn push_char(s: &mut String, c: char)
    ensures
        final(s)@ == old(s)@ + seq![c],
{
    s.push(c);
}

/// Appends the escaped form of `t` to `out`.
fn escape_into(out: &mut String, t: &str)
    ensures
        final(out)@ == old(out)@ + escape(t@),
{
    proof {
        reveal_strlit("\\\"");
        reveal_strlit("\\\\");
        reveal_strlit("\\n");
        reveal_strlit("\\r");
        reveal_strlit("\\t");
    }
    let ghost out0 = out@;
    let n = t.unicode_len();
    let mut j: usize = 0;
    proof {
        assert(t@.skip(0) =~= t@);
    }
    while j < n
        invariant
            j <= n == t@.len(),
            out@ + escape(t@.skip(j as int)) == out0 + escape(t@),
        decreases n - j,
    {
        let ghost rest = t@.skip(j as int);
        proof {
            reveal_strlit("\\\"");
            reveal_strlit("\\\\");
            reveal_strlit("\\n");
            reveal_strlit("\\r");
            reveal_strlit("\\t");
            assert(rest.first() == t@[j as int]);
            assert(rest.drop_first() =~= t@.skip(j as int + 1));
        }
        let c = t.get_char(j);
        let ghost pre = out@;
        if c == '"' {
            out.append("\\\"");
            proof {
                assert("\\\""@ =~= esc_char(c));
            }
        } else if c == '\\' {
            out.append("\\\\");
            proof {
                assert("\\\\"@ =~= esc_char(c));
            }
        } else if c == '\n' {
            out.append("\\n");
            proof {
                assert("\\n"@ =~= esc_char(c));
            }
        } else if c == '\r' {
            out.append("\\r");
            proof {
                assert("\\r"@ =~= esc_char(c));
            }
        } else if c == '\t' {
            out.append("\\t");
            proof {
                assert("\\t"@ =~= esc_char(c));
            }
        } else {
            push_char(out, c);
            proof {
                assert(seq![c] =~= esc_char(c));
            }
        }
        proof {
            assert(out@ == pre + esc_char(c));
            assert(escape(rest) == esc_char(c) + escape(t@.skip(j as int + 1)));
            assert((pre + esc_char(c)) + escape(t@.skip(j as int + 1)) =~= pre + (esc_char(c)
                + escape(t@.skip(j as int + 1))));
            assert(out@ + escape(t@.skip(j as int + 1)) == out0 + escape(t@));
        }
        j = j + 1;
    }
    proof {
        assert(escape(t@.skip(n as int)) =~= Seq::<char>::empty());
        assert(out@ =~= out0 + escape(t@));
    }
}

/// One record, printed: both stored texts, escaped, inside a two-field
/// structure.
pub open spec fn record_chars(r: SnapRecordView) -> Seq<char> {
    "{\"source_unit\":\""@ + escape(r.source_unit) + "\",\"raw\":\""@ + escape(r.raw) + "\"}"@
}

/// The record list, printed: the records joined with commas.
pub open spec fn records_chars(rs: Seq<SnapRecordView>) -> Seq<char> {
    joined(rs.map_values(|r: SnapRecordView| record_chars(r)), seq![','])
}

/// A whole snapshot, printed.
pub open spec fn snapshot_chars(v: SnapshotView) -> Seq<char> {
    "{\"solc_version\":\""@ + version_chars(v.solc_version) + "\",\"session\":["@
        + records_chars(v.records) + "]"@ + match v.id {
        Some(i) => ",\"id\":"@ + dec_digits(i as nat) + "}"@,
        None => "}"@,
    }
}

/// Prints one record.
fn record_string(r: &SnapRecord) -> (out: String)
    ensures
        out@ == record_chars(r@),
{
    let mut out = String::from_str("{\"source_unit\":\"");
    escape_into(&mut out, r.source_unit.as_str());
    out.append("\",\"raw\":\"");
    escape_into(&mut out, r.raw.as_str());
    out.append("\"}");
    out
}

/// Prints a whole snapshot. Deterministic in the snapshot's content alone.
pub fn render_snapshot(s: &Snapshot) -> (out: String)
    ensures
        out@ == snapshot_chars(s@),
{
    let mut out = String::from_str("{\"solc_version\":\"");
    let v = s.solc_version.render();
    out.append(v.as_str());
    out.append("\",\"session\":[");
    let mut parts: Vec<String> = Vec::new();
    let n = s.records.len();
    let mut i: usize = 0;
    while i < n
        invariant
            i <= n == s.records@.len(),
            parts.deep_view() =~= s.records@.take(i as int).map_values(
                |r: SnapRecord| r@,
            ).map_values(|r: SnapRecordView| record_chars(r)),
        decreases n - i,
    {
        let ghost before = parts.deep_view();
        let p = record_string(&s.records[i]);
        let ghost pv = p@;
        parts.push(p);
        proof {
            assert(parts.deep_view() =~= before.push(pv));
            assert(s.records@.take(i as int + 1).map_values(|r: SnapRecord| r@).map_values(
                |r: SnapRecordView| record_chars(r),
            ) =~= before.push(pv));
        }
        i = i + 1;
    }
    proof {
        assert(s.records@.take(n as int) =~= s.records@);
    }
    let body = crate::synth::join_with(&parts, ",");
    proof {
        reveal_strlit(",");
        assert(","@ =~= seq![',']);
    }
    out.append(body.as_str());
    out.append("]");
    match s.id {
        Some(id) => {
            out.append(",\"id\":");
            let d = u64_to_dec(id);
            out.append(d.as_str());
            out.append("}");
        },
        None => {
            out.append("}");
        },
    }
    out
}

/// What an expected literal at position `i` leaves: the position just past
/// it, or nothing when the text does not carry it there.
pub open spec fn spec_expect(s: Seq<char>, i: int, lit: Seq<char>) -> Option<int> {
    if has_at(s, i, lit) {
        Some(i + lit.len() as int)
    } else {
        None
    }
}

/// What scanning a decimal number at position `i` leaves: the value of the
/// maximal digit run and the position just past it, or nothing when the run
/// is empty or overflows.
pub open spec fn spec_parse_dec(s: Seq<char>, i: int) -> Option<(u64, int)> {
    let k = digit_run_len(s, i);
    let run = s.subrange(i, i + k);
    if 0 <= i <= s.len() && k > 0 && dec_val(run) <= u64::MAX {
        Some((dec_val(run) as u64, i + k))
    } else {
        None
    }
}

/// The character an escape code stands for, if it is a valid code.
pub open spec fn esc_code(c: char) -> Option<char> {
    if c == '"' {
        Some('"')
    } else if c == '\\' {
        Some('\\')
    } else if c == 'n' {
        Some('\n')
    } else if c == 'r' {
        Some('\r')
    } else if c == 't' {
        Some('\t')
    } else {
        None
    }
}

/// What reading a quoted string body from position `i` leaves: the decoded
/// text and the position of the closing quote, or nothing on a bad escape or
/// a missing close.
pub open spec fn spec_parse_string(s: Seq<char>, i: int) -> Option<(Seq<char>, int)>
    decreases s.len() - i,
{
    if !(0 <= i < s.len()) {
        None
    } else if s[i] == '"' {
        Some((Seq::empty(), i))
    } else if s[i] == '\\' {
        if i + 1 < s.len() {
            match esc_code(s[i + 1]) {
                Some(u) => match spec_parse_string(s, i + 2) {
                    Some(p) => Some((seq![u] + p.0, p.1)),
                    None => None,
                },
                None => None,
            }
        } else {
            None
        }
    } else {
        match spec_parse_string(s, i + 1) {
            Some(p) => Some((seq![s[i]] + p.0, p.1)),
            None => None,
        }
    }
}

/// What reading a dotted version from position `i` leaves.
pub open spec fn spec_parse_version_at(s: Seq<char>, i: int) -> Option<(LangVersion, int)> {
    match spec_parse_dec(s, i) {
        None => None,
        Some((major, j1)) => match spec_expect(s, j1, "."@) {
            None => None,
            Some(j2) => match spec_parse_dec(s, j2) {
                None => None,
                Some((minor, j3)) => match spec_expect(s, j3, "."@) {
                    None => None,
                    Some(j4) => match spec_parse_dec(s, j4) {
                        None => None,
                        Some((patch, j5)) => Some((LangVersion { major, minor, patch }, j5)),
                    },
                },
            },
        },
    }
}

/// What reading one stored record from position `i` leaves.
pub open spec fn spec_parse_record(s: Seq<char>, i: int) -> Option<(SnapRecordView, int)> {
    match spec_expect(s, i, "{\"source_unit\":\""@) {
        None => None,
        Some(j1) => match spec_parse_string(s, j1) {
            None => None,
            Some((su, j2)) => match spec_expect(s, j2, "\",\"raw\":\""@) {
                None => None,
                Some(j3) => match spec_parse_string(s, j3) {
                    None => None,
                    Some((raw, j4)) => match spec_expect(s, j4, "\"}"@) {
                        None => None,
                        Some(j5) => Some((SnapRecordView { source_unit: su, raw }, j5)),
                    },
                },
            },
        },
    }
}

/// What reading a comma-separated, non-empty record list from position `i`
/// leaves.
pub open spec fn spec_parse_records(s: Seq<char>, i: int) -> Option<(Seq<SnapRecordView>, int)>
    decreases s.len() - i,
{
    match spec_parse_record(s, i) {
        None => None,
        Some((r, j)) => if !(i < j <= s.len()) {
            None
        } else if j < s.len() && s[j] == ',' {
            match spec_parse_records(s, j + 1) {
                Some(p) => Some((seq![r] + p.0, p.1)),
                None => None,
            }
        } else {
            Some((seq![r], j))
        },
    }
}

/// What reading a whole snapshot text leaves: its content, or nothing when
/// the text is not a well-formed snapshot.
pub open spec fn spec_parse_snapshot(s: Seq<char>) -> Option<SnapshotView> {
    match spec_expect(s, 0, "{\"solc_version\":\""@) {
        None => None,
        Some(i1) => match spec_parse_version_at(s, i1) {
            None => None,
            Some((ver, i2)) => match spec_expect(s, i2, "\",\"session\":["@) {
                None => None,
                Some(i3) => {
                    let rec_res: Option<(Seq<SnapRecordView>, int)> = if has_at(s, i3, "]"@) {
                        Some((Seq::empty(), i3 + "]"@.len()))
                    } else {
                        match spec_parse_records(s, i3) {
                            None => None,
                            Some((rs, j)) => match spec_expect(s, j, "]"@) {
                                None => None,
                                Some(j2) => Some((rs, j2)),
                            },
                        }
                    };
                    match rec_res {
                        None => None,
                        Some((rs, i4)) => if spec_expect(s, i4, "}"@) == Some(s.len() as int) {
                            Some(SnapshotView { solc_version: ver, records: rs, id: None })
                        } else {
                            match spec_expect(s, i4, ",\"id\":"@) {
                                None => None,
                                Some(i5) => match spec_parse_dec(s, i5) {
                                    None => None,
                                    Some((id, i6)) => if spec_expect(s, i6, "}"@) == Some(
                                        s.len() as int,
                                    ) {
                                        Some(
                                            SnapshotView {
                                                solc_version: ver,
                                                records: rs,
                                                id: Some(id),
                                            },
                                        )
                                    } else {
                                        None
                                    },
                                },
                            }
                        },
                    }
                },
            },
        },
    }
}

/// Reads an expected literal.
fn expect_at(s: &str, i: usize, pat: &str) -> (r: Option<usize>)
    ensures
        match r {
            Some(j) => spec_expect(s@, i as int, pat@) == Some(j as int) && i <= j <= s@.len(),
            None => spec_expect(s@, i as int, pat@) is None,
        },
{
    let _n = s.unicode_len();
    if crate::cache::starts_with_at(s, i, pat) {
        Some(i + pat.unicode_len())
    } else {
        None
    }
}

/// Reads a quoted string body up to its closing quote, decoding escapes.
fn parse_string_at(s: &str, i: usize) -> (r: Option<(String, usize)>)
    ensures
        match r {
            Some(p) => spec_parse_string(s@, i as int) == Some((p.0@, p.1 as int)) && i <= p.1
                <= s@.len(),
            None => spec_parse_string(s@, i as int) is None,
        },
{
    let n = s.unicode_len();
    if i >= n {
        return None;
    }
    let mut acc = String::new();
    let mut j: usize = i;
    loop
        invariant
            i <= j <= n == s@.len(),
            spec_parse_string(s@, i as int) == match spec_parse_string(s@, j as int) {
                Some(p) => Some((acc@ + p.0, p.1)),
                None => None::<(Seq<char>, int)>,
            },
        decreases n - j,
    {
        if j >= n {
            return None;
        }
        let c = s.get_char(j);
        if c == '"' {
            proof {
                assert(acc@ + Seq::<char>::empty() =~= acc@);
            }
            return Some((acc, j));
        }
        let ghost acc0 = acc@;
        if c == '\\' {
            if j + 1 >= n {
                return None;
            }
            let e = s.get_char(j + 1);
            let u: char = if e == '"' {
                '"'
            } else if e == '\\' {
                '\\'
            } else if e == 'n' {
                '\n'
            } else if e == 'r' {
                '\r'
            } else if e == 't' {
                '\t'
            } else {
                return None;
            };
            push_char(&mut acc, u);
            proof {
                let sp = spec_parse_string(s@, j as int + 2);
                if sp is Some {
                    assert((acc0 + seq![u]) + sp.unwrap().0 =~= acc0 + (seq![u] + sp.unwrap().0));
                }
            }
            j = j + 2;
        } else {
            push_char(&mut acc, c);
            proof {
                let sp = spec_parse_string(s@, j as int + 1);
                if sp is Some {
                    assert((acc0 + seq![c]) + sp.unwrap().0 =~= acc0 + (seq![c] + sp.unwrap().0));
                }
            }
            j = j + 1;
        }
    }
}

/// Reads a dotted version.
fn parse_version_at(s: &str, i: usize) -> (r: Option<(LangVersion, usize)>)
    requires
        i <= s@.len(),
    ensures
        match r {
            Some(p) => spec_parse_version_at(s@, i as int) == Some((p.0, p.1 as int)) && i <= p.1
                <= s@.len(),
            None => spec_parse_version_at(s@, i as int) is None,
        },
{
    let (major, j1) = match parse_u64_at(s, i) {
        None => {
            return None;
        },
        Some(p) => p,
    };
    let j2 = match expect_at(s, j1, ".") {
        None => {
            return None;
        },
        Some(j) => j,
    };
    let (minor, j3) = match parse_u64_at(s, j2) {
        None => {
            return None;
        },
        Some(p) => p,
    };
    let j4 = match expect_at(s, j3, ".") {
        None => {
            return None;
        },
        Some(j) => j,
    };
    let (patch, j5) = match parse_u64_at(s, j4) {
        None => {
            return None;
        },
        Some(p) => p,
    };
    proof {
        assert(spec_parse_dec(s@, i as int) == Some((major, j1 as int)));
        assert(spec_expect(s@, j1 as int, "."@) == Some(j2 as int));
        assert(spec_parse_dec(s@, j2 as int) == Some((minor, j3 as int)));
        assert(spec_expect(s@, j3 as int, "."@) == Some(j4 as int));
        assert(spec_parse_dec(s@, j4 as int) == Some((patch, j5 as int)));
        assert(spec_parse_version_at(s@, i as int) == Some(
            (LangVersion { major, minor, patch }, j5 as int),
        ));
    }
    Some((LangVersion { major, minor, patch }, j5))
}

/// Reads one stored record.
fn parse_record_at(s: &str, i: usize) -> (r: Option<(SnapRecord, usize)>)
    ensures
        match r {
            Some(p) => spec_parse_record(s@, i as int) == Some((p.0@, p.1 as int)) && i < p.1
                <= s@.len(),
            None => spec_parse_record(s@, i as int) is None,
        },
{
    proof {
        reveal_strlit("{\"source_unit\":\"");
    }
    let j1 = match expect_at(s, i, "{\"source_unit\":\"") {
        None => {
            return None;
        },
        Some(j) => j,
    };
    let (su, j2) = match parse_string_at(s, j1) {
        None => {
            return None;
        },
        Some(p) => p,
    };
    let j3 = match expect_at(s, j2, "\",\"raw\":\"") {
        None => {
            return None;
        },
        Some(j) => j,
    };
    let (raw, j4) = match parse_string_at(s, j3) {
        None => {
            return None;
        },
        Some(p) => p,
    };
    let j5 = match expect_at(s, j4, "\"}") {
        None => {
            return None;
        },
        Some(j) => j,
    };
    Some((SnapRecord { source_unit: su, raw }, j5))
}

/// Reads a whole snapshot text. Returns `None` exactly when the text is not
/// a well-formed snapshot.
pub fn parse_snapshot(s: &str) -> (r: Option<Snapshot>)
    ensures
        match r {
            Some(snap) => spec_parse_snapshot(s@) == Some(snap@),
            None => spec_parse_snapshot(s@) is None,
        },
{
    let n = s.unicode_len();
    let i1 = match expect_at(s, 0, "{\"solc_version\":\"") {
        None => {
            return None;
        },
        Some(j) => j,
    };
    let (ver, i2) = match parse_version_at(s, i1) {
        None => {
            return None;
        },
        Some(p) => p,
    };
    let i3 = match expect_at(s, i2, "\",\"session\":[") {
        None => {
            return None;
        },
        Some(j) => j,
    };
    let mut records: Vec<SnapRecord> = Vec::new();
    let i4: usize;
    if crate::cache::starts_with_at(s, i3, "]") {
        proof {
            reveal_strlit("]");
            assert(records@ =~= Seq::<SnapRecord>::empty());
            assert(records@.map_values(|q: SnapRecord| q@) =~= Seq::<SnapRecordView>::empty());
        }
        i4 = i3 + 1;
    } else {
        let mut cur: usize = i3;
        let mut after: usize = 0;
        loop
            invariant_except_break
                cur <= n == s@.len(),
                spec_parse_records(s@, i3 as int) is None ==> spec_parse_snapshot(s@) is None,
                ({
                    let full = spec_parse_records(s@, i3 as int);
                    let here = spec_parse_records(s@, cur as int);
                    full == match here {
                        Some(p) => Some(
                            (records@.map_values(|q: SnapRecord| q@) + p.0, p.1),
                        ),
                        None => None::<(Seq<SnapRecordView>, int)>,
                    }
                }),
            ensures
                spec_parse_records(s@, i3 as int) == Some(
                    (records@.map_values(|q: SnapRecord| q@), after as int),
                ),
                after <= n,
            decreases n - cur,
        {
            let (rec, j) = match parse_record_at(s, cur) {
                None => {
                    return None;
                },
                Some(p) => p,
            };
            let ghost before = records@.map_values(|q: SnapRecord| q@);
            let ghost rv = rec@;
            records.push(rec);
            proof {
                assert(records@.map_values(|q: SnapRecord| q@) =~= before.push(rv));
            }
            if j < n && s.get_char(j) == ',' {
                proof {
                    let sp = spec_parse_records(s@, j as int + 1);
                    if sp is Some {
                        assert((before.push(rv)) + sp.unwrap().0 =~= before + (seq![rv]
                            + sp.unwrap().0));
                    }
                }
                cur = j + 1;
            } else {
                proof {
                    assert(before.push(rv) =~= before + seq![rv]);
                }
                after = j;
                break;
            }
        }
        i4 = match expect_at(s, after, "]") {
            None => {
                return None;
            },
            Some(j) => j,
        };
    }
    proof {
        reveal_strlit("}");
    }
    if crate::cache::starts_with_at(s, i4, "}") && n - i4 == 1 {
        proof {
            assert(spec_expect(s@, i4 as int, "}"@) == Some(s@.len() as int));
            let rs = records@.map_values(|q: SnapRecord| q@);
            let sv = SnapshotView { solc_version: ver, records: rs, id: None };
            assert(spec_parse_snapshot(s@) == Some(sv));
        }
        return Some(Snapshot { solc_version: ver, records, id: None });
    }
    let i5 = match expect_at(s, i4, ",\"id\":") {
        None => {
            return None;
        },
        Some(j) => j,
    };
    let (id, i6) = match parse_u64_at(s, i5) {
        None => {
            return None;
        },
        Some(p) => p,
    };
    if crate::cache::starts_with_at(s, i6, "}") && n - i6 == 1 {
        proof {
            assert(spec_expect(s@, i6 as int, "}"@) == Some(s@.len() as int));
            let rs = records@.map_values(|q: SnapRecord| q@);
            let sv = SnapshotView { solc_version: ver, records: rs, id: Some(id) };
            assert(spec_parse_snapshot(s@) == Some(sv));
        }
        Some(Snapshot { solc_version: ver, records, id: Some(id) })
    } else {
        None
    }
}

} // verus!
