//! The session environment: an ordered sequence of accepted fragments, a
//! pinned language version, and a lazily assigned cache identity.

use vstd::prelude::*;
use crate::cache::{next_cached_session, session_file_chars, session_file_name, spec_next_session, CacheEntry, CacheError};
use crate::fragment::{parse_fragment, parsed, SolSnippet};
use crate::snapshot::{parse_snapshot, render_snapshot, snapshot_chars, spec_parse_snapshot, SnapRecord, SnapRecordView, Snapshot, SnapshotView};
use crate::synth::{spec_render, synthesize};
use crate::version::{parse_version_str, semver_parsed, LangVersion};

verus! {

/// Why restoring an environment from stored text failed.
#[derive(Clone, Copy, Debug, PartialEq, Eq, Structural)]
pub enum EnvError {
    /// The stored text is not a well-formed snapshot.
    BadSnapshot,
    /// A stored fragment text no longer parses.
    RejectedFragment,
}

/// An interactive session environment: the pinned language version, the
/// ordered accepted fragments, and the session id once one was assigned.
#[derive(Debug)]
pub struct ChiselEnv {
    /// The session's language version.
    pub solc_version: LangVersion,
    /// The ordered accepted fragments.
    pub session: Vec<SolSnippet>,
    /// The session's identity; unset until the first successful persist.
    pub id: Option<u64>,
}

impl ChiselEnv {
    /// Every fragment of the session agrees with its parse.
    pub open spec fn wf(self) -> bool {
        forall|i: int| 0 <= i < self.session@.len() ==> (#[trigger] self.session@[i]).wf()
    }

    /// The snapshot content this environment persists as, under `id`: the
    /// version, each fragment's raw text duplicated into both record
    /// fields, and the id.
    pub open spec fn snapshot_view(self, id: Option<u64>) -> SnapshotView {
        SnapshotView {
            solc_version: self.solc_version,
            records: self.session@.map_values(
                |r: SolSnippet| SnapRecordView { source_unit: r.raw@, raw: r.raw@ },
            ),
            id: id,
        }
    }

    /// Creates an environment pinned to the given version string. Fails
    /// exactly when the string is not a valid semantic version.
    pub fn new(solc_version: &str) -> (r: Option<ChiselEnv>)
        ensures
            match r {
                Some(env) => semver_parsed(solc_version@) == Some(env.solc_version)
                    && env.session@.len() == 0 && env.id is None && env.wf(),
                None => semver_parsed(solc_version@) is None,
            },
    {
        match parse_version_str(solc_version) {
            None => None,
            Some(v) => Some(ChiselEnv { solc_version: v, session: Vec::new(), id: None }),
        }
    }

    /// Creates an environment pinned to the fallback version.
    pub fn default() -> (r: ChiselEnv)
        ensures
            r.solc_version == (LangVersion { major: 0, minor: 8, patch: 17 }),
            r.session@.len() == 0,
            r.id is None,
            r.wf(),
    {
        ChiselEnv {
            solc_version: LangVersion { major: 0, minor: 8, patch: 17 },
            session: Vec::new(),
            id: None,
        }
    }

    /// Reads a version string's numeric parts. Fails exactly when the
    /// string is not a valid semantic version.
    pub fn parse_solc_version(s: &str) -> (r: Option<LangVersion>)
        ensures
            r == semver_parsed(s@),
    {
        parse_version_str(s)
    }

    /// Submits one fragment: on success it is appended to the session; on
    /// parse failure the whole environment is left unchanged.
    pub fn submit(&mut self, text: &str) -> (ok: bool)
        ensures
            ok <==> parsed(text@) is Some,
            final(self).solc_version == old(self).solc_version,
            final(self).id == old(self).id,
            ok ==> ({
                let s0 = old(self).session@;
                let s1 = final(self).session@;
                s1.len() == s0.len() + 1 && s1.take(s0.len() as int) == s0 && s1.last().raw@
                    == text@ && s1.last().wf()
            }),
            !ok ==> final(self).session@ == old(self).session@,
            old(self).wf() ==> final(self).wf(),
    {
        match parse_fragment(text) {
            None => false,
            Some(snippet) => {
                self.session.push(snippet);
                proof {
                    assert(self.session@.take(old(self).session@.len() as int) =~= old(
                        self,
                    ).session@);
                }
                true
            },
        }
    }

    /// Renders the full source code for the current session: a
    /// deterministic function of the ordered session content and the
    /// pinned version alone.
    pub fn contract_source(&self) -> (r: String)
        ensures
            r@ == spec_render(self.solc_version, self.session@),
    {
        synthesize(&self.solc_version, &self.session)
    }

    /// Plans a persist against the given cache-directory entries: keeps the
    /// environment's id, or assigns the next free one, permanently; returns
    /// the snapshot's file name and its full serialized contents.
    pub fn write(&mut self, entries: &Vec<CacheEntry>) -> (r: Result<
        (String, String),
        CacheError,
    >)
        ensures
            final(self).solc_version == old(self).solc_version,
            final(self).session@ == old(self).session@,
            match r {
                Ok(p) => ({
                    let idn = final(self).id;
                    &&& idn is Some
                    &&& old(self).id is Some ==> idn == old(self).id
                    &&& old(self).id is None ==> spec_next_session(entries@) == Ok::<
                        u64,
                        CacheError,
                    >(idn.unwrap())
                    &&& p.0@ == session_file_chars(idn.unwrap() as nat)
                    &&& p.1@ == snapshot_chars(old(self).snapshot_view(idn))
                }),
                Err(e) => old(self).id is None && spec_next_session(entries@) == Err::<
                    u64,
                    CacheError,
                >(e) && final(self).id is None,
            },
    {
        let id: u64 = match self.id {
            Some(i) => i,
            None => {
                match next_cached_session(entries) {
                    Ok(p) => {
                        self.id = Some(p.0);
                        p.0
                    },
                    Err(e) => {
                        return Err(e);
                    },
                }
            },
        };
        let name = session_file_name(id);
        let mut records: Vec<SnapRecord> = Vec::new();
        let n = self.session.len();
        let mut k: usize = 0;
        while k < n
            invariant
                k <= n == self.session@.len(),
                records@.map_values(|q: SnapRecord| q@) =~= self.session@.take(
                    k as int,
                ).map_values(|r: SolSnippet| SnapRecordView { source_unit: r.raw@, raw: r.raw@ }),
            decreases n - k,
        {
            let ghost before = records@.map_values(|q: SnapRecord| q@);
            let rec = SnapRecord {
                source_unit: self.session[k].raw.clone(),
                raw: self.session[k].raw.clone(),
            };
            let ghost rv = rec@;
            records.push(rec);
            proof {
                assert(records@.map_values(|q: SnapRecord| q@) =~= before.push(rv));
                assert(self.session@.take(k as int + 1).map_values(
                    |r: SolSnippet| SnapRecordView { source_unit: r.raw@, raw: r.raw@ },
                ) =~= before.push(rv));
            }
            k = k + 1;
        }
        proof {
            assert(self.session@.take(n as int) =~= self.session@);
        }
        let snap = Snapshot { solc_version: self.solc_version, records, id: Some(id) };
        let contents = render_snapshot(&snap);
        Ok((name, contents))
    }

    /// Restores an environment from stored snapshot text: the stored fields
    /// are read back and every stored record's source text is re-parsed to
    /// reconstruct its tree.
    pub fn load(contents: &str) -> (r: Result<ChiselEnv, EnvError>)
        ensures
            ({
                let svo = spec_parse_snapshot(contents@);
                match r {
                    Ok(env) => {
                        &&& svo is Some
                        &&& env.solc_version == svo.unwrap().solc_version
                        &&& env.id == svo.unwrap().id
                        &&& env.session@.len() == svo.unwrap().records.len()
                        &&& forall|i: int|
                            0 <= i < env.session@.len() ==> (#[trigger] env.session@[i]).raw@
                                == svo.unwrap().records[i].raw && parsed(
                                svo.unwrap().records[i].source_unit,
                            ) == Some(
                                (env.session@[i].kinds@, env.session@[i].imports.deep_view()),
                            )
                    },
                    Err(EnvError::BadSnapshot) => svo is None,
                    Err(EnvError::RejectedFragment) => svo is Some && exists|i: int|
                        0 <= i < svo.unwrap().records.len() && parsed(
                            #[trigger] svo.unwrap().records[i].source_unit,
                        ) is None,
                }
            }),
    {
        let snap = match parse_snapshot(contents) {
            None => {
                return Err(EnvError::BadSnapshot);
            },
            Some(s) => s,
        };
        let ghost sv = snap@;
        let mut session: Vec<SolSnippet> = Vec::new();
        let n = snap.records.len();
        let mut k: usize = 0;
        while k < n
            invariant
                k <= n == snap.records@.len(),
                sv == snap@,
                spec_parse_snapshot(contents@) == Some(sv),
                sv.records == snap.records@.map_values(|q: SnapRecord| q@),
                session@.len() == k,
                forall|i: int|
                    0 <= i < k ==> (#[trigger] session@[i]).raw@ == sv.records[i].raw && parsed(
                        sv.records[i].source_unit,
                    ) == Some((session@[i].kinds@, session@[i].imports.deep_view())),
            decreases n - k,
        {
            let frag = match parse_fragment(snap.records[k].source_unit.as_str()) {
                None => {
                    proof {
                        assert(sv.records[k as int].source_unit == snap.records@[k as int].source_unit@);
                        assert(parsed(sv.records[k as int].source_unit) is None);
                        assert(spec_parse_snapshot(contents@) == Some(sv));
                        assert(exists|i: int|
                            0 <= i < sv.records.len() && parsed(
                                #[trigger] sv.records[i].source_unit,
                            ) is None);
                    }
                    return Err(EnvError::RejectedFragment);
                },
                Some(f) => f,
            };
            let snippet = SolSnippet {
                kinds: frag.kinds,
                imports: frag.imports,
                raw: snap.records[k].raw.clone(),
            };
            session.push(snippet);
            k = k + 1;
        }
        Ok(ChiselEnv { solc_version: snap.solc_version, session, id: snap.id })
    }
}

} // verus!
