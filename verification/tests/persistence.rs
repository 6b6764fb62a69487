use chisel::cache::{cache_dir, latest_chached_session, next_cached_session, parse_session_name, session_file_name, CacheEntry, CacheError};
use chisel::env::ChiselEnv;
use chisel::snapshot::{parse_snapshot, render_snapshot, SnapRecord, Snapshot};
use chisel::version::LangVersion;

fn entry(modified: u64, name: &str) -> CacheEntry {
    CacheEntry { modified, name: name.to_string() }
}

#[test]
fn empty_cache_allocates_id_zero() {
    let r = next_cached_session(&Vec::new()).unwrap();
    assert_eq!(r.0, 0);
    assert_eq!(r.1, "chisel-0.json");
}

#[test]
fn allocation_follows_the_most_recently_modified_snapshot() {
    let entries = vec![entry(5, "chisel-0.json")];
    let r = next_cached_session(&entries).unwrap();
    assert_eq!(r.0, 1);
    assert_eq!(r.1, "chisel-1.json");
}

#[test]
fn allocation_ignores_modification_order_of_unrelated_files() {
    let entries = vec![entry(10, "chisel-3.json"), entry(20, "chisel-0.json")];
    let r = next_cached_session(&entries).unwrap();
    assert_eq!(r.0, 1);
}

#[test]
fn allocation_tie_goes_to_the_later_entry() {
    let entries = vec![entry(5, "chisel-1.json"), entry(5, "chisel-7.json")];
    let r = next_cached_session(&entries).unwrap();
    assert_eq!(r.0, 8);
}

#[test]
fn allocation_fails_on_a_name_without_an_id() {
    let entries = vec![entry(5, "garbage.txt")];
    assert_eq!(next_cached_session(&entries).unwrap_err(), CacheError::BadSessionName);
}

#[test]
fn allocation_fails_when_the_id_space_is_exhausted() {
    let entries = vec![entry(5, "chisel-18446744073709551615.json")];
    assert_eq!(next_cached_session(&entries).unwrap_err(), CacheError::IdOverflow);
}

#[test]
fn session_names_embed_their_id() {
    assert_eq!(session_file_name(0), "chisel-0.json");
    assert_eq!(session_file_name(42), "chisel-42.json");
    assert_eq!(parse_session_name("chisel-42.json"), Some(42));
    assert_eq!(parse_session_name("chisel-0.json"), Some(0));
    assert_eq!(parse_session_name("chisel-.json"), None);
    assert_eq!(parse_session_name("chisel-12.jsonx"), None);
    assert_eq!(parse_session_name("chisel-1a2.json"), None);
    assert_eq!(parse_session_name("other-3.json"), None);
}

#[test]
fn latest_session_picks_the_greatest_modified_time() {
    let entries = vec![entry(10, "chisel-0.json"), entry(30, "chisel-2.json"), entry(20, "chisel-1.json")];
    assert_eq!(latest_chached_session(&entries).unwrap(), "chisel-2.json");
}

#[test]
fn latest_session_tie_goes_to_the_earlier_entry() {
    let entries = vec![entry(30, "chisel-4.json"), entry(30, "chisel-2.json")];
    assert_eq!(latest_chached_session(&entries).unwrap(), "chisel-4.json");
}

#[test]
fn latest_session_on_an_empty_cache_is_not_found() {
    assert_eq!(latest_chached_session(&Vec::new()).unwrap_err(), CacheError::EmptyCache);
}

#[test]
fn cache_dir_is_under_the_home_directory() {
    assert_eq!(cache_dir("/home/u"), "/home/u/.foundry/cache/chisel/");
}

#[test]
fn snapshot_codec_round_trips_without_id() {
    let snap = Snapshot {
        solc_version: LangVersion { major: 0, minor: 8, patch: 17 },
        records: vec![SnapRecord {
            source_unit: "uint256 x;".to_string(),
            raw: "uint256 x;".to_string(),
        }],
        id: None,
    };
    let text = render_snapshot(&snap);
    let back = parse_snapshot(&text).unwrap();
    assert_eq!(back.solc_version, snap.solc_version);
    assert_eq!(back.id, None);
    assert_eq!(back.records.len(), 1);
    assert_eq!(back.records[0].raw, "uint256 x;");
    assert_eq!(back.records[0].source_unit, "uint256 x;");
}

#[test]
fn snapshot_codec_round_trips_special_characters() {
    let tricky = "function f() {\n\t// a \"quote\" and a \\ backslash\r\n}";
    let snap = Snapshot {
        solc_version: LangVersion { major: 1, minor: 0, patch: 0 },
        records: vec![SnapRecord { source_unit: tricky.to_string(), raw: tricky.to_string() }],
        id: Some(7),
    };
    let text = render_snapshot(&snap);
    let back = parse_snapshot(&text).unwrap();
    assert_eq!(back.id, Some(7));
    assert_eq!(back.records[0].raw, tricky);
    assert_eq!(back.records[0].source_unit, tricky);
}

#[test]
fn snapshot_text_has_the_documented_shape() {
    let snap = Snapshot {
        solc_version: LangVersion { major: 0, minor: 8, patch: 17 },
        records: vec![SnapRecord { source_unit: "uint256 x;".to_string(), raw: "uint256 x;".to_string() }],
        id: Some(3),
    };
    let text = render_snapshot(&snap);
    assert_eq!(
        text,
        "{\"solc_version\":\"0.8.17\",\"session\":[{\"source_unit\":\"uint256 x;\",\"raw\":\"uint256 x;\"}],\"id\":3}"
    );
}

#[test]
fn persist_then_restore_rebuilds_the_session() {
    let mut env = ChiselEnv::new("0.8.17").unwrap();
    assert!(env.submit("pragma solidity 0.8.17;"));
    assert!(env.submit("function f() {\n    uint256 a;\n}"));
    assert!(env.submit("uint256 x;"));
    let rendered = env.contract_source();
    let (name, contents) = env.write(&Vec::new()).unwrap();
    assert_eq!(name, "chisel-0.json");
    assert_eq!(env.id, Some(0));
    let restored = ChiselEnv::load(&contents).unwrap();
    assert_eq!(restored.id, Some(0));
    assert_eq!(restored.solc_version, env.solc_version);
    assert_eq!(restored.session.len(), 3);
    for (a, b) in env.session.iter().zip(restored.session.iter()) {
        assert_eq!(a.raw, b.raw);
        assert_eq!(a.kinds, b.kinds);
        assert_eq!(a.imports, b.imports);
    }
    assert_eq!(restored.contract_source(), rendered);
}

#[test]
fn persist_keeps_an_already_assigned_id() {
    let mut env = ChiselEnv::new("0.8.17").unwrap();
    assert!(env.submit("uint256 x;"));
    let (first, _) = env.write(&Vec::new()).unwrap();
    assert_eq!(first, "chisel-0.json");
    let entries = vec![CacheEntry { modified: 9, name: "chisel-5.json".to_string() }];
    let (second, _) = env.write(&entries).unwrap();
    assert_eq!(second, "chisel-0.json");
    assert_eq!(env.id, Some(0));
}

#[test]
fn overlong_ids_in_names_are_rejected() {
    assert_eq!(parse_session_name("chisel-99999999999999999999.json"), None);
    assert_eq!(parse_session_name("chisel-18446744073709551615.json"), Some(u64::MAX));
}

#[test]
fn persist_propagates_an_allocation_failure_and_keeps_id_unset() {
    let mut env = ChiselEnv::new("0.8.17").unwrap();
    let entries = vec![entry(5, "garbage.txt")];
    assert_eq!(env.write(&entries).unwrap_err(), CacheError::BadSessionName);
    assert_eq!(env.id, None);
}

#[test]
fn persist_allocates_after_the_latest_snapshot() {
    let mut env = ChiselEnv::new("0.8.17").unwrap();
    let entries = vec![entry(3, "chisel-0.json")];
    let (name, _) = env.write(&entries).unwrap();
    assert_eq!(name, "chisel-1.json");
    assert_eq!(env.id, Some(1));
}
