use chisel::env::{ChiselEnv, EnvError};
use chisel::fragment::{parse_fragment, Placement};
use chisel::version::LangVersion;

fn env_0_8_17() -> ChiselEnv {
    ChiselEnv::new("0.8.17").expect("version must parse")
}

#[test]
fn example_scenario_pragma_variable_function() {
    let mut env = env_0_8_17();
    assert!(env.submit("pragma solidity 0.8.17;"));
    assert!(env.submit("uint256 x;"));
    assert!(env.submit("function f() {}"));
    let expected = "// SPDX-License-Identifier: UNLICENSED\n\
                    pragma solidity 0.8.17;\n\n\
                    // Imports\n\n\n\
                    /// @title REPL\n\
                    contract REPL {\n    \
                    function f() {}\n\n    \
                    fallback() {\n        \
                    uint256 x;\n    \
                    }\n}\n";
    assert_eq!(env.contract_source(), expected);
}

#[test]
fn render_is_deterministic() {
    let mut env = env_0_8_17();
    assert!(env.submit("import \"a.sol\";"));
    assert!(env.submit("function f() {}"));
    assert!(env.submit("uint256 x;"));
    let a = env.contract_source();
    let b = env.contract_source();
    assert_eq!(a, b);
}

#[test]
fn order_is_preserved_in_both_groups() {
    let mut env = env_0_8_17();
    assert!(env.submit("function f() {}"));
    assert!(env.submit("uint256 x;"));
    assert!(env.submit("function g() {}"));
    assert!(env.submit("uint256 y;"));
    let out = env.contract_source();
    assert!(out.contains("function f() {}\n\nfunction g() {}"));
    assert!(out.contains("uint256 x;\nuint256 y;"));
}

#[test]
fn classification_pragma() {
    let s = parse_fragment("pragma solidity 0.8.17;").unwrap();
    assert_eq!(s.placement(), Placement::PragmaCandidate);
}

#[test]
fn classification_import() {
    let s = parse_fragment("import \"a.sol\";").unwrap();
    assert_eq!(s.placement(), Placement::ImportSource);
    assert_eq!(s.imports, vec!["a.sol".to_string()]);
}

#[test]
fn classification_contract() {
    let s = parse_fragment("contract C {}").unwrap();
    assert_eq!(s.placement(), Placement::Excluded);
}

#[test]
fn classification_enum() {
    let s = parse_fragment("enum E { A }").unwrap();
    assert_eq!(s.placement(), Placement::TopLevelRenderable);
}

#[test]
fn classification_struct() {
    let s = parse_fragment("struct S { uint256 a; }").unwrap();
    assert_eq!(s.placement(), Placement::TopLevelRenderable);
}

#[test]
fn classification_event() {
    let s = parse_fragment("event E();").unwrap();
    assert_eq!(s.placement(), Placement::TopLevelRenderable);
}

#[test]
fn classification_error() {
    let s = parse_fragment("error Err();").unwrap();
    assert_eq!(s.placement(), Placement::TopLevelRenderable);
}

#[test]
fn classification_function() {
    let s = parse_fragment("function f() {}").unwrap();
    assert_eq!(s.placement(), Placement::TopLevelRenderable);
}

#[test]
fn classification_variable() {
    let s = parse_fragment("uint256 x;").unwrap();
    assert_eq!(s.placement(), Placement::FallbackOnly);
}

#[test]
fn classification_type_alias() {
    let s = parse_fragment("type T is uint256;").unwrap();
    assert_eq!(s.placement(), Placement::TopLevelRenderable);
}

#[test]
fn classification_using() {
    let s = parse_fragment("using L for uint256;").unwrap();
    assert_eq!(s.placement(), Placement::TopLevelRenderable);
}

#[test]
fn classification_stray_semicolon() {
    let s = parse_fragment(";").unwrap();
    assert_eq!(s.placement(), Placement::Excluded);
}

#[test]
fn classification_empty_fragment_is_excluded() {
    let s = parse_fragment("").unwrap();
    assert_eq!(s.placement(), Placement::Excluded);
}

#[test]
fn single_fragment_lands_only_in_its_region() {
    let mut env = env_0_8_17();
    assert!(env.submit("enum E { A }"));
    let expected = "// SPDX-License-Identifier: UNLICENSED\n\
                    pragma solidity 0.8.17;\n\n\
                    // Imports\n\n\n\
                    /// @title REPL\n\
                    contract REPL {\n    \
                    enum E { A }\n\n    \
                    fallback() {\n        \
                    \n    }\n}\n";
    assert_eq!(env.contract_source(), expected);
}

#[test]
fn explicit_pragma_is_rendered_verbatim() {
    let mut env = env_0_8_17();
    assert!(env.submit("pragma solidity >=0.4.0;"));
    let out = env.contract_source();
    assert!(out.contains("pragma solidity >=0.4.0;"));
    assert!(!out.contains("pragma solidity 0.8.17;"));
}

#[test]
fn missing_pragma_renders_the_session_version() {
    let mut env = ChiselEnv::new("0.7.6").expect("version must parse");
    assert!(env.submit("uint256 x;"));
    let out = env.contract_source();
    assert!(out.contains("pragma solidity 0.7.6;"));
}

#[test]
fn contract_fragment_is_fully_excluded() {
    let mut env = env_0_8_17();
    assert!(env.submit("contract C { function inner() public {} }"));
    let out = env.contract_source();
    assert!(!out.contains("inner"));
}

#[test]
fn imports_are_collected_from_every_fragment() {
    let mut env = env_0_8_17();
    assert!(env.submit("import \"a.sol\";"));
    assert!(env.submit("import \"b.sol\";\nimport \"c.sol\";"));
    let out = env.contract_source();
    assert!(out.contains("a.sol\nb.sol\nc.sol"));
}

#[test]
fn duplicate_imports_are_kept() {
    let mut env = env_0_8_17();
    assert!(env.submit("import \"a.sol\";"));
    assert!(env.submit("import \"a.sol\";"));
    let out = env.contract_source();
    assert!(out.contains("a.sol\na.sol"));
}

#[test]
fn rejected_fragment_leaves_session_unchanged() {
    let mut env = env_0_8_17();
    assert!(env.submit("uint256 x;"));
    let before = env.contract_source();
    assert!(!env.submit("%%% not solidity at all"));
    assert_eq!(env.contract_source(), before);
}

#[test]
fn bad_version_rejects_environment_creation() {
    assert!(ChiselEnv::new("not a version").is_none());
    assert!(ChiselEnv::new("").is_none());
}

#[test]
fn parse_solc_version_reads_numeric_parts() {
    let v = ChiselEnv::parse_solc_version("1.2.3").unwrap();
    assert_eq!(v, LangVersion { major: 1, minor: 2, patch: 3 });
    let pre = ChiselEnv::parse_solc_version("1.2.3-alpha.1").unwrap();
    assert_eq!(pre, LangVersion { major: 1, minor: 2, patch: 3 });
    assert!(ChiselEnv::parse_solc_version("banana").is_none());
}

#[test]
fn default_environment_uses_fallback_version() {
    let env = ChiselEnv::default();
    assert_eq!(env.solc_version, LangVersion { major: 0, minor: 8, patch: 17 });
    assert!(env.id.is_none());
    let out = env.contract_source();
    assert!(out.contains("pragma solidity 0.8.17;"));
}

#[test]
fn version_renders_dotted_decimal() {
    let v = LangVersion { major: 10, minor: 0, patch: 205 };
    assert_eq!(v.render(), "10.0.205");
}

#[test]
fn load_of_garbage_is_a_bad_snapshot() {
    assert_eq!(ChiselEnv::load("not a snapshot").unwrap_err(), EnvError::BadSnapshot);
    assert_eq!(ChiselEnv::load("").unwrap_err(), EnvError::BadSnapshot);
}

#[test]
fn load_of_unparseable_fragment_is_rejected() {
    let contents =
        "{\"solc_version\":\"0.8.17\",\"session\":[{\"source_unit\":\"%%%\",\"raw\":\"%%%\"}]}";
    assert_eq!(ChiselEnv::load(contents).unwrap_err(), EnvError::RejectedFragment);
}
