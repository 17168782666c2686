use sigmund::address::AddressError;
use sigmund::client::{AggregationPolicy, ClientError, ResolutionOutcome};
use sigmund::config::{Config, DEFAULT_RPC_URL};
use sigmund::selectors::SelectorSet;
use sigmund::{Bytecode, Sigmund, SigmundOut, Signature, Source};

fn config() -> Config {
    Config {
        output: None,
        signatures: false,
        address: None,
        file: None,
        deep: false,
        all_matches: false,
        rpc_url: DEFAULT_RPC_URL.to_string(),
    }
}

fn selectors(texts: &[&str]) -> SelectorSet {
    let mut set = SelectorSet::new();
    for text in texts {
        set.insert(text.to_string());
    }
    set
}

fn signature(text: &str, hash: &str) -> Signature {
    Signature::new(text.to_string(), hash.to_string())
}

#[test]
fn a_report_holds_what_it_is_given() {
    let out = SigmundOut::new(selectors(&["ddc63262"]), vec![signature("f()", "ddc6326200")]);
    assert_eq!(out.selectors.to_vec(), vec!["ddc63262"]);
    assert_eq!(out.signatures, vec![signature("f()", "ddc6326200")]);
}

#[test]
fn a_run_keeps_its_settings() {
    let settings = Config { deep: true, output: Some("out.json".to_string()), ..config() };
    let run = Sigmund::from_config(settings.clone());
    assert_eq!(run.config(), &settings);
}

#[test]
fn the_policy_follows_the_settings() {
    assert_eq!(config().policy(), AggregationPolicy::FirstMatch);
    assert_eq!(Config { all_matches: true, ..config() }.policy(), AggregationPolicy::AllMatches);
}

#[test]
fn a_file_is_preferred_to_an_address() {
    let run = Sigmund::from_config(Config {
        file: Some("code.hex".to_string()),
        address: Some("not an address".to_string()),
        ..config()
    });
    match run.source() {
        Ok(Source::File(path)) => assert_eq!(path, "code.hex"),
        _ => panic!("the file is the source"),
    }
}

#[test]
fn without_a_file_the_address_is_the_source() {
    let run = Sigmund::from_config(Config {
        address: Some("0x1234567890123456789012345678901234567890".to_string()),
        ..config()
    });
    match run.source() {
        Ok(Source::Node(contract)) => assert_eq!(contract.as_str(), "0x1234567890123456789012345678901234567890"),
        _ => panic!("the contract is the source"),
    }
}

#[test]
fn an_invalid_address_is_no_source() {
    let run = Sigmund::from_config(Config { address: Some("0x123".to_string()), ..config() });
    assert_eq!(run.source().err(), Some(AddressError::Length(5)));
}

#[test]
fn the_scan_is_as_deep_as_the_settings_say() {
    let bytecode = Bytecode::try_from("0xe01c63ddc632621461".to_string()).unwrap();
    let plain = Sigmund::from_config(config());
    assert!(plain.selectors(&bytecode).is_empty());
    let deep = Sigmund::from_config(Config { deep: true, ..config() });
    assert_eq!(deep.selectors(&bytecode).to_vec(), vec!["ddc63262"]);
}

#[test]
fn lookups_are_made_only_where_signatures_are_wanted() {
    let found = selectors(&["ddc63262", "a9059cbb"]);
    assert_eq!(Sigmund::from_config(config()).lookups(&found), None);
    let wanted = Sigmund::from_config(Config { signatures: true, ..config() });
    assert_eq!(
        wanted.lookups(&found),
        Some(vec![
            "https://api.etherface.io/v1/signatures/hash/all/ddc63262/1".to_string(),
            "https://api.etherface.io/v1/signatures/hash/all/a9059cbb/1".to_string(),
        ])
    );
    assert_eq!(wanted.lookups(&SelectorSet::new()), Some(Vec::new()));
}

#[test]
fn a_report_without_resolution_holds_no_signature() {
    let run = Sigmund::from_config(config());
    let outcomes = vec![ResolutionOutcome::TransportFailure(ClientError::ReqwestError("unused".to_string()))];
    let out = run.report(selectors(&["ddc63262"]), &outcomes).unwrap();
    assert_eq!(out.selectors.to_vec(), vec!["ddc63262"]);
    assert!(out.signatures.is_empty());
}

#[test]
fn a_report_with_resolution_follows_the_policy() {
    let outcomes = vec![
        ResolutionOutcome::Found(vec![signature("a()", "ddc63262aa"), signature("b()", "ddc63262bb")]),
        ResolutionOutcome::NotFound,
    ];
    let first = Sigmund::from_config(Config { signatures: true, ..config() });
    let out = first.report(selectors(&["ddc63262", "a9059cbb"]), &outcomes).unwrap();
    assert_eq!(out.signatures, vec![signature("a()", "ddc63262aa")]);
    assert_eq!(out.selectors.to_vec(), vec!["ddc63262", "a9059cbb"]);
    let all = Sigmund::from_config(Config { signatures: true, all_matches: true, ..config() });
    let out = all.report(selectors(&["ddc63262", "a9059cbb"]), &outcomes).unwrap();
    assert_eq!(out.signatures, vec![signature("a()", "ddc63262aa"), signature("b()", "ddc63262bb")]);
}

#[test]
fn a_failed_lookup_leaves_no_report() {
    let outcomes = vec![
        ResolutionOutcome::Found(vec![signature("a()", "ddc63262aa")]),
        ResolutionOutcome::TransportFailure(ClientError::ReqwestError("timed out".to_string())),
    ];
    let run = Sigmund::from_config(Config { signatures: true, ..config() });
    assert_eq!(
        run.report(selectors(&["ddc63262", "a9059cbb"]), &outcomes).err(),
        Some(ClientError::ReqwestError("timed out".to_string()))
    );
}

#[test]
fn the_console_shows_the_selectors_where_nothing_is_resolved() {
    let run = Sigmund::from_config(config());
    let out = SigmundOut::new(selectors(&["ddc63262", "a9059cbb"]), Vec::new());
    assert_eq!(run.console_lines(&out), vec!["{\"ddc63262\", \"a9059cbb\"}"]);
}

#[test]
fn the_console_shows_a_line_for_each_signature() {
    let run = Sigmund::from_config(Config { signatures: true, ..config() });
    let out = SigmundOut::new(
        selectors(&["ddc63262"]),
        vec![signature("a()", "ddc63262aa"), signature("b()", "ddc63262bb")],
    );
    assert_eq!(
        run.console_lines(&out),
        vec!["\x1b[38;5;39m[ddc63262]: \x1b[38;5;248ma()", "\x1b[38;5;39m[ddc63262]: \x1b[38;5;248mb()"]
    );
    let none = SigmundOut::new(selectors(&["ddc63262"]), Vec::new());
    assert!(run.console_lines(&none).is_empty());
}
