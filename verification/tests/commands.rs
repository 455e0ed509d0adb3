use chainsync_loadtest::cli::{
    genesis_validation, log_filter, Cmd, CmdError, GenesisValidationMode, DEFAULT_RUST_LOG,
};
use chainsync_loadtest::config::{download_configs, ConfigEvent, ConfigStep};
use chainsync_loadtest::nearcore::{get_default_home, Home, Version};
use chainsync_loadtest::types::CryptoHash;

fn cmd(hash: &str) -> Cmd {
    Cmd { chain_id: "testnet".to_string(), start_block_hash: hash.to_string() }
}

#[test]
fn a_command_is_planned() {
    let p = cmd("11111111111111111111111111111111").plan(Some("/cache")).ok().unwrap();
    assert!(p.start_block_hash == CryptoHash([0; 32]));
    assert_eq!(p.cache_dir, "/cache");
    assert_eq!(p.config_dir, vec!["near_configs", "testnet"]);
    let p = cmd("1111111111111111111111111111111A").plan(Some("/cache")).ok().unwrap();
    let mut bytes = [0; 32];
    bytes[31] = 9;
    assert!(p.start_block_hash == CryptoHash(bytes));
}

#[test]
fn a_hash_has_to_be_a_hash() {
    for short in ["", "1", "111111111111111111111111111111111"] {
        match cmd(short).plan(Some(())) {
            Err(e) => assert_eq!(e.to_string(), "incorrect length for hash"),
            Ok(_) => panic!("no hash"),
        }
    }
    match cmd("foo-bar-baz").plan(Some(())) {
        Err(e) => assert!(e.to_string().contains("invalid character '-'")),
        Ok(_) => panic!("no hash"),
    }
}

#[test]
fn a_hash_comes_before_a_directory() {
    let c = cmd("1");
    match c.plan_with::<()>(Err("bad".to_string()), None) {
        Err(CmdError::BadHash(s)) => assert_eq!(s, "bad"),
        _ => panic!("no hash"),
    }
    match c.plan_with::<()>(Ok(CryptoHash([1; 32])), None) {
        Err(e) => assert_eq!(e.to_string(), "dirs::cache_dir() = None"),
        Ok(_) => panic!("no directory"),
    }
}

#[test]
fn the_genesis_is_looked_through() {
    assert_eq!(genesis_validation(true), GenesisValidationMode::UnsafeFast);
    assert_eq!(genesis_validation(false), GenesisValidationMode::Full);
}

#[test]
fn logging_is_quiet_unless_asked() {
    let f = log_filter(None, None);
    assert_eq!(f.base, DEFAULT_RUST_LOG);
    assert_eq!(
        f.base,
        "tokio_reactor=info,near=info,stats=info,telemetry=info,delay_detector=info,\
         near-performance-metrics=info,near-rust-allocator-proxy=info,warn"
    );
    assert!(f.directives.is_empty());
    assert_eq!(log_filter(Some("warn".to_string()), None).base, "warn");
}

#[test]
fn logging_is_verbose_for_a_target() {
    let quiet = vec![
        "cranelift_codegen=warn",
        "cranelift_codegen=warn",
        "h2=warn",
        "trust_dns_resolver=warn",
        "trust_dns_proto=warn",
    ];
    let cases = [("network", "network=debug"), ("debug", "debug"), ("", "debug")];
    for (target, directive) in cases {
        let f = log_filter(None, Some(target.to_string()));
        let mut expected = quiet.clone();
        expected.push(directive);
        assert_eq!(f.directives, expected);
    }
}

#[test]
fn a_node_has_a_home() {
    assert!(matches!(get_default_home(Some("/near"), Some("/me")), Home::Given("/near")));
    match get_default_home(None, Some("/me")) {
        Home::Under { home, name } => {
            assert_eq!(home, "/me");
            assert_eq!(name, ".near");
        }
        _ => panic!("under the home directory"),
    }
    assert!(matches!(get_default_home::<&str>(None, None), Home::Nowhere));
}

#[test]
fn a_build_has_a_version() {
    let v = Version::trunk();
    assert_eq!(v.version, "trunk");
    assert_eq!(v.build, "unknown");
}

fn steps(has_genesis: bool, has_key: bool) -> Vec<&'static str> {
    let mut names = vec![];
    let mut s = download_configs();
    loop {
        let (name, e) = match &s {
            ConfigStep::CreateDir => ("dir", ConfigEvent::Done),
            ConfigStep::DownloadConfig => ("config", ConfigEvent::Done),
            ConfigStep::LoadConfig => (
                "load",
                ConfigEvent::Loaded {
                    genesis_file: "g.json".to_string(),
                    node_key_file: "k.json".to_string(),
                },
            ),
            ConfigStep::FindGenesis { genesis_file, .. } => {
                assert_eq!(genesis_file, "g.json");
                ("genesis?", ConfigEvent::Found(has_genesis))
            }
            ConfigStep::DownloadGenesis { genesis_file, .. } => {
                assert_eq!(genesis_file, "g.json");
                ("genesis", ConfigEvent::Done)
            }
            ConfigStep::FindNodeKey { node_key_file } => {
                assert_eq!(node_key_file, "k.json");
                ("key?", ConfigEvent::Found(has_key))
            }
            ConfigStep::WriteNodeKey { node_key_file } => {
                assert_eq!(node_key_file, "k.json");
                ("key", ConfigEvent::Done)
            }
            ConfigStep::Finished => break,
        };
        names.push(name);
        s = s.next(e).ok().unwrap();
    }
    names
}

#[test]
fn only_missing_files_are_made() {
    assert_eq!(steps(true, true), vec!["dir", "config", "load", "genesis?", "key?"]);
    assert_eq!(
        steps(false, false),
        vec!["dir", "config", "load", "genesis?", "genesis", "key?", "key"]
    );
    assert_eq!(steps(true, false), vec!["dir", "config", "load", "genesis?", "key?", "key"]);
}

#[test]
fn a_step_goes_as_it_can() {
    let s = download_configs().next(ConfigEvent::Found(true));
    assert!(matches!(s, Err(ConfigStep::CreateDir)));
    let s = ConfigStep::Finished.next(ConfigEvent::Done);
    assert!(matches!(s, Err(ConfigStep::Finished)));
}
