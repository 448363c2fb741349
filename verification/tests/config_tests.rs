use mysocial_network::config::{
    genesis_blob_path, mysocial_config_dir, ssfn_config_file, sui_config_dir, u64_to_decimal,
    validator_config_file, ConfigError, Multiaddr, PersistedConfig, RandomnessConfig,
};

#[test]
fn decimal_rendering_exact() {
    assert_eq!(u64_to_decimal(0), "0");
    assert_eq!(u64_to_decimal(7), "7");
    assert_eq!(u64_to_decimal(10), "10");
    assert_eq!(u64_to_decimal(8080), "8080");
    assert_eq!(u64_to_decimal(u64::MAX), "18446744073709551615");
}

#[test]
fn config_file_names_from_address() {
    let addr = Multiaddr { hostname: Some(String::from("node.example")), port: Some(8080) };
    assert_eq!(validator_config_file(addr, 3), "node.example-8080.yaml");

    let no_port = Multiaddr { hostname: Some(String::from("node.example")), port: None };
    assert_eq!(validator_config_file(no_port, 3), "validator-config-3.yaml");

    let no_host = Multiaddr { hostname: None, port: Some(8080) };
    assert_eq!(ssfn_config_file(no_host, 12), "ssfn-config-12.yaml");

    let full = Multiaddr { hostname: Some(String::from("ssfn.example")), port: Some(443) };
    assert_eq!(ssfn_config_file(full, 12), "ssfn.example-443.yaml");
}

#[test]
fn config_dir_resolution() {
    assert_eq!(
        mysocial_config_dir(Some(String::from("/tmp/override")), Some(String::from("/home/u"))),
        Ok(String::from("/tmp/override"))
    );
    assert_eq!(
        mysocial_config_dir(None, Some(String::from("/home/u"))),
        Ok(String::from("/home/u/.mysocial/mysocial_config"))
    );
    assert_eq!(
        mysocial_config_dir(None, None),
        Err(ConfigError::HomeDirectoryUnavailable)
    );
    // The compatibility name resolves identically.
    assert_eq!(
        sui_config_dir(None, Some(String::from("/home/u"))),
        Ok(String::from("/home/u/.mysocial/mysocial_config"))
    );
}

#[test]
fn genesis_blob_location() {
    assert_eq!(
        genesis_blob_path(Some(String::from("/etc/node")), None, None),
        Some(String::from("/etc/node/genesis.blob"))
    );
    assert_eq!(
        genesis_blob_path(None, Some(String::from("/tmp/cfg")), Some(String::from("/home/u"))),
        Some(String::from("/tmp/cfg/genesis.blob"))
    );
    assert_eq!(
        genesis_blob_path(None, None, Some(String::from("/home/u"))),
        Some(String::from("/home/u/.mysocial/mysocial_config/genesis.blob"))
    );
    assert_eq!(genesis_blob_path(None, None, None), None);
}

#[test]
fn persisted_config_pairs_value_and_path() {
    let p = PersistedConfig::persisted(42u64, String::from("/tmp/answer.yaml"));
    assert_eq!(p.path(), "/tmp/answer.yaml");
    assert_eq!(*p.get(), 42);
    assert_eq!(p.into_inner(), 42);
}

#[test]
fn randomness_config_defaults() {
    let c = RandomnessConfig::default();
    assert_eq!(c.mailbox_capacity, 1024);
    assert_eq!(c.send_signatures_rate_limit, None);
    assert_eq!(c.max_pending_rounds, 100);
    assert_eq!(c.max_partial_sigs_per_message, 1024);
}
