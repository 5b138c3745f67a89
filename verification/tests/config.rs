use sshctx::config::{default_operations, default_port, default_python, Config, ConfigError, HostConfig};
use sshctx::home::{config_file, default_audit_file, default_endpoint, endpoint_below, audit_file, HomeUnavailable};
use sshctx::deploy::Platform;
use sshctx::string_map::StringMap;

fn host() -> HostConfig {
    HostConfig {
        address: "x".to_string(),
        port: 22,
        username: "u".to_string(),
        identity_file: "id".to_string(),
        python: "python3".to_string(),
        allowed_roots: vec!["/tmp".to_string()],
        max_operations: 1,
    }
}

fn config(alias: &str, host: HostConfig) -> Config {
    let mut hosts = StringMap::new();
    hosts.insert(alias.to_string(), host);
    Config { hosts }
}

#[test]
fn aliases_cannot_inject_ssh_arguments() {
    let mut hosts = StringMap::new();
    hosts.insert(
        "bad host".to_string(),
        HostConfig {
            address: "x".to_string(),
            port: 22,
            username: "u".to_string(),
            identity_file: "id".to_string(),
            python: "python3".to_string(),
            allowed_roots: vec!["/tmp".to_string()],
            max_operations: 1,
        },
    );
    assert!(Config { hosts }.validate().is_err());
}

#[test]
fn a_plain_configuration_is_accepted() {
    for alias in ["gpu102", "data-42", "A_b", "_", "-"] {
        assert_eq!(config(alias, host()).validate(), Ok(()));
    }
}

#[test]
fn a_configuration_without_hosts_is_refused() {
    let error = Config { hosts: StringMap::new() }.validate().unwrap_err();
    assert_eq!(error, ConfigError::NoHosts);
    assert_eq!(error.message(), "configuration has no hosts");
}

#[test]
fn aliases_are_shown_in_quotes() {
    let error = config("bad \"host\"\n", host()).validate().unwrap_err();
    assert_eq!(error.message(), "invalid host alias \"bad \\\"host\\\"\\n\"");
    assert_eq!(config("", host()).validate(), Err(ConfigError::InvalidAlias(String::new())));
    assert_eq!(config("é", host()).validate(), Err(ConfigError::InvalidAlias("é".to_string())));
}

#[test]
fn hosts_need_an_address_and_a_user() {
    let mut h = host();
    h.address = " \t\u{3000}".to_string();
    let error = config("a", h).validate().unwrap_err();
    assert_eq!(error, ConfigError::MissingIdentity("a".to_string()));
    assert_eq!(error.message(), "host a is missing address or username");
    let mut h = host();
    h.username = String::new();
    assert_eq!(config("a", h).validate(), Err(ConfigError::MissingIdentity("a".to_string())));
}

#[test]
fn roots_are_absolute() {
    let mut h = host();
    h.allowed_roots = vec!["/ok".to_string(), "relative".to_string()];
    let error = config("a", h).validate().unwrap_err();
    assert_eq!(error, ConfigError::RelativeRoots("a".to_string()));
    assert_eq!(error.message(), "host a allowed_roots must contain absolute Linux paths");
    let mut h = host();
    h.allowed_roots = vec![];
    assert_eq!(config("a", h).validate(), Err(ConfigError::RelativeRoots("a".to_string())));
}

#[test]
fn operations_are_positive() {
    let mut h = host();
    h.max_operations = 0;
    let error = config("a", h).validate().unwrap_err();
    assert_eq!(error, ConfigError::NoOperations("a".to_string()));
    assert_eq!(error.message(), "host a max_operations must be positive");
}

#[test]
fn the_first_host_in_order_is_reported() {
    let mut bad = host();
    bad.max_operations = 0;
    let mut hosts = StringMap::new();
    hosts.insert("z".to_string(), bad.clone());
    hosts.insert("b".to_string(), bad);
    hosts.insert("a".to_string(), host());
    assert_eq!(Config { hosts }.validate(), Err(ConfigError::NoOperations("b".to_string())));
}

#[test]
fn defaults() {
    assert_eq!(default_port(), 22);
    assert_eq!(default_python(), "python3");
    assert_eq!(default_operations(), 4);
}

#[test]
fn white_space_is_that_of_the_standard_library() {
    for n in 0..=0x10FFFFu32 {
        if let Some(c) = char::from_u32(n) {
            assert_eq!(sshctx::text::is_white_space(c), c.is_whitespace());
        }
    }
}

fn bytes(path: &str) -> Vec<u8> {
    path.as_bytes().to_vec()
}

#[test]
fn files_lie_below_the_home_directory() {
    let home = Some(bytes("/home/me"));
    assert_eq!(config_file(&home), Ok(bytes("/home/me/.sshctx/config.toml")));
    assert_eq!(audit_file(&home), Ok(bytes("/home/me/.sshctx/audit.jsonl")));
    assert_eq!(endpoint_below(Platform::Unix, &home), Ok("/home/me/.sshctx/runtime.sock".to_string()));
    assert_eq!(config_file(&Some(bytes("/"))), Ok(bytes("/.sshctx/config.toml")));
    assert_eq!(endpoint_below(Platform::Windows, &None), Ok("\\\\.\\pipe\\sshctx-runtime-v1".to_string()));
}

#[test]
fn a_home_directory_need_not_be_text() {
    let home = Some(vec![b'/', 0xff]);
    assert_eq!(config_file(&home), Ok([&b"/\xff"[..], &b"/.sshctx/config.toml"[..]].concat()));
    assert_eq!(endpoint_below(Platform::Unix, &home), Ok("/\u{fffd}/.sshctx/runtime.sock".to_string()));
}

#[test]
fn without_a_home_directory_there_are_no_files() {
    let error = config_file(&None).unwrap_err();
    assert_eq!(error, HomeUnavailable::ForConfig);
    assert_eq!(error.message(), "home directory is unavailable");
    let error = endpoint_below(Platform::Unix, &None).unwrap_err();
    assert_eq!(error.message(), "home directory unavailable");
    assert_eq!(audit_file(&None), Err(HomeUnavailable::ForRuntime));
}

#[test]
fn the_users_own_files() {
    match dirs::home_dir() {
        Some(home) => {
            let below = |name: &str| home.join(name).into_os_string().into_encoded_bytes();
            assert_eq!(Config::path(), Ok(below(".sshctx/config.toml")));
            assert_eq!(
                default_endpoint(Platform::Unix),
                Ok(home.join(".sshctx/runtime.sock").to_string_lossy().into_owned())
            );
            assert_eq!(default_audit_file(), Ok(below(".sshctx/audit.jsonl")));
        }
        None => {
            assert_eq!(Config::path(), Err(HomeUnavailable::ForConfig));
        }
    }
}

#[test]
fn copies_are_equal() {
    let one = config("a", host());
    assert_eq!(one.clone(), one);
}
