use packetsmith::domain::ResourceId;
use packetsmith::dynamic::{builtin_value, BuiltInDynamicVariables};
use packetsmith::environments::EnvironmentManager;
use packetsmith::http::{HttpMethod, NetworkClientBuilder};
use packetsmith::resolver::DynamicVariableProvider;
use std::path::PathBuf;
use std::time::Duration;

fn bytes() -> Vec<u8> {
    let mut b = vec![0u8; 32];
    b[6] = 1;
    b[1] = 5;
    b[2] = 6;
    b[31] = 0xab;
    b
}

#[test]
fn builtin_values_come_from_the_given_randomness_and_time() {
    let b = bytes();
    let bits: u128 = 0x0123_4567_89ab_cdef_0000_0000_0000_0000;
    assert_eq!(builtin_value("$randomInt", bits, &b, 0, "").as_deref(), Some("20192"));
    assert_eq!(builtin_value("$randomIp", bits, &b, 0, "").as_deref(), Some("1.5.6.1"));
    assert_eq!(builtin_value("$timestamp", bits, &b, -5, "").as_deref(), Some("-5"));
    assert_eq!(builtin_value("$isoTimestamp", bits, &b, 0, "2024-01-01T00:00:00+00:00").as_deref(), Some("2024-01-01T00:00:00+00:00"));
    assert_eq!(builtin_value("$randomString", bits, &b, 0, "").as_deref(), Some("0123456789ab"));
    assert_eq!(builtin_value("$randomEmail", bits, &b, 0, "").as_deref(), Some("user-0123456789ab@example.test"));
    assert_eq!(builtin_value("$guid", 0, &b, 0, "").as_deref(), Some("00000000-0000-0000-0000-000000000000"));
    assert_eq!(builtin_value("$randomDate", bits, &b, 0, "").as_deref(), Some("2041-08-24"));
    let hex = builtin_value("$randomBytes", bits, &b, 0, "").unwrap();
    assert_eq!(hex.len(), 64);
    assert!(hex.ends_with("ab"));
    assert_eq!(builtin_value("$unknown", bits, &b, 0, ""), None);
}

#[test]
fn generated_values_are_public_and_only_for_builtin_names() {
    let provider = BuiltInDynamicVariables;
    if let Some(g) = provider.generate("$uuid") {
        assert!(!g.is_secret);
        assert!(g.value.parse::<ResourceId>().is_ok());
    }
    assert!(provider.generate("$nope").is_none());
}

#[test]
fn fresh_identifiers_are_version_4_uuids() {
    let id = ResourceId::new();
    assert_eq!((id.as_u128() >> 76) & 0xf, 4);
    assert_eq!((id.as_u128() >> 62) & 0x3, 2);
    let text = id.to_string();
    assert_eq!(text.parse::<ResourceId>().unwrap(), id);
    assert!("not-a-uuid".parse::<ResourceId>().is_err());
}

#[test]
fn client_defaults_and_environment_root() {
    let builder = NetworkClientBuilder::new();
    assert_eq!(builder.timeout, Duration::from_secs(30));
    assert_eq!(builder.connect_timeout, Duration::from_secs(10));
    let manager = EnvironmentManager::new(PathBuf::from("/tmp/ws"));
    assert_eq!(manager.root(), &PathBuf::from("/tmp/ws/environments"));
    assert_eq!("delete".parse::<HttpMethod>().unwrap(), HttpMethod::Delete);
}
