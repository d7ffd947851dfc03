use remotely::host::{Host, HostProtocol};
use remotely::parse::hosts_from_json;
use remotely::registry::{add_host, delete_host, load_hosts};
use remotely::render::hosts_to_json;

fn host(
    id: u64,
    name: &str,
    ip: &str,
    protocol: HostProtocol,
    username: Option<&str>,
    password: Option<&str>,
) -> Host {
    Host {
        id,
        name: name.to_string(),
        ip: ip.to_string(),
        protocol,
        username: username.map(|s| s.to_string()),
        password: password.map(|s| s.to_string()),
    }
}

fn assert_same_host(actual: &Host, expected: &Host) {
    assert_eq!(actual.id, expected.id);
    assert_eq!(actual.name, expected.name);
    assert_eq!(actual.ip, expected.ip);
    assert_eq!(actual.protocol, expected.protocol);
    assert_eq!(actual.username, expected.username);
    assert_eq!(actual.password, expected.password);
}

fn assert_same_hosts(actual: &[Host], expected: &[Host]) {
    assert_eq!(actual.len(), expected.len());
    for (a, e) in actual.iter().zip(expected.iter()) {
        assert_same_host(a, e);
    }
}

#[test]
fn empty_registry_serializes_to_empty_array() {
    assert_eq!(hosts_to_json(&Vec::new()), "[]");
}

#[test]
fn empty_array_loads_to_empty_registry() {
    let loaded = load_hosts(Some("[]"));
    assert!(loaded.is_empty());
}

#[test]
fn missing_file_loads_to_empty_registry() {
    let loaded = load_hosts(None);
    assert!(loaded.is_empty());
}

#[test]
fn corrupt_content_loads_to_empty_registry() {
    for garbage in [
        "",
        "garbage",
        "[",
        "[\n]",
        "[ ]",
        "{\"id\": 1}",
        "[{}]",
        "[1, 2, 3]",
        "\u{0}\u{1}\u{2}",
        "[]x",
        "null",
    ] {
        let loaded = load_hosts(Some(garbage));
        assert!(loaded.is_empty(), "content {:?} must load as empty", garbage);
    }
}

#[test]
fn single_host_serializes_to_exact_text() {
    let hosts = vec![host(
        1,
        "web",
        "10.0.0.1",
        HostProtocol::VNC,
        Some("admin"),
        None,
    )];
    let expected = "[\n  {\n    \"id\": 1,\n    \"name\": \"web\",\n    \"ip\": \"10.0.0.1\",\n    \"protocol\": \"VNC\",\n    \"username\": \"admin\",\n    \"password\": null\n  }\n]";
    assert_eq!(hosts_to_json(&hosts), expected);
}

#[test]
fn single_host_round_trips() {
    let hosts = vec![host(
        7,
        "build box",
        "192.168.1.20",
        HostProtocol::SSH,
        Some("root"),
        Some("hunter2"),
    )];
    let text = hosts_to_json(&hosts);
    let loaded = hosts_from_json(&text).expect("rendered registry must parse");
    assert_same_hosts(&loaded, &hosts);
}

#[test]
fn many_hosts_round_trip_in_order() {
    let hosts = vec![
        host(1, "alpha", "10.0.0.1", HostProtocol::VNC, None, None),
        host(2, "beta", "10.0.0.2", HostProtocol::HTTP, Some("u"), None),
        host(3, "gamma", "example.com", HostProtocol::HTTPS, None, Some("p")),
        host(4, "delta", "10.0.0.4", HostProtocol::SSH, Some("u"), Some("p")),
    ];
    let text = hosts_to_json(&hosts);
    let loaded = hosts_from_json(&text).expect("rendered registry must parse");
    assert_same_hosts(&loaded, &hosts);
}

#[test]
fn escaped_characters_round_trip() {
    let hosts = vec![host(
        9,
        "quote \" backslash \\ newline \n tab \t bell \u{7} accent \u{e9} kanji \u{6f22}",
        "host \"with\" \\ spaces\n",
        HostProtocol::HTTP,
        Some("user\nname"),
        Some("pa\"ss\\word\u{1f}"),
    )];
    let text = hosts_to_json(&hosts);
    let loaded = hosts_from_json(&text).expect("rendered registry must parse");
    assert_same_hosts(&loaded, &hosts);
}

#[test]
fn escaped_name_serializes_to_exact_text() {
    let hosts = vec![host(2, "a\"b\\c\nd", "x", HostProtocol::SSH, None, None)];
    let expected = "[\n  {\n    \"id\": 2,\n    \"name\": \"a\\\"b\\\\c\\u000ad\",\n    \"ip\": \"x\",\n    \"protocol\": \"SSH\",\n    \"username\": null,\n    \"password\": null\n  }\n]";
    assert_eq!(hosts_to_json(&hosts), expected);
}

#[test]
fn id_bounds_round_trip() {
    let hosts = vec![
        host(0, "zero", "a", HostProtocol::VNC, None, None),
        host(u64::MAX, "max", "b", HostProtocol::VNC, None, None),
    ];
    let text = hosts_to_json(&hosts);
    assert!(text.contains("18446744073709551615"));
    let loaded = hosts_from_json(&text).expect("rendered registry must parse");
    assert_same_hosts(&loaded, &hosts);
}

#[test]
fn oversized_id_is_malformed() {
    let text = "[\n  {\n    \"id\": 18446744073709551616,\n    \"name\": \"x\",\n    \"ip\": \"y\",\n    \"protocol\": \"VNC\",\n    \"username\": null,\n    \"password\": null\n  }\n]";
    assert!(hosts_from_json(text).is_none());
    assert!(load_hosts(Some(text)).is_empty());
}

#[test]
fn unknown_protocol_is_malformed() {
    let text = "[\n  {\n    \"id\": 1,\n    \"name\": \"x\",\n    \"ip\": \"y\",\n    \"protocol\": \"TELNET\",\n    \"username\": null,\n    \"password\": null\n  }\n]";
    assert!(hosts_from_json(text).is_none());
}

#[test]
fn all_protocol_labels_round_trip() {
    assert_eq!(HostProtocol::VNC.label(), "VNC");
    assert_eq!(HostProtocol::HTTP.label(), "HTTP");
    assert_eq!(HostProtocol::HTTPS.label(), "HTTPS");
    assert_eq!(HostProtocol::SSH.label(), "SSH");
    for protocol in [
        HostProtocol::VNC,
        HostProtocol::HTTP,
        HostProtocol::HTTPS,
        HostProtocol::SSH,
    ] {
        let hosts = vec![host(1, "n", "i", protocol, None, None)];
        let loaded = hosts_from_json(&hosts_to_json(&hosts)).unwrap();
        assert_eq!(loaded[0].protocol, protocol);
    }
}

#[test]
fn add_appends_in_order() {
    let h1 = host(1, "one", "a", HostProtocol::VNC, None, None);
    let h2 = host(2, "two", "b", HostProtocol::HTTP, None, None);
    let h3 = host(3, "three", "c", HostProtocol::SSH, Some("u"), None);
    let after1 = add_host(None, h1);
    let after2 = add_host(Some(&after1), h2);
    let after3 = add_host(Some(&after2), h3);
    let loaded = load_hosts(Some(&after3));
    let ids: Vec<u64> = loaded.iter().map(|h| h.id).collect();
    assert_eq!(ids, vec![1, 2, 3]);
    assert_eq!(loaded[2].name, "three");
}

#[test]
fn add_over_corrupt_content_starts_fresh() {
    let h = host(5, "only", "a", HostProtocol::VNC, None, None);
    let saved = add_host(Some("not a registry at all"), h);
    let loaded = load_hosts(Some(&saved));
    assert_eq!(loaded.len(), 1);
    assert_eq!(loaded[0].id, 5);
}

#[test]
fn duplicate_ids_are_kept_on_add() {
    let first = add_host(None, host(1, "first", "a", HostProtocol::VNC, None, None));
    let second = add_host(Some(&first), host(1, "second", "b", HostProtocol::SSH, None, None));
    let loaded = load_hosts(Some(&second));
    assert_eq!(loaded.len(), 2);
    assert_eq!(loaded[0].name, "first");
    assert_eq!(loaded[1].name, "second");
}

#[test]
fn remove_filters_by_id_not_index() {
    let mut content = add_host(None, host(1, "a", "x", HostProtocol::VNC, None, None));
    content = add_host(Some(&content), host(2, "b", "y", HostProtocol::HTTP, None, None));
    content = add_host(Some(&content), host(1, "c", "z", HostProtocol::SSH, None, None));
    let after = delete_host(Some(&content), 1);
    let loaded = load_hosts(Some(&after));
    assert_eq!(loaded.len(), 1);
    assert_eq!(loaded[0].id, 2);
    assert_eq!(loaded[0].name, "b");
}

#[test]
fn remove_missing_id_is_noop() {
    let content = add_host(None, host(1, "keep", "x", HostProtocol::VNC, None, None));
    let after = delete_host(Some(&content), 99);
    assert_eq!(after, content);
    let loaded = load_hosts(Some(&after));
    assert_eq!(loaded.len(), 1);
    assert_eq!(loaded[0].id, 1);
}

#[test]
fn remove_from_missing_file_gives_empty_registry() {
    let after = delete_host(None, 1);
    assert_eq!(after, "[]");
    assert!(load_hosts(Some(&after)).is_empty());
}
