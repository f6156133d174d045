use ssm::address::complete_address;

#[test]
fn host_only_gets_default_port() {
    assert_eq!(complete_address("host"), "host:22");
}

#[test]
fn port_only_gets_localhost() {
    assert_eq!(complete_address(":2222"), "localhost:2222");
}

#[test]
fn complete_address_unchanged() {
    assert_eq!(complete_address("host:2222"), "host:2222");
}

#[test]
fn empty_address_gets_both_defaults() {
    assert_eq!(complete_address(""), "localhost:22");
    assert_eq!(complete_address(":"), "localhost:22");
    assert_eq!(complete_address("host:"), "host:22");
}

#[test]
fn completion_is_idempotent() {
    for a in ["host", ":2222", "host:2222", "", ":", "a:b:c", ":b:c"] {
        let once = complete_address(a);
        assert_eq!(complete_address(&once), once);
    }
}
