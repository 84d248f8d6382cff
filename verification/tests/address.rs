use ambient_ember::address::host_with_default_port;

#[test]
fn hosts_without_a_port_get_the_default() {
    assert_eq!(host_with_default_port("example.com", 9000), "example.com:9000");
    assert_eq!(host_with_default_port("example.com:1234", 9000), "example.com:1234");
    assert_eq!(host_with_default_port("", 0), ":0");
    assert_eq!(host_with_default_port("[::1]", 9000), "[::1]");
}
