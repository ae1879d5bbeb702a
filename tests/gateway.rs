use hostscan::address::Address;
use hostscan::gateway::detect_default_gateway;
use hostscan::session::subnet_text;

fn addr(a: u8, b: u8, c: u8, d: u8) -> Address {
    Address { a, b, c, d }
}

#[test]
fn via_line_gives_gateway_and_subnet() {
    let text = "default via 192.168.1.1 dev eth0 proto dhcp metric 100\n";
    let gw = detect_default_gateway(text);
    assert_eq!(gw, Some(addr(192, 168, 1, 1)));
    assert_eq!(subnet_text(gw.unwrap()), "192.168.1.0/24");
}

#[test]
fn gateway_word_marker_is_recognized() {
    let text = "Configuration for interface \"Ethernet\"\n    DHCP enabled:  Yes\n    Default Gateway:                      192.168.0.254\n    Gateway Metric:  0\n";
    assert_eq!(detect_default_gateway(text), Some(addr(192, 168, 0, 254)));
}

#[test]
fn marker_followed_by_interface_falls_back_to_next_token() {
    assert_eq!(detect_default_gateway("Gateway eth0 10.0.0.1"), Some(addr(10, 0, 0, 1)));
}

#[test]
fn no_marker_gives_none() {
    assert_eq!(detect_default_gateway("10.0.0.0/8 dev eth0 proto kernel 10.0.0.1\n"), None);
}

#[test]
fn empty_text_gives_none() {
    assert_eq!(detect_default_gateway(""), None);
}

#[test]
fn marker_without_address_gives_none() {
    assert_eq!(detect_default_gateway("default via\n"), None);
    assert_eq!(detect_default_gateway("default via dev eth0\n"), None);
}

#[test]
fn first_matching_line_wins() {
    let text = "default dev wlan0\ndefault via 10.1.2.3 dev eth0\ndefault via 172.16.0.1 dev eth1\n";
    assert_eq!(detect_default_gateway(text), Some(addr(10, 1, 2, 3)));
}

#[test]
fn later_marker_in_line_used_when_earlier_fails() {
    assert_eq!(
        detect_default_gateway("via x y via 192.168.5.1"),
        Some(addr(192, 168, 5, 1))
    );
}

#[test]
fn surrounding_punctuation_is_stripped() {
    assert_eq!(
        detect_default_gateway("default via (192.168.1.1), dev eth0"),
        Some(addr(192, 168, 1, 1))
    );
}

#[test]
fn invalid_addresses_are_refused() {
    assert_eq!(detect_default_gateway("default via 192.168.01.1"), None);
    assert_eq!(detect_default_gateway("default via 192.168.1.256"), None);
    assert_eq!(detect_default_gateway("default via 192.168.1"), None);
    assert_eq!(detect_default_gateway("default via 192.168..1.1"), None);
    assert_eq!(detect_default_gateway("default via 1.2.3.4.5"), None);
}

#[test]
fn via_must_be_whole_token() {
    assert_eq!(detect_default_gateway("default xvia 192.168.1.1"), None);
}

#[test]
fn gateway_marker_is_case_sensitive() {
    assert_eq!(detect_default_gateway("default gateway 192.168.1.1"), None);
}

#[test]
fn crlf_lines_and_tabs_are_handled() {
    assert_eq!(
        detect_default_gateway("junk\r\ndefault\tvia\t10.20.30.40\r\n"),
        Some(addr(10, 20, 30, 40))
    );
}

#[test]
fn address_text_is_canonical() {
    assert_eq!(addr(10, 0, 0, 5).to_text(), "10.0.0.5");
    assert_eq!(addr(255, 100, 9, 0).to_text(), "255.100.9.0");
    assert_eq!(subnet_text(addr(10, 20, 30, 40)), "10.20.30.0/24");
}
