use axum_health::address::{parse_ip, IpAddr, SocketAddr};

#[test]
fn reads_dotted_addresses() {
    assert_eq!(parse_ip("127.0.0.1"), Some(IpAddr::V4(0x7f00_0001)));
    assert_eq!(parse_ip("10.20.30.40"), Some(IpAddr::V4(0x0a14_1e28)));
    assert_eq!(parse_ip("255.255.255.255"), Some(IpAddr::V4(u32::MAX)));
    assert_eq!(parse_ip("0.0.0.0"), Some(IpAddr::V4(0)));
}

#[test]
fn reads_colon_addresses() {
    assert_eq!(parse_ip("::"), Some(IpAddr::V6(0)));
    assert_eq!(parse_ip("::1"), Some(IpAddr::V6(1)));
    assert_eq!(
        parse_ip("2001:db8::ff00:42:8329"),
        Some(IpAddr::V6(0x2001_0db8_0000_0000_0000_ff00_0042_8329))
    );
    assert_eq!(
        parse_ip("1:2:3:4:5:6:7:8"),
        Some(IpAddr::V6(0x0001_0002_0003_0004_0005_0006_0007_0008))
    );
    assert_eq!(
        parse_ip("::ffff:192.0.2.128"),
        Some(IpAddr::V6(0xffff_c000_0280))
    );
}

#[test]
fn rejects_what_is_no_address() {
    for text in ["", "localhost", "1.2.3", "1.2.3.4.5", "256.1.1.1", "01.2.3.4", "1::2::3"] {
        assert_eq!(parse_ip(text), None, "{text}");
    }
}

#[test]
fn rejects_malformed_dotted_addresses() {
    let texts = [
        " ", ".", "1", "1.", "1.2.3.4 ", " 1.2.3.4", "1.2.3.4.", ".1.2.3.4", "1..2.3", "1.2.3.04",
        "1.2.3.00", "1.2.3.256", "1.2.3.0256", "1.2.3.-4", "1.2.3.+4", "0x1.2.3.4", "1.2.3.4/8",
        "a.b.c.d", "999.1.1.1", "1.2.3.1000", "1.2.3.4:5", "\u{661}.2.3.4",
    ];
    for text in texts {
        assert_eq!(parse_ip(text), None, "{text:?}");
    }
}

#[test]
fn rejects_malformed_colon_addresses() {
    let texts = [
        ":", ":::", "::1:", ":1::", "1:::2", "1:2", "1:2:", ":1:2", "1:2:3:4:5:6:7",
        "1:2:3:4:5:6:7:8:9", "1:2:3:4:5:6:7:8::", "1:2:3:4:5:6:7::8", "::1:2:3:4:5:6:7:8", "12345::",
        "g::", "0000::00001", "1:2:3:4:5:1.2.3.4", "1:2:3:4:5:6:7:1.2.3.4", "1:2:3:4:5:6::1.2.3.4",
        "1.2.3.4::", "::1.2.3.4:5", "::1.2.3", "::1.2.3.256", "fe80::1%eth0", "[::1]", "::1/64",
        "::\u{661}",
    ];
    for text in texts {
        assert_eq!(parse_ip(text), None, "{text:?}");
    }
}

#[test]
fn reads_every_form_of_colon_address() {
    assert_eq!(parse_ip("1::"), Some(IpAddr::V6(1 << 112)));
    assert_eq!(parse_ip("FF::ff"), Some(IpAddr::V6((0xff << 112) + 0xff)));
    assert_eq!(parse_ip("fF:00::0"), Some(IpAddr::V6(0xff << 112)));
    assert_eq!(
        parse_ip("1:2:3:4:5:6:7::"),
        Some(IpAddr::V6(0x0001_0002_0003_0004_0005_0006_0007_0000))
    );
    assert_eq!(
        parse_ip("::2:3:4:5:6:7:8"),
        Some(IpAddr::V6(0x0002_0003_0004_0005_0006_0007_0008))
    );
    assert_eq!(
        parse_ip("1::3:4:5:6:7:8"),
        Some(IpAddr::V6(0x0001_0000_0003_0004_0005_0006_0007_0008))
    );
    assert_eq!(parse_ip("::1.2.3.4"), Some(IpAddr::V6(0x0102_0304)));
    assert_eq!(parse_ip("1::1.2.3.4"), Some(IpAddr::V6((1 << 112) + 0x0102_0304)));
    assert_eq!(
        parse_ip("1:2:3:4:5:6:1.2.3.4"),
        Some(IpAddr::V6(0x0001_0002_0003_0004_0005_0006_0102_0304))
    );
    assert_eq!(
        parse_ip("1:2:3:4:5::1.2.3.4"),
        Some(IpAddr::V6(0x0001_0002_0003_0004_0005_0000_0102_0304))
    );
}

#[test]
fn a_new_socket_address_has_no_flow_label_or_scope() {
    let address = SocketAddr::new(IpAddr::V4(1), 80);
    assert_eq!(address.ip, IpAddr::V4(1));
    assert_eq!(address.port, 80);
    assert_eq!(address.flow_info, 0);
    assert_eq!(address.scope_id, 0);
}
