use tunnel::text::{hex_bytes, hex_text, port_text, strip_prefix};

#[test]
fn ports_in_decimal() {
    assert_eq!(port_text(0), "0");
    assert_eq!(port_text(9), "9");
    assert_eq!(port_text(10), "10");
    assert_eq!(port_text(15432), "15432");
    assert_eq!(port_text(u16::MAX), "65535");
}

#[test]
fn bytes_in_hexadecimal() {
    assert_eq!(hex_text(&[]), "");
    assert_eq!(hex_text(&[0x00, 0x0f, 0xa5, 0xff]), "000fa5ff");
}

#[test]
fn hexadecimal_comes_back() {
    let all: Vec<u8> = (0..=255).collect();
    assert_eq!(hex_bytes(&hex_text(&all)), Some(all));
}

#[test]
fn what_is_not_hexadecimal() {
    assert_eq!(hex_bytes(""), Some(vec![]));
    assert_eq!(hex_bytes("a"), None);
    assert_eq!(hex_bytes("abc"), None);
    assert_eq!(hex_bytes("0g"), None);
    assert_eq!(hex_bytes("AB"), None);
    assert_eq!(hex_bytes("zz00"), None);
    assert_eq!(hex_bytes("隧道"), None);
}

#[test]
fn prefixes() {
    assert_eq!(strip_prefix("tunnel_7", "tunnel_"), Some("7".to_string()));
    assert_eq!(strip_prefix("tunnel_", "tunnel_"), Some(String::new()));
    assert_eq!(strip_prefix("tunnel", "tunnel_"), None);
    assert_eq!(strip_prefix("Tunnel_7", "tunnel_"), None);
    assert_eq!(strip_prefix("隧道一", "隧道"), Some("一".to_string()));
    assert_eq!(strip_prefix("any", ""), Some("any".to_string()));
}
