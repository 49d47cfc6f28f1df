use balancebeam::forwarding::{extend_header_value, forwarded_for, FORWARDED_FOR};

#[test]
fn header_name_is_x_forwarded_for() {
    assert_eq!(FORWARDED_FOR, "x-forwarded-for");
}

#[test]
fn absent_header_becomes_the_client_address() {
    assert_eq!(forwarded_for(None, "10.1.2.3"), b"10.1.2.3".to_vec());
}

#[test]
fn present_header_keeps_its_value_before_the_client_address() {
    assert_eq!(
        forwarded_for(Some(b"203.0.113.9"), "10.1.2.3"),
        b"203.0.113.9, 10.1.2.3".to_vec()
    );
    assert_eq!(
        forwarded_for(Some(b"203.0.113.9, 198.51.100.2"), "10.1.2.3"),
        b"203.0.113.9, 198.51.100.2, 10.1.2.3".to_vec()
    );
}

#[test]
fn two_requests_of_one_session_are_extended_alike() {
    let first = forwarded_for(Some(b"203.0.113.9"), "10.1.2.3");
    let second = forwarded_for(None, "10.1.2.3");
    let third = forwarded_for(Some(b"203.0.113.9"), "10.1.2.3");
    assert_eq!(first, b"203.0.113.9, 10.1.2.3".to_vec());
    assert_eq!(second, b"10.1.2.3".to_vec());
    assert_eq!(first, third);
}

#[test]
fn chained_proxies_list_the_nearer_client_last() {
    let outer = forwarded_for(None, "192.0.2.1");
    let inner = forwarded_for(Some(&outer), "10.0.0.7");
    assert_eq!(inner, b"192.0.2.1, 10.0.0.7".to_vec());
}

#[test]
fn empty_values_are_joined_too() {
    assert_eq!(extend_header_value(Some(b""), b"x"), b", x".to_vec());
    assert_eq!(extend_header_value(Some(b"x"), b""), b"x, ".to_vec());
    assert_eq!(extend_header_value(None, b""), Vec::<u8>::new());
}

#[test]
fn non_ascii_address_is_appended_as_its_bytes() {
    assert_eq!(forwarded_for(Some(b"a"), "\u{e9}"), vec![b'a', b',', b' ', 0xc3, 0xa9]);
}
