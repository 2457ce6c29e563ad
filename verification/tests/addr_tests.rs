use zeta::addr::SockAddr;

fn v6(s: [u16; 8], port: u16, scope_id: u32) -> SockAddr {
    let mut ip: u128 = 0;
    for g in s {
        ip = (ip << 16) | g as u128;
    }
    SockAddr::V6 { ip, port, flowinfo: 0, scope_id }
}

#[test]
fn ipv4_text() {
    let a = SockAddr::V4 { ip: u32::from_be_bytes([65, 75, 200, 180]), port: 55555 };
    assert_eq!(a.to_text(), "65.75.200.180:55555");
    assert_eq!(SockAddr::V4 { ip: 0, port: 0 }.to_text(), "0.0.0.0:0");
    assert_eq!(SockAddr::V4 { ip: u32::MAX, port: 65535 }.to_text(), "255.255.255.255:65535");
    let a = SockAddr::V4 { ip: u32::from_be_bytes([10, 0, 9, 100]), port: 8080 };
    assert_eq!(a.to_text(), "10.0.9.100:8080");
}

#[test]
fn ipv6_text() {
    assert_eq!(v6([0; 8], 443, 0).to_text(), "[::]:443");
    assert_eq!(v6([0, 0, 0, 0, 0, 0, 0, 1], 443, 0).to_text(), "[::1]:443");
    assert_eq!(v6([0x2001, 0xdb8, 0, 0, 1, 0, 0, 1], 443, 0).to_text(), "[2001:db8::1:0:0:1]:443");
    assert_eq!(v6([0x2001, 0xdb8, 0, 0, 0, 0, 0, 1], 443, 0).to_text(), "[2001:db8::1]:443");
    assert_eq!(v6([0x2001, 0, 0xdb8, 0, 0, 0xff, 0, 0], 1, 0).to_text(), "[2001:0:db8::ff:0:0]:1");
    assert_eq!(v6([1, 0, 2, 0, 3, 0, 4, 0], 1, 0).to_text(), "[1:0:2:0:3:0:4:0]:1");
    assert_eq!(v6([0, 0, 0, 0, 0, 0xffff, 0xc000, 0x0280], 1, 0).to_text(), "[::ffff:192.0.2.128]:1");
    assert_eq!(v6([0, 0, 0, 0, 0, 0, 0xc000, 0x0280], 1, 0).to_text(), "[::c000:280]:1");
    assert_eq!(
        v6([0xfe80, 0, 0, 0, 0x1234, 0x5678, 0x9abc, 0xdef0], 1, 3).to_text(),
        "[fe80::1234:5678:9abc:def0%3]:1"
    );
    assert_eq!(v6([0xffff; 8], 2, 0).to_text(), "[ffff:ffff:ffff:ffff:ffff:ffff:ffff:ffff]:2");
    assert_eq!(v6([0, 0, 1, 0, 0, 1, 0, 0], 2, 0).to_text(), "[::1:0:0:1:0:0]:2");
    assert_eq!(v6([1, 0, 0, 1, 0, 0, 0, 1], 2, 0).to_text(), "[1:0:0:1::1]:2");
    assert_eq!(v6([1, 2, 3, 4, 5, 6, 7, 0], 2, 0).to_text(), "[1:2:3:4:5:6:7:0]:2");
    assert_eq!(v6([0xabc, 0x10, 0, 0, 0, 0, 0, 0], 2, 0).to_text(), "[abc:10::]:2");
}

#[test]
fn addresses_compare_by_all_fields() {
    let a = SockAddr::V6 { ip: 1, port: 2, flowinfo: 0, scope_id: 0 };
    let b = SockAddr::V6 { ip: 1, port: 2, flowinfo: 9, scope_id: 0 };
    assert_ne!(a, b);
    assert_eq!(a.to_text(), b.to_text());
}
