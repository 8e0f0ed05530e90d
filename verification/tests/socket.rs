use turbine::contact_info::ContactInfo;
use turbine::socket::{SocketAddr, SocketAddrSpace};

fn v4(a: u8, b: u8, c: u8, d: u8, port: u16) -> SocketAddr {
    SocketAddr::V4 { ip: u32::from_be_bytes([a, b, c, d]), port }
}

fn v6(ip: u128, port: u16) -> SocketAddr {
    SocketAddr::V6 { ip, port, flowinfo: 0, scope_id: 0 }
}

#[test]
fn test_address_classes() {
    assert!(v4(0, 0, 0, 0, 1).is_unspecified());
    assert!(!v4(0, 0, 0, 1, 1).is_unspecified());
    assert!(v6(0, 1).is_unspecified());
    assert!(!v6(1, 1).is_unspecified());

    assert!(v4(127, 0, 0, 1, 1).is_loopback());
    assert!(v4(127, 255, 255, 255, 1).is_loopback());
    assert!(!v4(126, 255, 255, 255, 1).is_loopback());
    assert!(!v4(128, 0, 0, 0, 1).is_loopback());
    assert!(v6(1, 1).is_loopback());
    assert!(!v6(2, 1).is_loopback());

    assert!(v4(10, 0, 0, 0, 1).is_private());
    assert!(v4(10, 255, 255, 255, 1).is_private());
    assert!(!v4(11, 0, 0, 0, 1).is_private());
    assert!(v4(172, 16, 0, 0, 1).is_private());
    assert!(v4(172, 31, 255, 255, 1).is_private());
    assert!(!v4(172, 15, 255, 255, 1).is_private());
    assert!(!v4(172, 32, 0, 0, 1).is_private());
    assert!(v4(192, 168, 0, 0, 1).is_private());
    assert!(v4(192, 168, 255, 255, 1).is_private());
    assert!(!v4(192, 167, 255, 255, 1).is_private());
    assert!(!v4(192, 169, 0, 0, 1).is_private());
    assert!(!v6(0xfc00 << 112, 1).is_private());

    assert!(v4(224, 0, 0, 0, 1).is_multicast());
    assert!(v4(239, 255, 255, 255, 1).is_multicast());
    assert!(!v4(223, 255, 255, 255, 1).is_multicast());
    assert!(!v4(240, 0, 0, 0, 1).is_multicast());
    assert!(v6(0xff << 120, 1).is_multicast());
    assert!(v6(u128::MAX, 1).is_multicast());
    assert!(!v6(0xfe << 120, 1).is_multicast());

    assert_eq!(v4(1, 2, 3, 4, 77).port(), 77);
    assert_eq!(v6(9, 78).port(), 78);
}

#[test]
fn test_socket_addr_space() {
    assert_eq!(SocketAddrSpace::new(true), SocketAddrSpace::Unspecified);
    assert_eq!(SocketAddrSpace::new(false), SocketAddrSpace::Global);
    let any = SocketAddrSpace::Unspecified;
    let global = SocketAddrSpace::Global;
    for addr in [
        v4(10, 1, 2, 3, 1),
        v4(127, 0, 0, 1, 1),
        v4(8, 8, 8, 8, 1),
        v4(0, 0, 0, 0, 0),
        v6(1, 1),
        v6(77, 1),
    ] {
        assert!(any.check(&addr));
    }
    assert!(!global.check(&v4(10, 1, 2, 3, 1)));
    assert!(!global.check(&v4(172, 20, 2, 3, 1)));
    assert!(!global.check(&v4(192, 168, 2, 3, 1)));
    assert!(!global.check(&v4(127, 0, 0, 1, 1)));
    assert!(global.check(&v4(8, 8, 8, 8, 1)));
    assert!(global.check(&v4(0, 0, 0, 0, 1)));
    assert!(global.check(&v4(224, 0, 0, 1, 1)));
    assert!(!global.check(&v6(1, 1)));
    assert!(global.check(&v6(77, 1)));
}

#[test]
fn test_is_valid_address() {
    let any = SocketAddrSpace::Unspecified;
    let global = SocketAddrSpace::Global;
    assert!(ContactInfo::is_valid_address(&v4(8, 8, 8, 8, 53), &global));
    assert!(ContactInfo::is_valid_address(&v4(8, 8, 8, 8, 53), &any));
    // The port must not be zero.
    assert!(!ContactInfo::is_valid_address(&v4(8, 8, 8, 8, 0), &any));
    // The address must be specified and no multicast address.
    assert!(!ContactInfo::is_valid_address(&v4(0, 0, 0, 0, 53), &any));
    assert!(!ContactInfo::is_valid_address(&v4(224, 0, 0, 1, 53), &any));
    assert!(!ContactInfo::is_valid_address(&v6(0, 53), &any));
    assert!(!ContactInfo::is_valid_address(&v6(0xff01 << 112, 53), &any));
    // Loopback and private addresses depend on the space.
    assert!(ContactInfo::is_valid_address(&v4(127, 0, 0, 1, 53), &any));
    assert!(!ContactInfo::is_valid_address(&v4(127, 0, 0, 1, 53), &global));
    assert!(ContactInfo::is_valid_address(&v4(10, 0, 0, 1, 53), &any));
    assert!(!ContactInfo::is_valid_address(&v4(10, 0, 0, 1, 53), &global));
    assert!(ContactInfo::is_valid_address(&v6(1, 53), &any));
    assert!(!ContactInfo::is_valid_address(&v6(1, 53), &global));
    assert!(ContactInfo::is_valid_address(&v6(0x2001 << 112, 53), &global));
}
