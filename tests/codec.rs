use cilium_lb::service::{BACKEND_SIZE, FRONTEND_SIZE};
use cilium_lb::{Addr4, Backend, DecodeError, Frontend};

#[test]
fn frontend_wire_layout() {
    let mut f = Frontend::new(Addr4::from_octets(10, 0, 0, 1, 80));
    f.slave(1);
    assert_eq!(f.to_bytes(), vec![10, 0, 0, 1, 0, 80, 1, 0]);
}

#[test]
fn backend_wire_layout() {
    let b = Backend::new(Addr4::from_octets(10, 0, 1, 5, 8080), 1);
    assert_eq!(b.to_bytes(), vec![10, 0, 1, 5, 0x1f, 0x90, 1, 0, 0, 0, 0, 0]);
    assert_eq!(Backend::empty().to_bytes(), vec![0; 12]);
}

#[test]
fn frontend_round_trip_boundaries() {
    for &address in &[0u32, 1, 0x0a00_0001, 0xffff_ffff] {
        for &dport in &[0u16, 1, 80, 65535] {
            for &slave in &[0u16, 1, 256, 65535] {
                let f = Frontend { address, dport, slave };
                let bytes = f.to_bytes();
                assert_eq!(bytes.len(), FRONTEND_SIZE);
                assert_eq!(Frontend::from_packed(&bytes), Ok(f));
            }
        }
    }
}

#[test]
fn backend_round_trip_boundaries() {
    for &target in &[0u32, 0xc0a8_0001, 0xffff_ffff] {
        for &small in &[0u16, 1, 0x1234, 65535] {
            let b = Backend { target, port: small, count: small, rev_nat_index: 65535 - small, weight: small };
            let bytes = b.to_bytes();
            assert_eq!(bytes.len(), BACKEND_SIZE);
            assert_eq!(Backend::from_packed(&bytes), Ok(b));
        }
    }
}

#[test]
fn decode_any_bytes_of_the_right_length() {
    let raw = [0xde, 0xad, 0xbe, 0xef, 0x12, 0x34, 0x56, 0x78];
    let f = Frontend::from_packed(&raw).unwrap();
    assert_eq!(f, Frontend { address: 0xdead_beef, dport: 0x1234, slave: 0x7856 });
    assert_eq!(f.to_bytes(), raw.to_vec());
}

#[test]
fn decode_wrong_length_is_an_error() {
    assert_eq!(
        Frontend::from_packed(&[0u8; 7]),
        Err(DecodeError::Length { expected: 8, found: 7 })
    );
    assert_eq!(
        Backend::from_packed(&[0u8; 13]),
        Err(DecodeError::Length { expected: 12, found: 13 })
    );
}

#[test]
fn helpers_set_fields() {
    let a = Addr4::from_octets(192, 168, 0, 1, 443);
    assert_eq!(a, Addr4::new(0xc0a8_0001, 443));
    assert_eq!(a.octets(), [192, 168, 0, 1]);
    let mut f = Frontend::new(a);
    assert_eq!(f.slave, 0);
    assert_eq!(f.addr(), a);
    f.slave(7);
    assert_eq!(f.slave, 7);
    assert_eq!(f.addr(), a);
    let mut b = Backend::new(a, 3);
    assert_eq!((b.count, b.rev_nat_index, b.weight), (3, 0, 0));
    b.count(9);
    assert_eq!(b.count, 9);
    assert_eq!(b.target(), a);
    assert_eq!(Backend::empty(), Backend { target: 0, port: 0, count: 0, rev_nat_index: 0, weight: 0 });
}
