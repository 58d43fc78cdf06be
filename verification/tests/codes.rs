use dns_wire::dns::octets::{append, u16_to_be_bytes, u32_to_be_bytes};
use dns_wire::dns::{QClass, QType, RClass, RType};

#[test]
fn record_classes() {
    assert_eq!(RClass::IN.to_be_bytes(), [0x00, 0x01]);
}

#[test]
fn query_classes() {
    assert_eq!(QClass::IN.to_be_bytes(), [0x00, 0x01]);
    assert_eq!(QClass::Any.to_be_bytes(), [0x00, 0xff]);
}

#[test]
fn record_types() {
    assert_eq!(RType::A.to_be_bytes(), [0x00, 0x01]);
    assert_eq!(RType::CNAME.to_be_bytes(), [0x00, 0x05]);
}

#[test]
fn query_types() {
    assert_eq!(QType::A.to_be_bytes(), [0x00, 0x01]);
    assert_eq!(QType::CNAME.to_be_bytes(), [0x00, 0x05]);
    assert_eq!(QType::AXFR.to_be_bytes(), [0x00, 0xfc]);
    assert_eq!(QType::MAILB.to_be_bytes(), [0x00, 0xfd]);
    assert_eq!(QType::MAILA.to_be_bytes(), [0x00, 0xfe]);
    assert_eq!(QType::ANY.to_be_bytes(), [0x00, 0xff]);
}

#[test]
fn every_record_code_is_a_query_code() {
    assert_eq!(RClass::IN.to_be_bytes(), QClass::IN.to_be_bytes());
    assert_eq!(RType::A.to_be_bytes(), QType::A.to_be_bytes());
    assert_eq!(RType::CNAME.to_be_bytes(), QType::CNAME.to_be_bytes());
}

#[test]
fn network_byte_order_agrees_with_std() {
    for x in [0u16, 1, 0x00ff, 0x0100, 0x1234, 0x8000, 0xfffe, u16::MAX] {
        assert_eq!(u16_to_be_bytes(x), x.to_be_bytes());
    }
    for x in [0u32, 1, 3600, 0x0102_0304, 0x8000_0000, 0x00ff_ff00, u32::MAX] {
        assert_eq!(u32_to_be_bytes(x), x.to_be_bytes());
    }
    assert_eq!(u16_to_be_bytes(0x1234), [0x12, 0x34]);
    assert_eq!(u32_to_be_bytes(3600), [0x00, 0x00, 0x0e, 0x10]);
}

#[test]
fn append_adds_at_the_end() {
    let mut out = vec![1u8, 2];
    append(&mut out, &[3, 4, 5]);
    assert_eq!(out, [1, 2, 3, 4, 5]);
    append(&mut out, &[]);
    assert_eq!(out, [1, 2, 3, 4, 5]);
}
