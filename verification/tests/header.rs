use dns_wire::dns::flags::Flags;
use dns_wire::dns::header::Header;
use dns_wire::dns::Response;
use dns_wire::dns_header::{DNSHeader, Flags as FlagWord};

#[test]
fn response_flags_have_only_qr() {
    assert_eq!(Flags::<Response>::new().to_be_bytes(), [0x80, 0x00]);
}

#[test]
fn response_header_is_twelve_octets() {
    let bytes = Header::response(1).to_be_bytes();
    assert_eq!(bytes, [0x00, 0x01, 0x80, 0x00, 0, 0, 0, 0, 0, 0, 0, 0]);
    let bytes = Header::response(0xbeef).to_be_bytes();
    assert_eq!(bytes, [0xbe, 0xef, 0x80, 0x00, 0, 0, 0, 0, 0, 0, 0, 0]);
}

#[test]
fn header_copies_encode_alike() {
    let h = Header::response(77);
    let copy = h;
    assert_eq!(h.clone().to_be_bytes(), copy.to_be_bytes());
}

#[test]
fn new_flags_are_zero() {
    assert_eq!(u16::from(FlagWord::new()), 0);
    assert_eq!(u16::from(FlagWord::default()), 0);
    assert_eq!(FlagWord::new().to_be_bytes(), [0, 0]);
}

#[test]
fn each_flag_has_its_bit() {
    let mut f = FlagWord::new();
    f.set_qr(true);
    assert_eq!(u16::from(f), 0x8000);
    let mut f = FlagWord::new();
    f.set_aa(true);
    assert_eq!(u16::from(f), 0x0400);
    let mut f = FlagWord::new();
    f.set_tc(true);
    assert_eq!(u16::from(f), 0x0200);
    let mut f = FlagWord::new();
    f.set_rd(true);
    assert_eq!(u16::from(f), 0x0100);
    let mut f = FlagWord::new();
    f.set_ra(true);
    assert_eq!(u16::from(f), 0x0080);
}

#[test]
fn each_field_has_its_range() {
    let mut f = FlagWord::new();
    f.set_opcode(0xf);
    assert_eq!(u16::from(f), 0x7800);
    let mut f = FlagWord::new();
    f.set_opcode(2);
    assert_eq!(u16::from(f), 0x1000);
    let mut f = FlagWord::new();
    f.set_z(7);
    assert_eq!(u16::from(f), 0x0070);
    let mut f = FlagWord::new();
    f.set_z(1);
    assert_eq!(u16::from(f), 0x0010);
    let mut f = FlagWord::new();
    f.set_rcode(0xf);
    assert_eq!(u16::from(f), 0x000f);
    let mut f = FlagWord::new();
    f.set_rcode(3);
    assert_eq!(u16::from(f), 0x0003);
}

#[test]
fn values_are_cut_to_their_field() {
    let mut f = FlagWord::new();
    f.set_opcode(0xff);
    assert_eq!(u16::from(f), 0x7800);
    f.set_opcode(0x12);
    assert_eq!(u16::from(f), 0x1000);
    let mut f = FlagWord::new();
    f.set_z(0xff);
    assert_eq!(u16::from(f), 0x0070);
    f.set_z(0x09);
    assert_eq!(u16::from(f), 0x0010);
    let mut f = FlagWord::new();
    f.set_rcode(0xff);
    assert_eq!(u16::from(f), 0x000f);
    f.set_rcode(0x25);
    assert_eq!(u16::from(f), 0x0005);
}

fn all_set() -> FlagWord {
    let mut f = FlagWord::new();
    f.set_qr(true);
    f.set_opcode(15);
    f.set_aa(true);
    f.set_tc(true);
    f.set_rd(true);
    f.set_ra(true);
    f.set_z(7);
    f.set_rcode(15);
    f
}

#[test]
fn fields_fill_the_word() {
    assert_eq!(u16::from(all_set()), 0xffff);
    assert_eq!(all_set().to_be_bytes(), [0xff, 0xff]);
}

#[test]
fn setting_one_field_leaves_the_others() {
    let mut f = all_set();
    f.set_qr(false);
    assert_eq!(u16::from(f), 0x7fff);
    let mut f = all_set();
    f.set_opcode(0);
    assert_eq!(u16::from(f), 0x87ff);
    let mut f = all_set();
    f.set_aa(false);
    assert_eq!(u16::from(f), 0xfbff);
    let mut f = all_set();
    f.set_tc(false);
    assert_eq!(u16::from(f), 0xfdff);
    let mut f = all_set();
    f.set_rd(false);
    assert_eq!(u16::from(f), 0xfeff);
    let mut f = all_set();
    f.set_ra(false);
    assert_eq!(u16::from(f), 0xff7f);
    let mut f = all_set();
    f.set_z(0);
    assert_eq!(u16::from(f), 0xff8f);
    let mut f = all_set();
    f.set_rcode(0);
    assert_eq!(u16::from(f), 0xfff0);
}

#[test]
fn setting_twice_is_setting_once() {
    let mut f = FlagWord::new();
    f.set_rd(true);
    f.set_rd(true);
    assert_eq!(u16::from(f), 0x0100);
    f.set_rd(false);
    f.set_rd(false);
    assert_eq!(u16::from(f), 0);
    f.set_opcode(5);
    f.set_opcode(9);
    assert_eq!(u16::from(f), 9 << 11);
}

#[test]
fn flag_word_is_sent_most_significant_octet_first() {
    let mut f = FlagWord::new();
    f.set_qr(true);
    f.set_rd(true);
    f.set_rcode(3);
    assert_eq!(f.to_be_bytes(), [0x81, 0x03]);
}

#[test]
fn plain_header_has_no_entries() {
    let mut flags = FlagWord::new();
    flags.set_aa(true);
    let h = DNSHeader::new(0x0102, flags);
    assert_eq!(h.id, 0x0102);
    assert_eq!(u16::from(h.flags), 0x0400);
    assert_eq!((h.qdcount, h.ancount, h.nscount, h.arcount), (0, 0, 0, 0));
    assert_eq!(h.to_bytes(), [0x01, 0x02, 0x04, 0x00, 0, 0, 0, 0, 0, 0, 0, 0]);
}

#[test]
fn query_header_asks_for_recursion() {
    let h = DNSHeader::query(0x1234);
    assert_eq!(u16::from(h.flags), 0x0100);
    assert_eq!(h.to_bytes(), [0x12, 0x34, 0x01, 0x00, 0, 0, 0, 0, 0, 0, 0, 0]);
}

#[test]
fn response_header_carries_the_response_code() {
    let h = DNSHeader::response(7, 3);
    assert_eq!(u16::from(h.flags), 0x8003);
    assert_eq!(h.to_bytes(), [0x00, 0x07, 0x80, 0x03, 0, 0, 0, 0, 0, 0, 0, 0]);
    let h = DNSHeader::response(7, 0);
    assert_eq!(h.to_bytes(), [0x00, 0x07, 0x80, 0x00, 0, 0, 0, 0, 0, 0, 0, 0]);
    let h = DNSHeader::response(7, 0xf5);
    assert_eq!(u16::from(h.flags), 0x8005);
}

#[test]
fn header_counts_are_sent_in_order() {
    let mut h = DNSHeader::new(0, FlagWord::new());
    h.qdcount = 0x0102;
    h.ancount = 0x0304;
    h.nscount = 0x0506;
    h.arcount = 0x0708;
    assert_eq!(h.to_bytes(), [0, 0, 0, 0, 1, 2, 3, 4, 5, 6, 7, 8]);
    assert_eq!(DNSHeader::SIZE, 12);
    assert_eq!(h.to_bytes().len(), DNSHeader::SIZE);
}
