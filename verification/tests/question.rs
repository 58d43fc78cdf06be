use dns_wire::dns::{DomainName, QClass, QType, Question};

#[test]
fn test_to_be_bytes() {
    let question = Question::new(
        "google.com".parse::<DomainName>().unwrap(),
        QType::CNAME,
        QClass::IN,
    );
    let bytes = question.to_be_bytes();
    assert_eq!(
        bytes,
        [
            0x06, 0x67, 0x6f, 0x6f, 0x67, 0x6c, 0x65, // length + "google"
            0x03, 0x63, 0x6f, 0x6d, // length + "com"
            0x00, // null
            0x00, 0x05, // type
            0x00, 0x01 // class
        ]
    );
}

#[test]
fn question_ends_with_type_and_class() {
    let name = DomainName::parse("a.b").unwrap();
    let encoded_name = name.to_be_bytes();
    let cases = [
        (QType::A, QClass::IN, [0x00, 0x01, 0x00, 0x01]),
        (QType::CNAME, QClass::Any, [0x00, 0x05, 0x00, 0xff]),
        (QType::AXFR, QClass::IN, [0x00, 0xfc, 0x00, 0x01]),
        (QType::MAILB, QClass::Any, [0x00, 0xfd, 0x00, 0xff]),
        (QType::MAILA, QClass::IN, [0x00, 0xfe, 0x00, 0x01]),
        (QType::ANY, QClass::Any, [0x00, 0xff, 0x00, 0xff]),
    ];
    for (qtype, qclass, tail) in cases {
        let bytes = Question::new(name.clone(), qtype, qclass).to_be_bytes();
        let mut want = encoded_name.clone();
        want.extend_from_slice(&tail);
        assert_eq!(bytes, want);
    }
}

#[test]
fn question_clone_encodes_alike() {
    let q = Question::new(DomainName::parse("example.org").unwrap(), QType::A, QClass::IN);
    assert_eq!(q.clone().to_be_bytes(), q.to_be_bytes());
}
