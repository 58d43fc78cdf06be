use dns_wire::dns::domain_name::DomainNameError;
use dns_wire::dns::DomainName;
use std::str::FromStr;

fn encode(text: &str) -> Vec<u8> {
    DomainName::parse(text).unwrap().to_be_bytes()
}

/// The encoded form written out label by label.
fn expected(labels: &[&[u8]]) -> Vec<u8> {
    let mut out = Vec::new();
    for label in labels {
        out.push(label.len() as u8);
        out.extend_from_slice(label);
    }
    out.push(0);
    out
}

#[test]
fn reject_empty_name() {
    assert_eq!("".parse::<DomainName>(), Err(DomainNameError::EmptyLabel));
}

#[test]
fn reject_too_long_label() {
    assert_eq!(
        "a".repeat(64).parse::<DomainName>(),
        Err(DomainNameError::LabelTooLong(64))
    );
}

#[test]
fn reject_too_long_name() {
    assert_eq!(
        std::iter::repeat("aaaaa")
            .take(50)
            .collect::<Vec<_>>()
            .join(".")
            .parse::<DomainName>(),
        Err(DomainNameError::NameTooLong(301))
    );
}

#[test]
fn valid_domain_name() {
    let domain = DomainName::from_str("google.com").unwrap();
    let bytes = domain.to_be_bytes();
    assert_eq!(
        format!("{:02x?}", &bytes),
        "[06, 67, 6f, 6f, 67, 6c, 65, 03, 63, 6f, 6d, 00]"
    );
}

#[test]
fn parse_agrees_with_from_str() {
    for text in ["google.com", "", "a..b", "x", "a.b.c.d"] {
        assert_eq!(DomainName::parse(text), DomainName::from_str(text));
    }
    let long = "b".repeat(70);
    assert_eq!(DomainName::parse(&long), long.parse::<DomainName>());
}

#[test]
fn single_label_is_encoded_with_its_length() {
    assert_eq!(encode("localhost"), expected(&[b"localhost"]));
    assert_eq!(encode("x"), vec![1, b'x', 0]);
}

#[test]
fn labels_come_back_in_order() {
    assert_eq!(
        encode("www.example.org"),
        expected(&[b"www", b"example", b"org"])
    );
    assert_eq!(
        encode("a.bc.def.ghij"),
        vec![1, b'a', 2, b'b', b'c', 3, b'd', b'e', b'f', 4, b'g', b'h', b'i', b'j', 0]
    );
}

#[test]
fn every_valid_label_sequence_is_accepted_and_reproduced() {
    let cases: Vec<Vec<Vec<u8>>> = vec![
        vec![b"a".to_vec()],
        vec![vec![b'z'; 63]],
        vec![b"mail".to_vec(), b"example".to_vec(), b"com".to_vec()],
        vec![vec![0u8, 1, 2], vec![b'-'], vec![b'_'; 10]],
        vec![vec![b'q'; 63], vec![b'r'; 63], vec![b's'; 63], vec![b't'; 61]],
    ];
    for labels in cases {
        let joined = labels.join(&b'.');
        let text = String::from_utf8(joined).unwrap();
        let name = DomainName::parse(&text).unwrap();
        let bytes = name.to_be_bytes();
        let mut want = Vec::new();
        for label in &labels {
            want.push(label.len() as u8);
            want.extend_from_slice(label);
        }
        want.push(0);
        assert_eq!(bytes, want);
        assert_eq!(*bytes.last().unwrap(), 0);
    }
}

#[test]
fn encoded_size_is_sum_of_labels_plus_terminator() {
    for text in ["a", "google.com", "a.b.c", "www.example.org", "xn--nxasmq6b.test"] {
        let bytes = encode(text);
        let sum: usize = text.split('.').map(|l| 1 + l.len()).sum();
        assert_eq!(bytes.len(), sum + 1);
    }
    assert_eq!(encode("google.com").len(), 12);
    assert_eq!(encode("a").len(), 3);
}

#[test]
fn label_of_63_octets_is_accepted() {
    let text = "a".repeat(63);
    let bytes = encode(&text);
    assert_eq!(bytes.len(), 65);
    assert_eq!(bytes[0], 63);
    assert_eq!(bytes[64], 0);
}

#[test]
fn label_too_long_reports_its_length() {
    assert_eq!(
        DomainName::parse(&"a".repeat(100)),
        Err(DomainNameError::LabelTooLong(100))
    );
    let text = format!("ok.{}.ok", "b".repeat(65));
    assert_eq!(DomainName::parse(&text), Err(DomainNameError::LabelTooLong(65)));
}

#[test]
fn name_of_255_octets_is_accepted() {
    let text = format!(
        "{}.{}.{}.{}",
        "a".repeat(63),
        "b".repeat(63),
        "c".repeat(63),
        "d".repeat(61)
    );
    let bytes = encode(&text);
    assert_eq!(bytes.len(), 255);
}

#[test]
fn name_of_256_octets_is_rejected() {
    let text = format!(
        "{}.{}.{}.{}",
        "a".repeat(63),
        "b".repeat(63),
        "c".repeat(63),
        "d".repeat(62)
    );
    assert_eq!(DomainName::parse(&text), Err(DomainNameError::NameTooLong(256)));
}

#[test]
fn empty_labels_are_rejected_wherever_they_stand() {
    for text in [".", "a.", ".a", "a..b", "a.b.", "..", "www..example.com"] {
        assert_eq!(DomainName::parse(text), Err(DomainNameError::EmptyLabel));
    }
}

#[test]
fn first_offending_label_decides() {
    let long = "x".repeat(64);
    assert_eq!(
        DomainName::parse(&format!(".{long}")),
        Err(DomainNameError::EmptyLabel)
    );
    assert_eq!(
        DomainName::parse(&format!("{long}.")),
        Err(DomainNameError::LabelTooLong(64))
    );
    assert_eq!(
        DomainName::parse(&format!("a.{long}..b")),
        Err(DomainNameError::LabelTooLong(64))
    );
    let longer = "y".repeat(80);
    assert_eq!(
        DomainName::parse(&format!("{longer}.{long}")),
        Err(DomainNameError::LabelTooLong(80))
    );
}

#[test]
fn label_errors_come_before_the_size_check() {
    let many = std::iter::repeat("aaaaa").take(60).collect::<Vec<_>>().join(".");
    assert_eq!(
        DomainName::parse(&many),
        Err(DomainNameError::NameTooLong(361))
    );
    assert_eq!(
        DomainName::parse(&format!("{many}.")),
        Err(DomainNameError::EmptyLabel)
    );
    assert_eq!(
        DomainName::parse(&format!("{many}.{}", "b".repeat(64))),
        Err(DomainNameError::LabelTooLong(64))
    );
}

#[test]
fn lengths_are_counted_in_octets() {
    let bytes = encode("\u{e9}.com");
    assert_eq!(bytes, vec![2, 0xc3, 0xa9, 3, b'c', b'o', b'm', 0]);
    // 32 two-octet characters make a label of 64 octets.
    assert_eq!(
        DomainName::parse(&"\u{e9}".repeat(32)),
        Err(DomainNameError::LabelTooLong(64))
    );
    assert_eq!(encode(&"\u{e9}".repeat(31)).len(), 64);
}

#[test]
fn clone_keeps_the_name() {
    let name = DomainName::parse("example.com").unwrap();
    let copy = name.clone();
    assert_eq!(name, copy);
    assert_eq!(name.to_be_bytes(), copy.to_be_bytes());
}

#[test]
fn labels_are_the_pieces_between_dots() {
    for text in [
        "google.com",
        "a.b.c.d.e",
        "b\u{fc}cher.example",
        "\u{65e5}\u{672c}\u{8a9e}.jp",
        "\u{1f600}.\u{e9}.x",
        "m\u{fc}nchen",
    ] {
        let mut want = Vec::new();
        for piece in text.split('.') {
            want.push(piece.len() as u8);
            want.extend_from_slice(piece.as_bytes());
        }
        want.push(0);
        assert_eq!(encode(text), want);
    }
    assert_eq!(
        encode("\u{65e5}\u{672c}.jp"),
        vec![6, 0xe6, 0x97, 0xa5, 0xe6, 0x9c, 0xac, 2, b'j', b'p', 0]
    );
}
