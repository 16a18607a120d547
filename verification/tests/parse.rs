use druns::buffer::BytePacketBuffer;
use druns::packet::{Packet, PacketType, QueryType, Record, ResponseCode};

/// A plain A query for `google.com`, as a client would send it.
fn google_request_bytes() -> Vec<u8> {
    let mut v = vec![
        0x1a, 0x2b, // id
        0x01, 0x20, // flags: query, recursion desired, one reserved bit
        0x00, 0x01, // one question
        0x00, 0x00, 0x00, 0x00, 0x00, 0x00, // no records
    ];
    v.extend_from_slice(&[6]);
    v.extend_from_slice(b"google");
    v.extend_from_slice(&[3]);
    v.extend_from_slice(b"com");
    v.extend_from_slice(&[0, 0x00, 0x01, 0x00, 0x01]); // terminator, A, IN
    v
}

/// The matching response: one A answer for `www.google.com`, the name
/// written out in full, 62 bytes in all.
fn google_response_bytes() -> Vec<u8> {
    let mut v = vec![
        0x1a, 0x2b, // id
        0x81, 0x80, // flags: response, rd, ra, no error
        0x00, 0x01, // one question
        0x00, 0x01, // one answer
        0x00, 0x00, 0x00, 0x00, // nothing else
    ];
    let name: &[u8] = &[
        3, b'w', b'w', b'w', 6, b'g', b'o', b'o', b'g', b'l', b'e', 3, b'c', b'o', b'm', 0,
    ];
    v.extend_from_slice(name);
    v.extend_from_slice(&[0x00, 0x01, 0x00, 0x01]); // question: A, IN
    v.extend_from_slice(name);
    v.extend_from_slice(&[0x00, 0x01, 0x00, 0x01]); // answer: A, IN
    v.extend_from_slice(&[0x00, 0x00, 0x01, 0x2c]); // ttl 300
    v.extend_from_slice(&[0x00, 0x04, 142, 250, 72, 36]); // rdlength, address
    v
}

/// A plain A query for `www.netflix.com`.
fn netflix_request_bytes() -> Vec<u8> {
    let mut v = vec![
        0xbe, 0xef, 0x01, 0x20, 0x00, 0x01, 0x00, 0x00, 0x00, 0x00, 0x00, 0x00,
    ];
    v.extend_from_slice(&[3]);
    v.extend_from_slice(b"www");
    v.extend_from_slice(&[7]);
    v.extend_from_slice(b"netflix");
    v.extend_from_slice(&[3]);
    v.extend_from_slice(b"com");
    v.extend_from_slice(&[0, 0x00, 0x01, 0x00, 0x01]);
    v
}

/// The matching response: a CNAME to `www.dradis.netflix.com` and an A
/// answer for it, both names leaning on compression pointers.
fn netflix_response_bytes() -> Vec<u8> {
    let mut v = vec![
        0xbe, 0xef, 0x81, 0x80, 0x00, 0x01, 0x00, 0x02, 0x00, 0x00, 0x00, 0x00,
    ];
    // question at offset 12: www(12) netflix(16) com(24)
    v.extend_from_slice(&[3]);
    v.extend_from_slice(b"www");
    v.extend_from_slice(&[7]);
    v.extend_from_slice(b"netflix");
    v.extend_from_slice(&[3]);
    v.extend_from_slice(b"com");
    v.extend_from_slice(&[0, 0x00, 0x01, 0x00, 0x01]);
    // first answer at 33: name points back to the question name
    v.extend_from_slice(&[0xc0, 0x0c, 0x00, 0x05, 0x00, 0x01]); // CNAME, IN
    v.extend_from_slice(&[0x00, 0x00, 0x01, 0x2c, 0x00, 0x0d]); // ttl, rdlength
    // rdata at 45: www.dradis. then a pointer to netflix.com at 16
    v.extend_from_slice(&[3]);
    v.extend_from_slice(b"www");
    v.extend_from_slice(&[6]);
    v.extend_from_slice(b"dradis");
    v.extend_from_slice(&[0xc0, 0x10]);
    // second answer at 58: name points to the cname target at 45
    v.extend_from_slice(&[0xc0, 0x2d, 0x00, 0x01, 0x00, 0x01]); // A, IN
    v.extend_from_slice(&[0x00, 0x00, 0x00, 0x3c, 0x00, 0x04]); // ttl, rdlength
    v.extend_from_slice(&[54, 155, 246, 232]);
    v
}

fn buffer_from(bytes: &[u8]) -> BytePacketBuffer {
    let mut buffer = BytePacketBuffer::new_empty();
    buffer.load_bytes(bytes).unwrap();
    buffer
}

fn check_counts(packet: &Packet) {
    assert_eq!(packet.header.ques_c, packet.questions.len() as u16);
    assert_eq!(packet.header.ans_c, packet.answers.len() as u16);
    assert_eq!(packet.header.auth_c, packet.authority.len() as u16);
    assert_eq!(packet.header.addi_c, packet.additional.len() as u16);
}

#[test]
fn test_parse_response_google() {
    let mut buffer = buffer_from(&google_response_bytes());
    let mut packet = Packet::new();
    packet.read(&mut buffer).unwrap();
    assert_eq!(packet.header.ques_c, 1);
    assert_eq!(packet.header.ans_c, 1);
    assert_eq!(packet.header.rcode, ResponseCode::no_error);
    assert_eq!(packet.header.qr, PacketType::Response);
    println!("{:#?}", packet);
    let answer_name = match &packet.answers[0] {
        Record::A { name, .. } => name.clone(),
        other => panic!("expected an A answer, got {:?}", other),
    };
    assert_eq!(packet.questions[0].name, answer_name);
    check_counts(&packet);
}

#[test]
fn test_parse_request_google() {
    let mut buffer = buffer_from(&google_request_bytes());
    let mut packet = Packet::new();
    packet.read(&mut buffer).unwrap();
    assert_eq!(packet.header.ques_c, 1);
    assert_eq!(packet.header.ans_c, 0);
    assert_eq!(packet.header.rcode, ResponseCode::no_error);
    assert_eq!(packet.header.qr, PacketType::Query);
    check_counts(&packet);
}

#[test]
fn test_parse_request_netflix() {
    let mut buffer = buffer_from(&netflix_request_bytes());
    let mut packet = Packet::new();
    packet.read(&mut buffer).unwrap();
    assert_eq!(packet.header.ques_c, 1);
    assert_eq!(packet.header.ans_c, 0);
    assert_eq!(packet.header.rcode, ResponseCode::no_error);
    assert_eq!(packet.header.qr, PacketType::Query);
    check_counts(&packet);
}

#[test]
fn test_parse_response_netflix() {
    let mut buffer = buffer_from(&netflix_response_bytes());
    let mut packet = Packet::new();
    packet.read(&mut buffer).unwrap();
    assert_eq!(packet.header.ques_c, 1);
    assert_ne!(packet.header.ans_c, 0);
    assert_eq!(packet.header.rcode, ResponseCode::no_error);
    assert_eq!(packet.header.qr, PacketType::Response);
    check_counts(&packet);
}

#[test]
fn test_parse_response_netflix_compressed_names() {
    let mut buffer = buffer_from(&netflix_response_bytes());
    let mut packet = Packet::new();
    packet.read(&mut buffer).unwrap();
    assert_eq!(packet.questions[0].name, "www.netflix.com.");
    // every CNAME host is a non-empty dotted name
    for record in &packet.answers {
        if let Record::CNAME { host, .. } = record {
            assert!(!host.is_empty());
            assert!(host.contains('.'));
            assert_eq!(host, "www.dradis.netflix.com.");
        }
    }
    match &packet.answers[1] {
        Record::A { name, ip, .. } => {
            assert_eq!(name, "www.dradis.netflix.com.");
            assert_eq!(*ip, [54, 155, 246, 232]);
        },
        other => panic!("expected an A answer, got {:?}", other),
    }
}

#[test]
fn test_parse_rejects_long_label() {
    // a label length of 80 has the reserved top bits 01
    let mut bytes = vec![
        0x00, 0x01, 0x01, 0x20, 0x00, 0x01, 0x00, 0x00, 0x00, 0x00, 0x00, 0x00,
    ];
    bytes.push(80);
    for _ in 0..80 {
        bytes.push(b'a');
    }
    bytes.extend_from_slice(&[0, 0x00, 0x01, 0x00, 0x01]);
    let mut buffer = buffer_from(&bytes);
    let mut packet = Packet::new();
    assert_eq!(packet.read(&mut buffer), Err(druns::DnsError::MalformedName));
}

#[test]
fn test_parse_rejects_forward_pointer() {
    let bytes = vec![
        0x00, 0x01, 0x01, 0x20, 0x00, 0x01, 0x00, 0x00, 0x00, 0x00, 0x00, 0x00, //
        0xc0, 0x20, 0x00, 0x01, 0x00, 0x01,
    ];
    let mut buffer = buffer_from(&bytes);
    let mut packet = Packet::new();
    assert_eq!(packet.read(&mut buffer), Err(druns::DnsError::MalformedName));
}

#[test]
fn test_parse_rejects_self_pointer() {
    // a pointer whose target is its own offset would loop forever
    let bytes = vec![
        0x00, 0x01, 0x01, 0x20, 0x00, 0x01, 0x00, 0x00, 0x00, 0x00, 0x00, 0x00, //
        0xc0, 0x0c, 0x00, 0x01, 0x00, 0x01,
    ];
    let mut buffer = buffer_from(&bytes);
    let mut packet = Packet::new();
    assert_eq!(packet.read(&mut buffer), Err(druns::DnsError::MalformedName));
}

#[test]
fn test_parse_rejects_truncated_message() {
    // the header declares a question but the datagram ends with it
    let bytes = vec![
        0x00, 0x01, 0x01, 0x20, 0x00, 0x01, 0x00, 0x00, 0x00, 0x00, 0x00, 0x00,
    ];
    let mut buffer = buffer_from(&bytes);
    let mut packet = Packet::new();
    assert_eq!(packet.read(&mut buffer), Err(druns::DnsError::UnexpectedEof));
}

#[test]
fn test_parse_rejects_bad_rcode() {
    // flag word with response code 7
    let bytes = vec![
        0x00, 0x01, 0x81, 0x87, 0x00, 0x00, 0x00, 0x00, 0x00, 0x00, 0x00, 0x00,
    ];
    let mut buffer = buffer_from(&bytes);
    let mut packet = Packet::new();
    assert_eq!(
        packet.read(&mut buffer),
        Err(druns::DnsError::MalformedHeader)
    );
}

#[test]
fn test_query_type_codes() {
    assert_eq!(QueryType::from_num(1), QueryType::A);
    assert_eq!(QueryType::from_num(2), QueryType::NS);
    assert_eq!(QueryType::from_num(5), QueryType::CNAME);
    assert_eq!(QueryType::from_num(15), QueryType::MX);
    assert_eq!(QueryType::from_num(28), QueryType::AAAA);
    assert_eq!(QueryType::from_num(99), QueryType::UNKNOWN(99));
    assert_eq!(QueryType::A.to_num(), 1);
    assert_eq!(QueryType::UNKNOWN(99).to_num(), 99);
}
