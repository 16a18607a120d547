use druns::DnsError;
use druns::buffer::BytePacketBuffer;
use druns::packet::{Packet, PacketType, Question, QueryType, Record, ResponseCode};
use druns::header::Header;

/// The same query fixture the parse tests use.
fn google_request_bytes() -> Vec<u8> {
    let mut v = vec![
        0x1a, 0x2b, 0x01, 0x20, 0x00, 0x01, 0x00, 0x00, 0x00, 0x00, 0x00, 0x00,
    ];
    v.extend_from_slice(&[6]);
    v.extend_from_slice(b"google");
    v.extend_from_slice(&[3]);
    v.extend_from_slice(b"com");
    v.extend_from_slice(&[0, 0x00, 0x01, 0x00, 0x01]);
    v
}

/// The same response fixture the parse tests use.
fn google_response_bytes() -> Vec<u8> {
    let mut v = vec![
        0x1a, 0x2b, 0x81, 0x80, 0x00, 0x01, 0x00, 0x01, 0x00, 0x00, 0x00, 0x00,
    ];
    let name: &[u8] = &[
        3, b'w', b'w', b'w', 6, b'g', b'o', b'o', b'g', b'l', b'e', 3, b'c', b'o', b'm', 0,
    ];
    v.extend_from_slice(name);
    v.extend_from_slice(&[0x00, 0x01, 0x00, 0x01]);
    v.extend_from_slice(name);
    v.extend_from_slice(&[0x00, 0x01, 0x00, 0x01]);
    v.extend_from_slice(&[0x00, 0x00, 0x01, 0x2c]);
    v.extend_from_slice(&[0x00, 0x04, 142, 250, 72, 36]);
    v
}

fn buffer_from(bytes: &[u8]) -> BytePacketBuffer {
    let mut buffer = BytePacketBuffer::new_empty();
    buffer.load_bytes(bytes).unwrap();
    buffer
}

#[test]
fn test_write_string1() -> Result<(), DnsError> {
    // start of buffer
    let mut buffer = BytePacketBuffer::new_empty();
    buffer.write_string("hello")?;
    assert_eq!(buffer.read_string_from(5, 0).unwrap(), "hello");
    Ok(())
}

#[test]
fn test_write_string2() -> Result<(), DnsError> {
    // somewhere middle of buffer
    let mut buffer = BytePacketBuffer::new_empty();
    buffer.write_u32(123)?;
    buffer.write_u32(1223)?;
    buffer.write_u32(12123)?;
    buffer.write_u32(12333)?;
    let pos = (4 * 32) / 8;
    buffer.write_string("hello_world")?;
    assert_eq!(buffer.read_string_from(11, pos).unwrap(), "hello_world");
    Ok(())
}

#[test]
fn test_read_and_write1() -> Result<(), DnsError> {
    let mut buffer = buffer_from(&google_request_bytes());
    let mut packet = Packet::new();
    packet.read(&mut buffer).unwrap();

    let mut secondary_buffer = BytePacketBuffer::new_empty();
    packet.write(&mut secondary_buffer).unwrap();

    let mut new_packet = Packet::new();
    new_packet.read(&mut secondary_buffer).unwrap();
    assert_eq!(packet.header, new_packet.header);

    Ok(())
}

#[test]
fn test_read_and_write2() -> Result<(), DnsError> {
    let mut buffer = buffer_from(&google_response_bytes());
    let mut packet = Packet::new();
    packet.read(&mut buffer).unwrap();

    let mut secondary_buffer = BytePacketBuffer::new_empty();
    packet.write(&mut secondary_buffer).unwrap();

    let mut new_packet = Packet::new();
    new_packet.read(&mut secondary_buffer).unwrap();
    assert_eq!(packet.header, new_packet.header);

    Ok(())
}

#[test]
fn test_u16_roundtrip_at_position() {
    let mut buffer = BytePacketBuffer::new_empty();
    buffer.write_u8(0xab).unwrap();
    buffer.write_u16(0xbeef).unwrap();
    assert_eq!(buffer.read_u16_from(1).unwrap(), 0xbeef);
    assert_eq!(buffer.read_u8_from(0).unwrap(), 0xab);
}

#[test]
fn test_u32_roundtrip_at_position() {
    let mut buffer = BytePacketBuffer::new_empty();
    buffer.write_u32(0xdeadbeef).unwrap();
    buffer.reset_for_read();
    assert_eq!(buffer.read_u32().unwrap(), 0xdeadbeef);
    assert_eq!(buffer.read_u16_from(0).unwrap(), 0xdead);
    assert_eq!(buffer.read_u16_from(2).unwrap(), 0xbeef);
}

#[test]
fn test_set_u16_back_patches() {
    let mut buffer = BytePacketBuffer::new_empty();
    buffer.write_u16(0).unwrap();
    buffer.write_u16(0x1111).unwrap();
    buffer.set_u16(0x0203, 0).unwrap();
    assert_eq!(buffer.read_u16_from(0).unwrap(), 0x0203);
    assert_eq!(buffer.read_u16_from(2).unwrap(), 0x1111);
}

#[test]
fn test_write_past_window_overflows() {
    let mut buffer = BytePacketBuffer::new_empty();
    for _ in 0..128 {
        buffer.write_u32(7).unwrap();
    }
    assert_eq!(buffer.bytes_written(), 512);
    assert_eq!(buffer.write_u8(1), Err(DnsError::Overflow));
    assert_eq!(buffer.write_u32(1), Err(DnsError::Overflow));
    assert_eq!(buffer.set_u16(1, 511), Err(DnsError::Overflow));
    assert_eq!(buffer.read_u16_from(511), Err(DnsError::Overflow));
}

#[test]
fn test_write_qname_roundtrip() {
    let mut buffer = BytePacketBuffer::new_empty();
    buffer.write_qname("www.example.com.").unwrap();
    assert_eq!(buffer.bytes_written(), 17);
    buffer.reset_for_read();
    assert_eq!(buffer.read_qname().unwrap(), "www.example.com.");
}

#[test]
fn test_write_qname_without_trailing_dot() {
    // the terminating zero is re-introduced either way
    let mut buffer = BytePacketBuffer::new_empty();
    buffer.write_qname("example.com").unwrap();
    buffer.reset_for_read();
    assert_eq!(buffer.read_qname().unwrap(), "example.com.");
}

#[test]
fn test_write_qname_empty_writes_root() {
    let mut buffer = BytePacketBuffer::new_empty();
    buffer.write_qname("").unwrap();
    assert_eq!(buffer.bytes_written(), 1);
    assert_eq!(buffer.read_u8_from(0).unwrap(), 0);
    buffer.reset_for_read();
    assert_eq!(buffer.read_qname().unwrap(), "");
}

#[test]
fn test_write_qname_rejects_long_label() {
    let mut buffer = BytePacketBuffer::new_empty();
    let long = "a".repeat(64);
    assert_eq!(
        buffer.write_qname(&long),
        Err(DnsError::MalformedName)
    );
    assert_eq!(buffer.bytes_written(), 0);
}

#[test]
fn test_read_string_rejects_non_utf8() {
    let mut buffer = BytePacketBuffer::new_empty();
    buffer.write_u8(0xff).unwrap();
    assert_eq!(buffer.read_string_from(1, 0), Err(DnsError::MalformedName));
}

#[test]
fn test_write_string_keeps_multibyte_text() {
    // a two-byte character counts two buffer bytes and survives the trip
    let mut buffer = BytePacketBuffer::new_empty();
    buffer.write_string("h\u{e9}llo").unwrap();
    assert_eq!(buffer.bytes_written(), 6);
    assert_eq!(buffer.read_string_from(6, 0).unwrap(), "h\u{e9}llo");
}

#[test]
fn test_read_qname_rejects_name_over_255_bytes() {
    // five labels of 63 bytes decode to 320 bytes of dotted text
    let mut buffer = BytePacketBuffer::new_empty();
    let label = "b".repeat(63);
    let long_name = vec![label.clone(), label.clone(), label.clone(), label.clone(), label]
        .join(".");
    buffer.write_qname(&long_name).unwrap();
    buffer.reset_for_read();
    assert_eq!(buffer.read_qname(), Err(DnsError::MalformedName));
}

#[test]
fn test_header_flag_word_roundtrip() {
    // every field set to a distinctive value survives the bit layout
    let header = Header {
        id: 0x4d2,
        qr: PacketType::Response,
        opcode: 11,
        authoritative: true,
        is_truncated: false,
        recursion_desired: true,
        recursion_available: false,
        reserved: 5,
        rcode: ResponseCode::nx_domain,
        ques_c: 1,
        ans_c: 2,
        auth_c: 3,
        addi_c: 4,
    };
    let mut buffer = BytePacketBuffer::new_empty();
    header.write(&mut buffer).unwrap();
    buffer.reset_for_read();
    let mut back = Header::new();
    back.read_header(&mut buffer).unwrap();
    assert_eq!(header, back);
}

#[test]
fn test_record_roundtrips() {
    let records = vec![
        Record::A {
            name: "a.example.".to_string(),
            class: 1,
            ttl: 60,
            ip: [1, 2, 3, 4],
        },
        Record::NS {
            name: "example.".to_string(),
            class: 1,
            ttl: 120,
            host: "ns1.example.".to_string(),
        },
        Record::CNAME {
            name: "alias.example.".to_string(),
            class: 1,
            host: "real.example.".to_string(),
            ttl: 180,
        },
        Record::MX {
            name: "example.".to_string(),
            class: 1,
            priority: 10,
            host: "mail.example.".to_string(),
            ttl: 240,
        },
        Record::AAAA {
            name: "six.example.".to_string(),
            class: 1,
            ttl: 300,
            ip: [0x2001, 0xdb8, 0, 0, 0, 0, 0, 0x1],
        },
    ];
    let mut packet = Packet::new();
    packet.header.qr = PacketType::Response;
    packet.header.ans_c = records.len() as u16;
    packet.answers = records.clone();

    let mut buffer = BytePacketBuffer::new_empty();
    packet.write(&mut buffer).unwrap();
    let mut back = Packet::new();
    back.read(&mut buffer).unwrap();
    assert_eq!(back.answers, records);
    assert_eq!(back.header, packet.header);
    assert_eq!(back.questions.len(), 0);
}

#[test]
fn test_question_roundtrip() {
    let mut packet = Packet::new();
    packet.header.ques_c = 1;
    packet.questions = vec![Question {
        name: "mail.example.org.".to_string(),
        qtype: QueryType::MX,
        class: 1,
    }];
    let mut buffer = BytePacketBuffer::new_empty();
    packet.write(&mut buffer).unwrap();
    let mut back = Packet::new();
    back.read(&mut buffer).unwrap();
    assert_eq!(back.questions[0].name, "mail.example.org.");
    assert_eq!(back.questions[0].qtype, QueryType::MX);
    assert_eq!(back.questions[0].class, 1);
}

#[test]
fn test_unknown_record_write_refused() {
    // the rdata was skipped on read, so it cannot be re-emitted
    let mut packet = Packet::new();
    packet.header.ans_c = 1;
    packet.answers = vec![Record::UNKNOWN {
        name: "example.".to_string(),
        rtype: 41,
        class: 1,
        ttl: 0,
        length: 5,
    }];
    let mut buffer = BytePacketBuffer::new_empty();
    assert_eq!(packet.write(&mut buffer), Err(DnsError::UnexpectedEof));
}

#[test]
fn test_unknown_record_zero_length_roundtrips() {
    let record = Record::UNKNOWN {
        name: "example.".to_string(),
        rtype: 41,
        class: 1,
        ttl: 0,
        length: 0,
    };
    let mut packet = Packet::new();
    packet.header.ans_c = 1;
    packet.answers = vec![record.clone()];
    let mut buffer = BytePacketBuffer::new_empty();
    packet.write(&mut buffer).unwrap();
    let mut back = Packet::new();
    back.read(&mut buffer).unwrap();
    assert_eq!(back.answers, vec![record]);
}

#[test]
fn test_mx_rdlength_is_back_patched() {
    // name(9) type class ttl -> length slot at offset 17
    let mut packet = Packet::new();
    packet.header.ans_c = 1;
    packet.answers = vec![Record::MX {
        name: "example.".to_string(),
        class: 1,
        priority: 10,
        host: "mail.example.".to_string(),
        ttl: 240,
    }];
    let mut buffer = BytePacketBuffer::new_empty();
    packet.write(&mut buffer).unwrap();
    // rdata: two priority bytes plus the 14-byte encoded host
    assert_eq!(buffer.read_u16_from(12 + 9 + 8).unwrap(), 16);
}
