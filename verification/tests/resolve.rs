use druns::DnsError;
use druns::buffer::BytePacketBuffer;
use druns::header::PacketType;
use druns::packet::{Packet, QueryType, Record, ResponseCode};
use druns::resolver::{Transport, create_request_packet, lookup, make_error_reply, prepare_relay,
    resolve};

fn encode(packet: &Packet) -> Vec<u8> {
    let mut buffer = BytePacketBuffer::new_empty();
    packet.write(&mut buffer).unwrap();
    buffer.to_bytes()
}

/// A response that refers the resolver on: no answers, one glue A
/// record in the additional section.
fn referral_reply(glue: [u8; 4]) -> Vec<u8> {
    let mut packet = Packet::new();
    packet.header.qr = PacketType::Response;
    packet.header.addi_c = 1;
    packet.additional = vec![Record::A {
        name: "ns1.example.".to_string(),
        class: 1,
        ttl: 60,
        ip: glue,
    }];
    encode(&packet)
}

/// A response that answers: one A record.
fn answer_reply(ip: [u8; 4]) -> Vec<u8> {
    let mut packet = Packet::new();
    packet.header.qr = PacketType::Response;
    packet.header.ans_c = 1;
    packet.answers = vec![Record::A {
        name: "example.com.".to_string(),
        class: 1,
        ttl: 60,
        ip,
    }];
    encode(&packet)
}

/// A scripted upstream: every call is recorded, and the reply depends
/// only on which server was asked.
struct MockTransport {
    calls: Vec<[u8; 4]>,
    replies: Vec<([u8; 4], Result<Vec<u8>, DnsError>)>,
}

impl Transport for MockTransport {
    fn exchange(&mut self, server: [u8; 4], _query: &Vec<u8>) -> Result<Vec<u8>, DnsError> {
        self.calls.push(server);
        for (addr, reply) in &self.replies {
            if *addr == server {
                return reply.clone();
            }
        }
        Err(DnsError::NetworkError)
    }
}

const ROOT: [u8; 4] = [198, 41, 0, 4];
const CHILD: [u8; 4] = [192, 0, 2, 1];

#[test]
fn test_resolver_happy_path() {
    // the root refers to a glue server, which answers
    let mut mock = MockTransport {
        calls: vec![],
        replies: vec![
            (ROOT, Ok(referral_reply(CHILD))),
            (CHILD, Ok(answer_reply([93, 184, 216, 34]))),
        ],
    };
    let request = create_request_packet("example.com", QueryType::A, 8378);
    let frontier = vec![ROOT];
    let (result, used) = resolve(&mut mock, &frontier, &request, 16);
    let reply = result.unwrap();
    match &reply.answers[0] {
        Record::A { ip, .. } => assert_eq!(*ip, [93, 184, 216, 34]),
        other => panic!("expected an A answer, got {:?}", other),
    }
    assert_eq!(mock.calls, vec![ROOT, CHILD]);
    assert_eq!(used, 2);
}

#[test]
fn test_resolver_tries_next_server_on_error() {
    // the first server fails; the second answers
    let dead: [u8; 4] = [203, 0, 113, 9];
    let mut mock = MockTransport {
        calls: vec![],
        replies: vec![(CHILD, Ok(answer_reply([93, 184, 216, 34])))],
    };
    let request = create_request_packet("example.com", QueryType::A, 1);
    let frontier = vec![dead, CHILD];
    let (result, used) = resolve(&mut mock, &frontier, &request, 16);
    assert!(result.is_ok());
    assert_eq!(mock.calls, vec![dead, CHILD]);
    assert_eq!(used, 2);
}

#[test]
fn test_resolver_exhausts_frontier() {
    let mut mock = MockTransport { calls: vec![], replies: vec![] };
    let request = create_request_packet("example.com", QueryType::A, 2);
    let frontier = vec![ROOT];
    let (result, used) = resolve(&mut mock, &frontier, &request, 16);
    assert_eq!(result.err(), Some(DnsError::NoServersRemaining));
    assert_eq!(used, 1);
}

#[test]
fn test_resolver_budget_bounds_lookups() {
    // a referral loop: every server points at itself as glue
    let mut mock = MockTransport {
        calls: vec![],
        replies: vec![(ROOT, Ok(referral_reply(ROOT)))],
    };
    let request = create_request_packet("example.com", QueryType::A, 3);
    let frontier = vec![ROOT];
    let (result, used) = resolve(&mut mock, &frontier, &request, 5);
    assert_eq!(result.err(), Some(DnsError::NoServersRemaining));
    assert_eq!(used, 5);
    assert_eq!(mock.calls.len(), 5);
}

#[test]
fn test_resolver_treats_error_rcode_as_miss() {
    // a reply with answers but a failure code does not count as success
    let mut nx = Packet::new();
    nx.header.qr = PacketType::Response;
    nx.header.rcode = ResponseCode::nx_domain;
    nx.header.ans_c = 1;
    nx.answers = vec![Record::A {
        name: "example.com.".to_string(),
        class: 1,
        ttl: 60,
        ip: [9, 9, 9, 9],
    }];
    let mut mock = MockTransport {
        calls: vec![],
        replies: vec![(ROOT, Ok(encode(&nx)))],
    };
    let request = create_request_packet("example.com", QueryType::A, 4);
    let frontier = vec![ROOT];
    let (result, used) = resolve(&mut mock, &frontier, &request, 16);
    assert_eq!(result.err(), Some(DnsError::NoServersRemaining));
    assert_eq!(used, 1);
}

#[test]
fn test_resolver_empty_frontier_fails_at_once() {
    let mut mock = MockTransport { calls: vec![], replies: vec![] };
    let request = create_request_packet("example.com", QueryType::A, 7);
    let frontier: Vec<[u8; 4]> = vec![];
    let (result, used) = resolve(&mut mock, &frontier, &request, 16);
    assert_eq!(result.err(), Some(DnsError::NoServersRemaining));
    assert_eq!(used, 0);
    assert!(mock.calls.is_empty());
}

#[test]
fn test_resolver_zero_budget_fails_at_once() {
    let mut mock = MockTransport {
        calls: vec![],
        replies: vec![(ROOT, Ok(answer_reply([1, 1, 1, 1])))],
    };
    let request = create_request_packet("example.com", QueryType::A, 8);
    let frontier = vec![ROOT];
    let (result, used) = resolve(&mut mock, &frontier, &request, 0);
    assert_eq!(result.err(), Some(DnsError::NoServersRemaining));
    assert_eq!(used, 0);
    assert!(mock.calls.is_empty());
}

#[test]
fn test_lookup_refuses_bad_request_before_sending() {
    // a question whose label cannot be encoded fails in the encoder,
    // and the transport never hears of it
    let mut mock = MockTransport { calls: vec![], replies: vec![] };
    let long_label = "a".repeat(64);
    let request = create_request_packet(&long_label, QueryType::A, 9);
    assert_eq!(
        lookup(&mut mock, ROOT, &request).err(),
        Some(DnsError::MalformedName)
    );
    assert!(mock.calls.is_empty());
}

#[test]
fn test_lookup_decodes_reply() {
    let mut mock = MockTransport {
        calls: vec![],
        replies: vec![(ROOT, Ok(answer_reply([1, 1, 1, 1])))],
    };
    let request = create_request_packet("example.com", QueryType::A, 5);
    let reply = lookup(&mut mock, ROOT, &request).unwrap();
    assert_eq!(reply.header.ans_c, 1);
    assert_eq!(reply.answers.len(), 1);
}

#[test]
fn test_lookup_reports_network_failure() {
    let mut mock = MockTransport { calls: vec![], replies: vec![] };
    let request = create_request_packet("example.com", QueryType::A, 6);
    assert_eq!(
        lookup(&mut mock, ROOT, &request).err(),
        Some(DnsError::NetworkError)
    );
}

#[test]
fn test_create_request_packet_shape() {
    let request = create_request_packet("example.com", QueryType::A, 8378);
    assert_eq!(request.header.id, 8378);
    assert_eq!(request.header.qr, PacketType::Query);
    assert!(request.header.recursion_desired);
    assert_eq!(request.header.ques_c, 1);
    assert_eq!(request.header.ans_c, 0);
    assert_eq!(request.questions.len(), 1);
    assert_eq!(request.questions[0].name, "example.com");
    assert_eq!(request.questions[0].qtype, QueryType::A);
    assert_eq!(request.questions[0].class, 1);
    assert!(request.answers.is_empty());
}

#[test]
fn test_prepare_relay_sanitises_reply() {
    let mut packet = Packet::new();
    packet.header.id = 7;
    packet.header.ans_c = 1;
    packet.header.addi_c = 1;
    packet.answers = vec![Record::A {
        name: "example.com.".to_string(),
        class: 1,
        ttl: 60,
        ip: [1, 2, 3, 4],
    }];
    packet.additional = vec![Record::A {
        name: "ns1.example.".to_string(),
        class: 1,
        ttl: 60,
        ip: [5, 6, 7, 8],
    }];
    prepare_relay(&mut packet, 0x1a2b);
    assert_eq!(packet.header.id, 0x1a2b);
    assert_eq!(packet.header.qr, PacketType::Response);
    assert!(packet.additional.is_empty());
    assert_eq!(packet.header.addi_c, 0);
    assert_eq!(packet.header.ans_c, 1);
    assert_eq!(packet.answers.len(), 1);
}

#[test]
fn test_make_error_reply_shape() {
    let reply = make_error_reply(0x1a2b, ResponseCode::serv_fail);
    assert_eq!(reply.header.id, 0x1a2b);
    assert_eq!(reply.header.qr, PacketType::Response);
    assert_eq!(reply.header.rcode, ResponseCode::serv_fail);
    assert_eq!(reply.header.ques_c, 0);
    assert_eq!(reply.header.ans_c, 0);
    assert!(reply.questions.is_empty());
    assert!(reply.answers.is_empty());
    assert!(reply.authority.is_empty());
    assert!(reply.additional.is_empty());
}
