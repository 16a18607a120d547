//! The iterative resolver: from a frontier of candidate name servers,
//! send the question, and follow answers or glue referrals until an
//! answer or a terminal failure.

use vstd::prelude::*;

use crate::DnsError;
use crate::buffer::BytePacketBuffer;
use crate::header::{Header, PacketType, ResponseCode};
use crate::packet::{Packet, Question, QueryType, QuestionV, Record};
use vstd::string::StringExecFns;
use vstd::utf8::encode_utf8;

verus! {

/// A datagram exchange with one upstream name server: send `query` to
/// `server` on the name-server port, return the reply datagram.
/// Nothing is assumed of an implementation; the resolver is verified
/// for every reply a transport may hand back, and a failure counts as
/// a per-server error.
pub trait Transport {
    fn exchange(&mut self, server: [u8; 4], query: &Vec<u8>) -> Result<Vec<u8>, DnsError>;
}

/// A fresh request for one question: the caller-supplied id, a query
/// with recursion desired, one question of the given name and type
/// with the internet class, and nothing else.
pub fn create_request_packet(qname: &str, qtype: QueryType, id: u16) -> (r: Packet)
    ensures
        r@.header == (Header {
            id,
            qr: PacketType::Query,
            opcode: 0,
            authoritative: false,
            is_truncated: false,
            recursion_desired: true,
            recursion_available: false,
            reserved: 0,
            rcode: ResponseCode::no_error,
            ques_c: 1,
            ans_c: 0,
            auth_c: 0,
            addi_c: 0,
        }),
        r@.questions.len() == 1,
        r@.questions[0] == (QuestionV { name: encode_utf8(qname@), qtype, class: 1u16 }),
        r@.answers.len() == 0,
        r@.authority.len() == 0,
        r@.additional.len() == 0,
        r.header.wf(),
{
    let mut packet = Packet::new();
    packet.header = Header {
        id,
        qr: PacketType::Query,
        opcode: 0,
        authoritative: false,
        is_truncated: false,
        recursion_desired: true,
        recursion_available: false,
        reserved: 0,
        rcode: ResponseCode::no_error,
        ques_c: 1,
        ans_c: 0,
        auth_c: 0,
        addi_c: 0,
    };
    let mut questions: Vec<Question> = Vec::new();
    questions.push(
        Question { name: String::from_str(qname), qtype, class: 1 },
    );
    packet.questions = questions;
    proof {
        assert(crate::packet::question_views(packet.questions@) =~= seq![
            QuestionV { name: encode_utf8(qname@), qtype, class: 1u16 },
        ]);
    }
    packet
}

/// A reply that carries only a response code: the client's id, the
/// code, and empty sections.
pub fn make_error_reply(id: u16, rcode: ResponseCode) -> (r: Packet)
    ensures
        r@.header == (Header {
            id,
            qr: PacketType::Response,
            opcode: 0,
            authoritative: false,
            is_truncated: false,
            recursion_desired: false,
            recursion_available: false,
            reserved: 0,
            rcode,
            ques_c: 0,
            ans_c: 0,
            auth_c: 0,
            addi_c: 0,
        }),
        r@.questions.len() == 0,
        r@.answers.len() == 0,
        r@.authority.len() == 0,
        r@.additional.len() == 0,
        r.header.wf(),
{
    let mut packet = Packet::new();
    packet.header = Header {
        id,
        qr: PacketType::Response,
        opcode: 0,
        authoritative: false,
        is_truncated: false,
        recursion_desired: false,
        recursion_available: false,
        reserved: 0,
        rcode,
        ques_c: 0,
        ans_c: 0,
        auth_c: 0,
        addi_c: 0,
    };
    packet
}

/// Makes a resolved reply fit for the original client: its id is
/// restored, the message marked a response, and the additional section
/// cleared with its count, so no referral glue leaks out. Everything
/// else stays.
pub fn prepare_relay(packet: &mut Packet, client_id: u16)
    ensures
        final(packet).header == (Header {
            id: client_id,
            qr: PacketType::Response,
            addi_c: 0,
            ..old(packet).header
        }),
        final(packet).questions@ == old(packet).questions@,
        final(packet).answers@ == old(packet).answers@,
        final(packet).authority@ == old(packet).authority@,
        final(packet).additional@.len() == 0,
        old(packet).header.wf() ==> final(packet).header.wf(),
{
    packet.header.id = client_id;
    packet.header.qr = PacketType::Response;
    packet.additional.clear();
    packet.header.addi_c = 0;
}

/// One upstream query: encode the request into a fresh window, hand
/// the datagram to the transport, and decode whatever came back. A
/// request the codec cannot encode fails with the codec's error
/// before any datagram goes out; a transport failure is reported as
/// `NetworkError`; an over-long reply as `Overflow`; a reply the
/// codec rejects, by its own error. A returned packet's section
/// lengths equal its header counts.
pub fn lookup<T: Transport>(transport: &mut T, server: [u8; 4], request: &Packet) -> (r: Result<
    Packet,
    DnsError,
>)
    requires
        request.header.wf(),
    ensures
        r is Ok ==> {
            let p = r->Ok_0;
            &&& p.header.wf()
            &&& p.questions@.len() == p.header.ques_c as int
            &&& p.answers@.len() == p.header.ans_c as int
            &&& p.authority@.len() == p.header.auth_c as int
            &&& p.additional@.len() == p.header.addi_c as int
        },
        !(crate::packet::packet_names_ok(request@) && crate::packet::packet_writable(request@)
            && crate::packet::enc_packet(request@).len() <= 512) ==> {
            ||| r == Err::<Packet, DnsError>(DnsError::MalformedName)
            ||| r == Err::<Packet, DnsError>(DnsError::Overflow)
            ||| r == Err::<Packet, DnsError>(DnsError::UnexpectedEof)
        },
{
    let mut req_buffer = BytePacketBuffer::new_empty();
    match request.write(&mut req_buffer) {
        Ok(_) => {},
        Err(e) => {
            return Err(e);
        },
    }
    let query = req_buffer.to_bytes();
    let reply = match transport.exchange(server, &query) {
        Ok(v) => v,
        Err(_) => {
            return Err(DnsError::NetworkError);
        },
    };
    let mut response_buf = BytePacketBuffer::new_empty();
    match response_buf.load_bytes(reply.as_slice()) {
        Ok(_) => {},
        Err(e) => {
            return Err(e);
        },
    }
    let mut response_packet = Packet::new();
    match response_packet.read(&mut response_buf) {
        Ok(_) => {},
        Err(e) => {
            return Err(e);
        },
    }
    Ok(response_packet)
}

/// The addresses of the A records among the first `k` records, in
/// order: the glue a referral hands the next step of the walk.
pub open spec fn glue_of(rs: Seq<crate::packet::RecordV>, k: int) -> Seq<Seq<u8>>
    decreases k,
{
    if k <= 0 {
        Seq::empty()
    } else {
        glue_of(rs, k - 1) + (match rs[k - 1] {
            crate::packet::RecordV::A { ip, .. } => seq![ip],
            _ => Seq::<Seq<u8>>::empty(),
        })
    }
}

/// The glue of a reply: the IPv4 address of every A record in its
/// additional section, in order.
fn glue_addresses(additional: &Vec<Record>) -> (r: Vec<[u8; 4]>)
    ensures
        r@.map_values(|a: [u8; 4]| a@) == glue_of(
            crate::packet::record_views(additional@),
            additional@.len() as int,
        ),
{
    let ghost views = crate::packet::record_views(additional@);
    let mut glue: Vec<[u8; 4]> = Vec::new();
    let mut i: usize = 0;
    while i < additional.len()
        invariant
            i <= additional@.len(),
            views == crate::packet::record_views(additional@),
            views.len() == additional@.len(),
            glue@.map_values(|a: [u8; 4]| a@) == glue_of(views, i as int),
        decreases additional.len() - i,
    {
        proof {
            assert(additional@[i as int]@ == views[i as int]);
        }
        let ghost before = glue@;
        match &additional[i] {
            Record::A { ip, .. } => {
                glue.push(*ip);
                proof {
                    assert(glue@.map_values(|a: [u8; 4]| a@) =~= before.map_values(
                        |a: [u8; 4]| a@,
                    ) + seq![glue@.last()@]);
                }
            },
            _ => {},
        }
        i = i + 1;
        proof {
            assert(glue@.map_values(|a: [u8; 4]| a@) =~= glue_of(views, i as int));
        }
    }
    glue
}

/// Walks the frontier in listed order with at most `budget` upstream
/// queries in all. A reply with answers and no error code is the
/// result; a reply bearing glue moves the walk to the glue frontier; a
/// per-server failure moves to the next server. The pair carries the
/// outcome and how many upstream queries were made: never more than
/// `budget`, which bounds the resolution however servers answer. The
/// only terminal failure is `NoServersRemaining`: the frontier or the
/// budget ran out without an answer, and an empty frontier or a zero
/// budget fails at once, before any query.
pub fn resolve<T: Transport>(
    transport: &mut T,
    servers: &Vec<[u8; 4]>,
    request: &Packet,
    budget: u32,
) -> (r: (Result<Packet, DnsError>, u32))
    requires
        request.header.wf(),
    ensures
        r.1 <= budget,
        r.0 is Ok ==> {
            let p = r.0->Ok_0;
            &&& p.answers@.len() > 0
            &&& p.header.rcode == ResponseCode::no_error
            &&& p.header.wf()
            &&& p.questions@.len() == p.header.ques_c as int
            &&& p.answers@.len() == p.header.ans_c as int
            &&& p.authority@.len() == p.header.auth_c as int
            &&& p.additional@.len() == p.header.addi_c as int
        },
        r.0 is Err ==> r.0 == Err::<Packet, DnsError>(DnsError::NoServersRemaining),
        servers@.len() == 0 ==> r.0 is Err && r.1 == 0,
        budget == 0 ==> r.0 is Err && r.1 == 0,
        r.0 is Err && servers@.len() > 0 && budget > 0 ==> r.1 >= 1,
    decreases budget,
{
    let mut used: u32 = 0;
    let mut i: usize = 0;
    while i < servers.len()
        invariant
            used <= budget,
            request.header.wf(),
            servers@.len() == 0 ==> used == 0,
            i > 0 && budget > 0 ==> used >= 1,
        decreases servers.len() - i,
    {
        if used == budget {
            return (Err(DnsError::NoServersRemaining), used);
        }
        used = used + 1;
        match lookup(transport, servers[i], request) {
            Err(_) => {},
            Ok(pck) => {
                if !pck.answers.is_empty() && pck.header.rcode.to_num() == 0 {
                    return (Ok(pck), used);
                }
                let glue = glue_addresses(&pck.additional);
                if !glue.is_empty() {
                    let sub = resolve(transport, &glue, request, budget - used);
                    return (sub.0, used + sub.1);
                }
            },
        }
        i = i + 1;
    }
    (Err(DnsError::NoServersRemaining), used)
}

} // verus!
