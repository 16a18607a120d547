//! Questions, resource records, and whole messages.

use vstd::prelude::*;

pub use crate::header::{Header, PacketType, ResponseCode, header_at};
use crate::DnsError;
use crate::buffer::{BytePacketBuffer, be16, be32, splice, u16_bytes, u32_bytes};
use crate::name::{encode_name, name_ok, qname_at, qname_encoded_len};
use vstd::string::StringSliceAdditionalSpecFns;
use vstd::utf8::{encode_utf8, valid_utf8};

verus! {

/// The type of a question or record, with its 16-bit wire code.
#[derive(Clone, Copy, Debug, PartialEq, Eq, Structural)]
pub enum QueryType {
    A,
    NS,
    CNAME,
    MX,
    AAAA,
    UNKNOWN(u16),
}

impl QueryType {
    pub open spec fn spec_to_num(self) -> u16 {
        match self {
            QueryType::A => 1,
            QueryType::NS => 2,
            QueryType::CNAME => 5,
            QueryType::MX => 15,
            QueryType::AAAA => 28,
            QueryType::UNKNOWN(x) => x,
        }
    }

    pub fn to_num(&self) -> (r: u16)
        ensures
            r == self.spec_to_num(),
    {
        match *self {
            QueryType::A => 1,
            QueryType::NS => 2,
            QueryType::CNAME => 5,
            QueryType::MX => 15,
            QueryType::AAAA => 28,
            QueryType::UNKNOWN(x) => x,
        }
    }

    pub open spec fn spec_from_num(val: u16) -> QueryType {
        if val == 1 {
            QueryType::A
        } else if val == 2 {
            QueryType::NS
        } else if val == 5 {
            QueryType::CNAME
        } else if val == 15 {
            QueryType::MX
        } else if val == 28 {
            QueryType::AAAA
        } else {
            QueryType::UNKNOWN(val)
        }
    }

    pub fn from_num(val: u16) -> (r: QueryType)
        ensures
            r == QueryType::spec_from_num(val),
    {
        match val {
            1 => QueryType::A,
            2 => QueryType::NS,
            5 => QueryType::CNAME,
            15 => QueryType::MX,
            28 => QueryType::AAAA,
            x => QueryType::UNKNOWN(x),
        }
    }
}

/// The mathematical value of a question: its name as the UTF-8 bytes
/// of the dotted text, its type, and its class.
pub ghost struct QuestionV {
    pub name: Seq<u8>,
    pub qtype: QueryType,
    pub class: u16,
}

/// One question of a message: a dotted name, a type, and a class.
#[derive(Clone, Debug, PartialEq)]
pub struct Question {
    pub name: String,
    pub qtype: QueryType,
    pub class: u16,
}

impl View for Question {
    type V = QuestionV;

    open spec fn view(&self) -> QuestionV {
        QuestionV { name: encode_utf8(self.name@), qtype: self.qtype, class: self.class }
    }
}

/// The wire bytes of a question: the encoded name, the type, the
/// class.
pub open spec fn enc_question(q: QuestionV) -> Seq<u8> {
    encode_name(q.name) + u16_bytes(q.qtype.spec_to_num()) + u16_bytes(q.class)
}

/// The question decoded at `p` and the position right after it.
pub open spec fn question_at(b: Seq<u8>, p: int) -> Result<(QuestionV, int), DnsError> {
    match qname_at(b, p) {
        None => Err(DnsError::MalformedName),
        Some(res) => {
            let (t, e) = res;
            if !valid_utf8(t) {
                Err(DnsError::MalformedName)
            } else if e + 4 > 512 {
                Err(DnsError::Overflow)
            } else {
                Ok(
                    (
                        QuestionV {
                            name: t,
                            qtype: QueryType::spec_from_num(be16(b, e)),
                            class: be16(b, e + 2),
                        },
                        e + 4,
                    ),
                )
            }
        },
    }
}

impl Question {
    /// An empty placeholder question.
    pub fn new() -> (r: Question)
        ensures
            r@.name.len() == 0,
            r@.qtype == QueryType::UNKNOWN(0u16),
            r@.class == 0,
    {
        Question { name: String::new(), qtype: QueryType::UNKNOWN(0), class: 0 }
    }

    /// Reads a question at the cursor into `self`. On failure `self`
    /// keeps its old value and the cursor stays.
    pub fn read(&mut self, buffer: &mut BytePacketBuffer) -> (r: Result<(), DnsError>)
        requires
            old(buffer).wf(),
        ensures
            final(buffer).wf(),
            final(buffer).bytes() == old(buffer).bytes(),
            final(buffer).written() == old(buffer).written(),
            match question_at(old(buffer).bytes(), old(buffer).cursor()) {
                Ok(res) => {
                    &&& r == Ok::<(), DnsError>(())
                    &&& final(self)@ == res.0
                    &&& final(buffer).cursor() == res.1
                },
                Err(err) => {
                    &&& r == Err::<(), DnsError>(err)
                    &&& *final(self) == *old(self)
                    &&& final(buffer).cursor() == old(buffer).cursor()
                },
            },
    {
        let start = buffer.position();
        let name = match buffer.read_qname() {
            Ok(v) => v,
            Err(e) => {
                return Err(e);
            },
        };
        let qt_num = match buffer.read_u16() {
            Ok(v) => v,
            Err(e) => {
                buffer.seek(start);
                return Err(e);
            },
        };
        let class = match buffer.read_u16() {
            Ok(v) => v,
            Err(e) => {
                buffer.seek(start);
                return Err(e);
            },
        };
        self.name = name;
        self.qtype = QueryType::from_num(qt_num);
        self.class = class;
        Ok(())
    }

    /// Writes the question at the cursor: the encoded name, the type,
    /// the class.
    pub fn write(&self, buffer: &mut BytePacketBuffer) -> (r: Result<(), DnsError>)
        requires
            old(buffer).wf(),
        ensures
            final(buffer).wf(),
            !name_ok(self@.name) ==> r == Err::<(), DnsError>(DnsError::MalformedName)
                && *final(buffer) == *old(buffer),
            name_ok(self@.name) && old(buffer).cursor() + enc_question(self@).len() > 512 ==> r
                == Err::<(), DnsError>(DnsError::Overflow) && *final(buffer) == *old(buffer),
            name_ok(self@.name) && old(buffer).cursor() + enc_question(self@).len() <= 512 ==> {
                &&& r == Ok::<(), DnsError>(())
                &&& final(buffer).bytes() == splice(
                    old(buffer).bytes(),
                    old(buffer).cursor(),
                    enc_question(self@),
                )
                &&& final(buffer).cursor() == old(buffer).cursor() + enc_question(self@).len()
                &&& final(buffer).written() == vstd::math::max(
                    old(buffer).written(),
                    final(buffer).cursor(),
                )
            },
    {
        let ghost b0 = buffer.bytes();
        let ghost p0 = buffer.cursor();
        let nl = match qname_encoded_len(self.name.as_str()) {
            Ok(v) => v,
            Err(e) => {
                return Err(e);
            },
        };
        if buffer.position() + nl + 4 > 512 {
            return Err(DnsError::Overflow);
        }
        let r1 = buffer.write_qname(self.name.as_str());
        assert(r1.is_ok());
        let r2 = buffer.write_u16(self.qtype.to_num());
        assert(r2.is_ok());
        let r3 = buffer.write_u16(self.class);
        assert(r3.is_ok());
        proof {
            assert(buffer.bytes() =~= splice(b0, p0, enc_question(self@)));
        }
        Ok(())
    }
}

/// The mathematical value of a resource record. Names and hosts are
/// the UTF-8 bytes of their dotted text.
pub ghost enum RecordV {
    A { name: Seq<u8>, class: u16, ttl: u32, ip: Seq<u8> },
    NS { name: Seq<u8>, class: u16, ttl: u32, host: Seq<u8> },
    CNAME { name: Seq<u8>, class: u16, host: Seq<u8>, ttl: u32 },
    MX { name: Seq<u8>, class: u16, priority: u16, host: Seq<u8>, ttl: u32 },
    AAAA { name: Seq<u8>, class: u16, ttl: u32, ip: Seq<u16> },
    UNKNOWN { name: Seq<u8>, rtype: u16, class: u16, ttl: u32, length: u16 },
}

/// A resource record, keyed by its wire type. The rdata of an
/// `UNKNOWN` record is skipped on read and absent on write; only its
/// length is kept.
#[derive(Clone, Debug, PartialEq, Eq)]
pub enum Record {
    A { name: String, class: u16, ttl: u32, ip: [u8; 4] },
    NS { name: String, class: u16, ttl: u32, host: String },
    CNAME { name: String, class: u16, host: String, ttl: u32 },
    MX { name: String, class: u16, priority: u16, host: String, ttl: u32 },
    AAAA { name: String, class: u16, ttl: u32, ip: [u16; 8] },
    UNKNOWN { name: String, rtype: u16, class: u16, ttl: u32, length: u16 },
}

impl View for Record {
    type V = RecordV;

    open spec fn view(&self) -> RecordV {
        match self {
            Record::A { name, class, ttl, ip } => RecordV::A {
                name: encode_utf8(name@),
                class: *class,
                ttl: *ttl,
                ip: ip@,
            },
            Record::NS { name, class, ttl, host } => RecordV::NS {
                name: encode_utf8(name@),
                class: *class,
                ttl: *ttl,
                host: encode_utf8(host@),
            },
            Record::CNAME { name, class, host, ttl } => RecordV::CNAME {
                name: encode_utf8(name@),
                class: *class,
                host: encode_utf8(host@),
                ttl: *ttl,
            },
            Record::MX { name, class, priority, host, ttl } => RecordV::MX {
                name: encode_utf8(name@),
                class: *class,
                priority: *priority,
                host: encode_utf8(host@),
                ttl: *ttl,
            },
            Record::AAAA { name, class, ttl, ip } => RecordV::AAAA {
                name: encode_utf8(name@),
                class: *class,
                ttl: *ttl,
                ip: ip@,
            },
            Record::UNKNOWN { name, rtype, class, ttl, length } => RecordV::UNKNOWN {
                name: encode_utf8(name@),
                rtype: *rtype,
                class: *class,
                ttl: *ttl,
                length: *length,
            },
        }
    }
}

/// The wire type code of a record.
pub open spec fn rec_rtype(r: RecordV) -> u16 {
    match r {
        RecordV::A { .. } => 1,
        RecordV::NS { .. } => 2,
        RecordV::CNAME { .. } => 5,
        RecordV::MX { .. } => 15,
        RecordV::AAAA { .. } => 28,
        RecordV::UNKNOWN { rtype, .. } => rtype,
    }
}

/// The owner name of a record.
pub open spec fn rec_name(r: RecordV) -> Seq<u8> {
    match r {
        RecordV::A { name, .. } => name,
        RecordV::NS { name, .. } => name,
        RecordV::CNAME { name, .. } => name,
        RecordV::MX { name, .. } => name,
        RecordV::AAAA { name, .. } => name,
        RecordV::UNKNOWN { name, .. } => name,
    }
}

/// Every name the record would put on the wire can be encoded.
pub open spec fn rec_names_ok(r: RecordV) -> bool {
    &&& name_ok(rec_name(r))
    &&& match r {
        RecordV::NS { host, .. } => name_ok(host),
        RecordV::CNAME { host, .. } => name_ok(host),
        RecordV::MX { host, .. } => name_ok(host),
        _ => true,
    }
}

/// The record can be put back on the wire. An `UNKNOWN` record's
/// rdata was skipped on read, so only one with nothing to re-emit, a
/// zero length, can be written without promising bytes that are gone.
pub open spec fn rec_writable(r: RecordV) -> bool {
    match r {
        RecordV::UNKNOWN { length, .. } => length == 0,
        _ => true,
    }
}

/// The rdata bytes of a record: what stands after the length slot.
pub open spec fn enc_rdata(r: RecordV) -> Seq<u8> {
    match r {
        RecordV::A { ip, .. } => ip,
        RecordV::NS { host, .. } => encode_name(host),
        RecordV::CNAME { host, .. } => encode_name(host),
        RecordV::MX { priority, host, .. } => u16_bytes(priority) + encode_name(host),
        RecordV::AAAA { ip, .. } => u16_bytes(ip[0]) + u16_bytes(ip[1]) + u16_bytes(ip[2])
            + u16_bytes(ip[3]) + u16_bytes(ip[4]) + u16_bytes(ip[5]) + u16_bytes(ip[6]) + u16_bytes(
            ip[7],
        ),
        RecordV::UNKNOWN { .. } => Seq::empty(),
    }
}

/// The length that goes into the record's length slot. For an
/// `UNKNOWN` record it is the carried length, though no rdata bytes
/// follow it on write.
pub open spec fn rec_rdlength(r: RecordV) -> u16 {
    match r {
        RecordV::UNKNOWN { length, .. } => length,
        _ => (enc_rdata(r).len() as u16),
    }
}

/// The wire bytes of a record: the owner name, the type, the class,
/// the time to live, the rdata length, the rdata.
pub open spec fn enc_record(r: RecordV) -> Seq<u8> {
    encode_name(rec_name(r)) + u16_bytes(rec_rtype(r)) + u16_bytes(rec_class(r)) + u32_bytes(
        rec_ttl(r),
    ) + u16_bytes(rec_rdlength(r)) + enc_rdata(r)
}

/// The class of a record.
pub open spec fn rec_class(r: RecordV) -> u16 {
    match r {
        RecordV::A { class, .. } => class,
        RecordV::NS { class, .. } => class,
        RecordV::CNAME { class, .. } => class,
        RecordV::MX { class, .. } => class,
        RecordV::AAAA { class, .. } => class,
        RecordV::UNKNOWN { class, .. } => class,
    }
}

/// The time to live of a record.
pub open spec fn rec_ttl(r: RecordV) -> u32 {
    match r {
        RecordV::A { ttl, .. } => ttl,
        RecordV::NS { ttl, .. } => ttl,
        RecordV::CNAME { ttl, .. } => ttl,
        RecordV::MX { ttl, .. } => ttl,
        RecordV::AAAA { ttl, .. } => ttl,
        RecordV::UNKNOWN { ttl, .. } => ttl,
    }
}

/// The four octets of `v`, highest first.
pub open spec fn ip_octets(v: u32) -> Seq<u8> {
    seq![
        (v / 16777216) as u8,
        ((v / 65536) % 256) as u8,
        ((v / 256) % 256) as u8,
        (v % 256) as u8,
    ]
}

/// Splitting a big-endian u32 back into octets gives the four bytes it
/// was read from.
pub proof fn lemma_be32_octets(b: Seq<u8>, d: int)
    requires
        b.len() == 512,
        0 <= d,
        d + 4 <= 512,
    ensures
        ip_octets(be32(b, d)) =~= b.subrange(d, d + 4),
{
    let c0 = b[d] as u32;
    let c1 = b[d + 1] as u32;
    let c2 = b[d + 2] as u32;
    let c3 = b[d + 3] as u32;
    let v = be32(b, d);
    assert(v == c0 * 16777216 + c1 * 65536 + c2 * 256 + c3);
    assert((v / 16777216) as u8 == c0 as u8 && ((v / 65536) % 256) as u8 == c1 as u8 && ((v / 256)
        % 256) as u8 == c2 as u8 && (v % 256) as u8 == c3 as u8) by (bit_vector)
        requires
            c0 < 256,
            c1 < 256,
            c2 < 256,
            c3 < 256,
            v == c0 * 16777216 + c1 * 65536 + c2 * 256 + c3,
    ;
}

/// The record decoded at `p` and the position right after it.
pub open spec fn record_at(b: Seq<u8>, p: int) -> Result<(RecordV, int), DnsError> {
    match qname_at(b, p) {
        None => Err(DnsError::MalformedName),
        Some(res) => {
            let (t, e) = res;
            if !valid_utf8(t) {
                Err(DnsError::MalformedName)
            } else if e + 10 > 512 {
                Err(DnsError::Overflow)
            } else {
                let rtype = be16(b, e);
                let class = be16(b, e + 2);
                let ttl = be32(b, e + 4);
                let length = be16(b, e + 8);
                let d = e + 10;
                if rtype == 1 {
                    if d + 4 > 512 {
                        Err(DnsError::Overflow)
                    } else {
                        Ok(
                            (
                                RecordV::A { name: t, class, ttl, ip: b.subrange(d, d + 4) },
                                d + 4,
                            ),
                        )
                    }
                } else if rtype == 2 || rtype == 5 {
                    match qname_at(b, d) {
                        None => Err(DnsError::MalformedName),
                        Some(hres) => {
                            let (h, e2) = hres;
                            if !valid_utf8(h) {
                                Err(DnsError::MalformedName)
                            } else if rtype == 2 {
                                Ok((RecordV::NS { name: t, class, ttl, host: h }, e2))
                            } else {
                                Ok((RecordV::CNAME { name: t, class, host: h, ttl }, e2))
                            }
                        },
                    }
                } else if rtype == 15 {
                    if d + 2 > 512 {
                        Err(DnsError::Overflow)
                    } else {
                        match qname_at(b, d + 2) {
                            None => Err(DnsError::MalformedName),
                            Some(hres) => {
                                let (h, e2) = hres;
                                if !valid_utf8(h) {
                                    Err(DnsError::MalformedName)
                                } else {
                                    Ok(
                                        (
                                            RecordV::MX {
                                                name: t,
                                                class,
                                                priority: be16(b, d),
                                                host: h,
                                                ttl,
                                            },
                                            e2,
                                        ),
                                    )
                                }
                            },
                        }
                    }
                } else if rtype == 28 {
                    if d + 16 > 512 {
                        Err(DnsError::Overflow)
                    } else {
                        Ok(
                            (
                                RecordV::AAAA {
                                    name: t,
                                    class,
                                    ttl,
                                    ip: seq![
                                        be16(b, d),
                                        be16(b, d + 2),
                                        be16(b, d + 4),
                                        be16(b, d + 6),
                                        be16(b, d + 8),
                                        be16(b, d + 10),
                                        be16(b, d + 12),
                                        be16(b, d + 14),
                                    ],
                                },
                                d + 16,
                            ),
                        )
                    }
                } else {
                    if d + length > 512 {
                        Err(DnsError::Overflow)
                    } else {
                        Ok(
                            (
                                RecordV::UNKNOWN { name: t, rtype, class, ttl, length },
                                d + length,
                            ),
                        )
                    }
                }
            }
        },
    }
}

impl Record {
    /// The wire type code of the record.
    pub fn to_num(&self) -> (r: u16)
        ensures
            r == rec_rtype(self@),
    {
        match *self {
            Record::A { .. } => 1,
            Record::NS { .. } => 2,
            Record::CNAME { .. } => 5,
            Record::MX { .. } => 15,
            Record::AAAA { .. } => 28,
            Record::UNKNOWN { rtype, .. } => rtype,
        }
    }

    /// The four octets of a big-endian IPv4 address, highest first.
    pub fn parse_ip(ip: u32) -> (r: [u8; 4])
        ensures
            r@ == ip_octets(ip),
    {
        let r = [
            (ip / 16777216) as u8,
            ((ip / 65536) % 256) as u8,
            ((ip / 256) % 256) as u8,
            (ip % 256) as u8,
        ];
        proof {
            assert(r@ =~= ip_octets(ip));
        }
        r
    }

    /// Reads the record at the cursor: the owner name, the fixed
    /// fields, then the rdata its type calls for; the rdata of an
    /// unrecognised type is skipped by its declared length. On failure
    /// the cursor stays.
    pub fn read(buffer: &mut BytePacketBuffer) -> (r: Result<Record, DnsError>)
        requires
            old(buffer).wf(),
        ensures
            final(buffer).wf(),
            final(buffer).bytes() == old(buffer).bytes(),
            final(buffer).written() == old(buffer).written(),
            match record_at(old(buffer).bytes(), old(buffer).cursor()) {
                Ok(res) => r is Ok && (r->Ok_0)@ == res.0 && final(buffer).cursor() == res.1,
                Err(err) => r == Err::<Record, DnsError>(err) && final(buffer).cursor() == old(
                    buffer,
                ).cursor(),
            },
    {
        let start = buffer.position();
        let name = match buffer.read_qname() {
            Ok(v) => v,
            Err(e) => {
                return Err(e);
            },
        };
        if buffer.position() > 502 {
            buffer.seek(start);
            return Err(DnsError::Overflow);
        }
        let rtype = match buffer.read_u16() {
            Ok(v) => v,
            Err(_) => {
                buffer.seek(start);
                return Err(DnsError::Overflow);
            },
        };
        let class = match buffer.read_u16() {
            Ok(v) => v,
            Err(_) => {
                buffer.seek(start);
                return Err(DnsError::Overflow);
            },
        };
        let ttl = match buffer.read_u32() {
            Ok(v) => v,
            Err(_) => {
                buffer.seek(start);
                return Err(DnsError::Overflow);
            },
        };
        let length = match buffer.read_u16() {
            Ok(v) => v,
            Err(_) => {
                buffer.seek(start);
                return Err(DnsError::Overflow);
            },
        };
        match rtype {
            1 => {
                let ip = match buffer.read_u32() {
                    Ok(v) => v,
                    Err(_) => {
                        buffer.seek(start);
                        return Err(DnsError::Overflow);
                    },
                };
                proof {
                    lemma_be32_octets(buffer.bytes(), buffer.cursor() - 4);
                }
                Ok(Record::A { name, class, ttl, ip: Record::parse_ip(ip) })
            },
            2 => {
                let host = match buffer.read_qname() {
                    Ok(v) => v,
                    Err(e) => {
                        buffer.seek(start);
                        return Err(e);
                    },
                };
                Ok(Record::NS { name, class, ttl, host })
            },
            5 => {
                let host = match buffer.read_qname() {
                    Ok(v) => v,
                    Err(e) => {
                        buffer.seek(start);
                        return Err(e);
                    },
                };
                Ok(Record::CNAME { name, class, host, ttl })
            },
            15 => {
                let priority = match buffer.read_u16() {
                    Ok(v) => v,
                    Err(_) => {
                        buffer.seek(start);
                        return Err(DnsError::Overflow);
                    },
                };
                let host = match buffer.read_qname() {
                    Ok(v) => v,
                    Err(e) => {
                        buffer.seek(start);
                        return Err(e);
                    },
                };
                Ok(Record::MX { name, class, priority, host, ttl })
            },
            28 => {
                if buffer.position() > 496 {
                    buffer.seek(start);
                    return Err(DnsError::Overflow);
                }
                let a0 = match buffer.read_u16() {
                    Ok(v) => v,
                    Err(_) => {
                        buffer.seek(start);
                        return Err(DnsError::Overflow);
                    },
                };
                let a1 = match buffer.read_u16() {
                    Ok(v) => v,
                    Err(_) => {
                        buffer.seek(start);
                        return Err(DnsError::Overflow);
                    },
                };
                let a2 = match buffer.read_u16() {
                    Ok(v) => v,
                    Err(_) => {
                        buffer.seek(start);
                        return Err(DnsError::Overflow);
                    },
                };
                let a3 = match buffer.read_u16() {
                    Ok(v) => v,
                    Err(_) => {
                        buffer.seek(start);
                        return Err(DnsError::Overflow);
                    },
                };
                let a4 = match buffer.read_u16() {
                    Ok(v) => v,
                    Err(_) => {
                        buffer.seek(start);
                        return Err(DnsError::Overflow);
                    },
                };
                let a5 = match buffer.read_u16() {
                    Ok(v) => v,
                    Err(_) => {
                        buffer.seek(start);
                        return Err(DnsError::Overflow);
                    },
                };
                let a6 = match buffer.read_u16() {
                    Ok(v) => v,
                    Err(_) => {
                        buffer.seek(start);
                        return Err(DnsError::Overflow);
                    },
                };
                let a7 = match buffer.read_u16() {
                    Ok(v) => v,
                    Err(_) => {
                        buffer.seek(start);
                        return Err(DnsError::Overflow);
                    },
                };
                let ip = [a0, a1, a2, a3, a4, a5, a6, a7];
                let rec = Record::AAAA { name, class, ttl, ip };
                proof {
                    assert(ip@ =~= seq![a0, a1, a2, a3, a4, a5, a6, a7]);
                }
                Ok(rec)
            },
            _ => {
                let d = buffer.position();
                if length as usize > 512 - d {
                    buffer.seek(start);
                    return Err(DnsError::Overflow);
                }
                buffer.seek(d + length as usize);
                Ok(Record::UNKNOWN { name, rtype, class, ttl, length })
            },
        }
    }
}

/// Replacing a middle piece of a spliced run patches just that piece.
proof fn lemma_splice_patch(b: Seq<u8>, p: int, s1: Seq<u8>, mid0: Seq<u8>, mid1: Seq<u8>, s2: Seq<u8>)
    requires
        0 <= p,
        mid0.len() == mid1.len(),
        p + s1.len() + mid0.len() + s2.len() <= b.len(),
    ensures
        splice(splice(b, p, s1 + mid0 + s2), p + s1.len(), mid1) == splice(b, p, s1 + mid1 + s2),
{
    assert(splice(splice(b, p, s1 + mid0 + s2), p + s1.len(), mid1) =~= splice(
        b,
        p,
        s1 + mid1 + s2,
    ));
}

/// The wire length of `val` as a name: `None` for a label over 63
/// bytes; an encoding too long for the window reports the first length
/// past it.
fn name_len_or_cap(val: &str) -> (r: Option<usize>)
    ensures
        r is None <==> !name_ok(val.spec_bytes()),
        r is Some && encode_name(val.spec_bytes()).len() <= 512 ==> r->0 == encode_name(
            val.spec_bytes(),
        ).len(),
        r is Some && encode_name(val.spec_bytes()).len() > 512 ==> r->0 == 513,
{
    match qname_encoded_len(val) {
        Ok(v) => Some(v),
        Err(DnsError::MalformedName) => None,
        Err(_) => Some(513),
    }
}

/// Writes a record's owner name and fixed head: the name, the type,
/// the class, the time to live. The caller has checked the space.
fn write_rr_head(
    buffer: &mut BytePacketBuffer,
    name: &str,
    rtype: u16,
    class: u16,
    ttl: u32,
) -> (head: Ghost<Seq<u8>>)
    requires
        old(buffer).wf(),
        name_ok(name.spec_bytes()),
        old(buffer).cursor() + encode_name(name.spec_bytes()).len() + 8 <= 512,
    ensures
        head@ == encode_name(name.spec_bytes()) + u16_bytes(rtype) + u16_bytes(class) + u32_bytes(
            ttl,
        ),
        final(buffer).wf(),
        final(buffer).bytes() == splice(old(buffer).bytes(), old(buffer).cursor(), head@),
        final(buffer).cursor() == old(buffer).cursor() + head@.len(),
        final(buffer).written() == vstd::math::max(old(buffer).written(), final(buffer).cursor()),
{
    let ghost b0 = buffer.bytes();
    let ghost p0 = buffer.cursor();
    let ghost nm = encode_name(name.spec_bytes());
    let r1 = buffer.write_qname(name);
    assert(r1.is_ok());
    let r2 = buffer.write_u16(rtype);
    assert(r2.is_ok());
    proof {
        crate::name::lemma_splice_concat(b0, p0, nm, u16_bytes(rtype));
    }
    let r3 = buffer.write_u16(class);
    assert(r3.is_ok());
    proof {
        crate::name::lemma_splice_concat(b0, p0, nm + u16_bytes(rtype), u16_bytes(class));
    }
    let r4 = buffer.write_u32(ttl);
    assert(r4.is_ok());
    proof {
        crate::name::lemma_splice_concat(
            b0,
            p0,
            nm + u16_bytes(rtype) + u16_bytes(class),
            u32_bytes(ttl),
        );
    }
    Ghost(nm + u16_bytes(rtype) + u16_bytes(class) + u32_bytes(ttl))
}

/// The framed rdata that carries a host name: the length slot, an MX
/// priority when there is one, and the encoded host.
pub open spec fn framed_rdata(priority: Option<u16>, host: Seq<u8>) -> Seq<u8> {
    match priority {
        Some(pr) => u16_bytes(pr) + encode_name(host),
        None => encode_name(host),
    }
}

/// Writes a length slot, the optional MX priority, and the host name,
/// then back-patches the slot with the rdata length that was measured,
/// as the length is not known up front. The caller has checked the
/// space.
fn write_framed_rdata(buffer: &mut BytePacketBuffer, priority: Option<u16>, host: &str)
    requires
        old(buffer).wf(),
        name_ok(host.spec_bytes()),
        old(buffer).cursor() + 2 + framed_rdata(priority, host.spec_bytes()).len() <= 512,
    ensures
        final(buffer).wf(),
        final(buffer).bytes() == splice(
            old(buffer).bytes(),
            old(buffer).cursor(),
            u16_bytes(framed_rdata(priority, host.spec_bytes()).len() as u16) + framed_rdata(
                priority,
                host.spec_bytes(),
            ),
        ),
        final(buffer).cursor() == old(buffer).cursor() + 2 + framed_rdata(
            priority,
            host.spec_bytes(),
        ).len(),
        final(buffer).written() == vstd::math::max(old(buffer).written(), final(buffer).cursor()),
{
    let ghost b0 = buffer.bytes();
    let ghost p0 = buffer.cursor();
    let ghost rdata = framed_rdata(priority, host.spec_bytes());
    let p = buffer.position();
    let r1 = buffer.write_u16(0);
    assert(r1.is_ok());
    match priority {
        Some(pr) => {
            let r2 = buffer.write_u16(pr);
            assert(r2.is_ok());
            proof {
                crate::name::lemma_splice_concat(b0, p0, u16_bytes(0u16), u16_bytes(pr));
            }
            let r3 = buffer.write_qname(host);
            assert(r3.is_ok());
            proof {
                crate::name::lemma_splice_concat(
                    b0,
                    p0,
                    u16_bytes(0u16) + u16_bytes(pr),
                    encode_name(host.spec_bytes()),
                );
                assert((u16_bytes(0u16) + u16_bytes(pr)) + encode_name(host.spec_bytes())
                    =~= u16_bytes(0u16) + rdata);
            }
        },
        None => {
            let r3 = buffer.write_qname(host);
            assert(r3.is_ok());
            proof {
                crate::name::lemma_splice_concat(b0, p0, u16_bytes(0u16), rdata);
            }
        },
    }
    let rd = buffer.position() - p - 2;
    assert(rd == rdata.len());
    let r4 = buffer.set_u16(rd as u16, p);
    assert(r4.is_ok());
    proof {
        lemma_splice_patch(b0, p0, Seq::empty(), u16_bytes(0u16), u16_bytes(rd as u16), rdata);
        assert(Seq::empty() + u16_bytes(0u16) + rdata =~= u16_bytes(0u16) + rdata);
        assert(Seq::empty() + u16_bytes(rd as u16) + rdata =~= u16_bytes(rd as u16) + rdata);
    }
}

impl Record {
    /// Writes the record at the cursor: the owner name, the type, the
    /// class, the time to live, the rdata length, the rdata. The
    /// length of rdata that holds a host name is measured and
    /// back-patched into its slot. Fails with `MalformedName` for a
    /// label over 63 bytes and with `Overflow` when the record does
    /// not fit, leaving the buffer as it was. An `UNKNOWN` record's
    /// rdata was skipped on read, so one with a length left to honour
    /// is refused with `UnexpectedEof` rather than sent out short;
    /// a zero length has nothing missing and is written.
    #[verifier::rlimit(100)]
    pub fn write(&self, buffer: &mut BytePacketBuffer) -> (r: Result<(), DnsError>)
        requires
            old(buffer).wf(),
        ensures
            final(buffer).wf(),
            !rec_names_ok(self@) ==> r == Err::<(), DnsError>(DnsError::MalformedName)
                && *final(buffer) == *old(buffer),
            rec_names_ok(self@) && !rec_writable(self@) ==> r == Err::<(), DnsError>(
                DnsError::UnexpectedEof,
            ) && *final(buffer) == *old(buffer),
            rec_names_ok(self@) && rec_writable(self@) && old(buffer).cursor() + enc_record(
                self@,
            ).len() > 512 ==> r == Err::<(), DnsError>(DnsError::Overflow) && *final(buffer)
                == *old(buffer),
            rec_names_ok(self@) && rec_writable(self@) && old(buffer).cursor() + enc_record(
                self@,
            ).len() <= 512 ==> {
                &&& r == Ok::<(), DnsError>(())
                &&& final(buffer).bytes() == splice(
                    old(buffer).bytes(),
                    old(buffer).cursor(),
                    enc_record(self@),
                )
                &&& final(buffer).cursor() == old(buffer).cursor() + enc_record(self@).len()
                &&& final(buffer).written() == vstd::math::max(
                    old(buffer).written(),
                    final(buffer).cursor(),
                )
            },
    {
        let ghost b0 = buffer.bytes();
        let ghost p0 = buffer.cursor();
        match self {
            Record::A { name, class, ttl, ip } => {
                let nl = match name_len_or_cap(name.as_str()) {
                    Some(v) => v,
                    None => {
                        return Err(DnsError::MalformedName);
                    },
                };
                if buffer.position() + nl + 14 > 512 {
                    return Err(DnsError::Overflow);
                }
                let head_g = write_rr_head(buffer, name.as_str(), 1, *class, *ttl);
                let ghost head = head_g@;
                let r1 = buffer.write_u16(4);
                assert(r1.is_ok());
                proof {
                    crate::name::lemma_splice_concat(b0, p0, head, u16_bytes(4u16));
                }
                let mut k: usize = 0;
                while k < 4
                    invariant
                        buffer.wf(),
                        k <= 4,
                        b0.len() == 512,
                        0 <= p0,
                        p0 + head.len() + 6 <= 512,
                        head.len() <= 512,
                        buffer.cursor() == p0 + head.len() + 2 + k,
                        buffer.bytes() =~= splice(b0, p0, head + u16_bytes(4u16) + ip@.take(k as int)),
                        buffer.written() == vstd::math::max(old(buffer).written(), buffer.cursor()),
                        old(buffer).written() <= 512,
                    decreases 4 - k,
                {
                    let r2 = buffer.write_u8(ip[k]);
                    assert(r2.is_ok());
                    k = k + 1;
                    proof {
                        assert(buffer.bytes() =~= splice(
                            b0,
                            p0,
                            head + u16_bytes(4u16) + ip@.take(k as int),
                        ));
                    }
                }
                proof {
                    assert(head + u16_bytes(4u16) + ip@.take(4) =~= enc_record(self@));
                }
                Ok(())
            },
            Record::NS { name, class, ttl, host } => {
                let nl = match name_len_or_cap(name.as_str()) {
                    Some(v) => v,
                    None => {
                        return Err(DnsError::MalformedName);
                    },
                };
                let hl = match name_len_or_cap(host.as_str()) {
                    Some(v) => v,
                    None => {
                        return Err(DnsError::MalformedName);
                    },
                };
                if buffer.position() + nl + 10 + hl > 512 {
                    return Err(DnsError::Overflow);
                }
                let head_g = write_rr_head(buffer, name.as_str(), 2, *class, *ttl);
                let ghost head = head_g@;
                write_framed_rdata(buffer, None, host.as_str());
                proof {
                    let rdata = framed_rdata(None, encode_utf8(host@));
                    crate::name::lemma_splice_concat(
                        b0,
                        p0,
                        head,
                        u16_bytes(rdata.len() as u16) + rdata,
                    );
                    assert(head + (u16_bytes(rdata.len() as u16) + rdata) =~= enc_record(self@));
                }
                Ok(())
            },
            Record::CNAME { name, class, host, ttl } => {
                let nl = match name_len_or_cap(name.as_str()) {
                    Some(v) => v,
                    None => {
                        return Err(DnsError::MalformedName);
                    },
                };
                let hl = match name_len_or_cap(host.as_str()) {
                    Some(v) => v,
                    None => {
                        return Err(DnsError::MalformedName);
                    },
                };
                if buffer.position() + nl + 10 + hl > 512 {
                    return Err(DnsError::Overflow);
                }
                let head_g = write_rr_head(buffer, name.as_str(), 5, *class, *ttl);
                let ghost head = head_g@;
                write_framed_rdata(buffer, None, host.as_str());
                proof {
                    let rdata = framed_rdata(None, encode_utf8(host@));
                    crate::name::lemma_splice_concat(
                        b0,
                        p0,
                        head,
                        u16_bytes(rdata.len() as u16) + rdata,
                    );
                    assert(head + (u16_bytes(rdata.len() as u16) + rdata) =~= enc_record(self@));
                }
                Ok(())
            },
            Record::MX { name, class, priority, host, ttl } => {
                let nl = match name_len_or_cap(name.as_str()) {
                    Some(v) => v,
                    None => {
                        return Err(DnsError::MalformedName);
                    },
                };
                let hl = match name_len_or_cap(host.as_str()) {
                    Some(v) => v,
                    None => {
                        return Err(DnsError::MalformedName);
                    },
                };
                if buffer.position() + nl + 12 + hl > 512 {
                    return Err(DnsError::Overflow);
                }
                let head_g = write_rr_head(buffer, name.as_str(), 15, *class, *ttl);
                let ghost head = head_g@;
                write_framed_rdata(buffer, Some(*priority), host.as_str());
                proof {
                    let rdata = framed_rdata(Some(*priority), encode_utf8(host@));
                    crate::name::lemma_splice_concat(
                        b0,
                        p0,
                        head,
                        u16_bytes(rdata.len() as u16) + rdata,
                    );
                    assert(head + (u16_bytes(rdata.len() as u16) + rdata) =~= enc_record(self@));
                }
                Ok(())
            },
            Record::AAAA { name, class, ttl, ip } => {
                let nl = match name_len_or_cap(name.as_str()) {
                    Some(v) => v,
                    None => {
                        return Err(DnsError::MalformedName);
                    },
                };
                if buffer.position() + nl + 26 > 512 {
                    return Err(DnsError::Overflow);
                }
                let head_g = write_rr_head(buffer, name.as_str(), 28, *class, *ttl);
                let ghost head = head_g@;
                let r1 = buffer.write_u16(16);
                assert(r1.is_ok());
                proof {
                    crate::name::lemma_splice_concat(b0, p0, head, u16_bytes(16u16));
                }
                let ghost rdata = enc_rdata(self@);
                let mut k: usize = 0;
                let ghost mid = Seq::<u8>::empty();
                while k < 8
                    invariant
                        buffer.wf(),
                        k <= 8,
                        b0.len() == 512,
                        0 <= p0,
                        p0 + head.len() + 18 <= 512,
                        head.len() <= 512,
                        ip@.len() == 8,
                        mid.len() == 2 * k,
                        mid == enc_rdata_prefix(ip@, k as int),
                        buffer.cursor() == p0 + head.len() + 2 + 2 * k,
                        buffer.bytes() =~= splice(b0, p0, head + u16_bytes(16u16) + mid),
                        buffer.written() == vstd::math::max(old(buffer).written(), buffer.cursor()),
                        old(buffer).written() <= 512,
                    decreases 8 - k,
                {
                    let r2 = buffer.write_u16(ip[k]);
                    assert(r2.is_ok());
                    proof {
                        crate::name::lemma_splice_concat(
                            b0,
                            p0,
                            head + u16_bytes(16u16) + mid,
                            u16_bytes(ip@[k as int]),
                        );
                        assert((head + u16_bytes(16u16) + mid) + u16_bytes(ip@[k as int])
                            =~= head + u16_bytes(16u16) + (mid + u16_bytes(ip@[k as int])));
                    }
                    proof {
                        mid = mid + u16_bytes(ip@[k as int]);
                    }
                    k = k + 1;
                }
                proof {
                    reveal_with_fuel(enc_rdata_prefix, 9);
                    assert(mid =~= enc_rdata(self@));
                    assert(head + u16_bytes(16u16) + mid =~= enc_record(self@));
                }
                Ok(())
            },
            Record::UNKNOWN { name, rtype, class, ttl, length } => {
                let nl = match name_len_or_cap(name.as_str()) {
                    Some(v) => v,
                    None => {
                        return Err(DnsError::MalformedName);
                    },
                };
                if *length > 0 {
                    return Err(DnsError::UnexpectedEof);
                }
                if buffer.position() + nl + 10 > 512 {
                    return Err(DnsError::Overflow);
                }
                let head_g = write_rr_head(buffer, name.as_str(), *rtype, *class, *ttl);
                let ghost head = head_g@;
                let r1 = buffer.write_u16(*length);
                assert(r1.is_ok());
                proof {
                    crate::name::lemma_splice_concat(b0, p0, head, u16_bytes(*length));
                    assert(head + u16_bytes(*length) =~= enc_record(self@));
                }
                Ok(())
            },
        }
    }
}

/// The first `k` address words of an AAAA rdata, as bytes.
pub open spec fn enc_rdata_prefix(ip: Seq<u16>, k: int) -> Seq<u8>
    decreases k,
{
    if k <= 0 {
        Seq::empty()
    } else {
        enc_rdata_prefix(ip, k - 1) + u16_bytes(ip[k - 1])
    }
}

/// The mathematical value of a whole message.
pub ghost struct PacketV {
    pub header: Header,
    pub questions: Seq<QuestionV>,
    pub answers: Seq<RecordV>,
    pub authority: Seq<RecordV>,
    pub additional: Seq<RecordV>,
}

/// A whole DNS message: the header, the questions, and the three
/// record sections.
#[derive(Debug)]
pub struct Packet {
    pub header: Header,
    pub questions: Vec<Question>,
    pub answers: Vec<Record>,
    pub authority: Vec<Record>,
    pub additional: Vec<Record>,
}

/// The values of a run of questions.
pub open spec fn question_views(qs: Seq<Question>) -> Seq<QuestionV> {
    qs.map_values(|q: Question| q@)
}

/// The values of a run of records.
pub open spec fn record_views(rs: Seq<Record>) -> Seq<RecordV> {
    rs.map_values(|r: Record| r@)
}

impl View for Packet {
    type V = PacketV;

    open spec fn view(&self) -> PacketV {
        PacketV {
            header: self.header,
            questions: question_views(self.questions@),
            answers: record_views(self.answers@),
            authority: record_views(self.authority@),
            additional: record_views(self.additional@),
        }
    }
}

/// The wire bytes of a run of questions, in order.
pub open spec fn enc_questions(qs: Seq<QuestionV>) -> Seq<u8>
    decreases qs.len(),
{
    if qs.len() == 0 {
        Seq::empty()
    } else {
        enc_question(qs[0]) + enc_questions(qs.drop_first())
    }
}

/// The wire bytes of a run of records, in order.
pub open spec fn enc_records(rs: Seq<RecordV>) -> Seq<u8>
    decreases rs.len(),
{
    if rs.len() == 0 {
        Seq::empty()
    } else {
        enc_record(rs[0]) + enc_records(rs.drop_first())
    }
}

/// Every question name of the run can be encoded.
pub open spec fn questions_names_ok(qs: Seq<QuestionV>) -> bool {
    forall|i: int| 0 <= i < qs.len() ==> name_ok(#[trigger] qs[i].name)
}

/// Every record name of the run can be encoded.
pub open spec fn records_names_ok(rs: Seq<RecordV>) -> bool {
    forall|i: int| 0 <= i < rs.len() ==> rec_names_ok(#[trigger] rs[i])
}

/// Every record of the run can be put back on the wire.
pub open spec fn records_writable(rs: Seq<RecordV>) -> bool {
    forall|i: int| 0 <= i < rs.len() ==> rec_writable(#[trigger] rs[i])
}

/// Every record of the message can be put back on the wire: no
/// `UNKNOWN` record still owes skipped rdata.
pub open spec fn packet_writable(p: PacketV) -> bool {
    &&& records_writable(p.answers)
    &&& records_writable(p.authority)
    &&& records_writable(p.additional)
}

/// Every name the message would put on the wire can be encoded.
pub open spec fn packet_names_ok(p: PacketV) -> bool {
    &&& questions_names_ok(p.questions)
    &&& records_names_ok(p.answers)
    &&& records_names_ok(p.authority)
    &&& records_names_ok(p.additional)
}

/// The wire bytes of a whole message: the header, all questions, then
/// the answer, authority, and additional sections, with no padding.
pub open spec fn enc_packet(p: PacketV) -> Seq<u8> {
    p.header.spec_bytes() + enc_questions(p.questions) + enc_records(p.answers) + enc_records(
        p.authority,
    ) + enc_records(p.additional)
}

/// `n` questions decoded one after another from `p`, and the position
/// after the last.
pub open spec fn questions_at(b: Seq<u8>, p: int, n: nat) -> Result<(Seq<QuestionV>, int), DnsError>
    decreases n,
{
    if n == 0 {
        Ok((Seq::empty(), p))
    } else {
        match question_at(b, p) {
            Err(e) => Err(e),
            Ok(res) => match questions_at(b, res.1, (n - 1) as nat) {
                Err(e) => Err(e),
                Ok(rest) => Ok((seq![res.0] + rest.0, rest.1)),
            },
        }
    }
}

/// `n` records decoded one after another from `p`, and the position
/// after the last.
pub open spec fn records_at(b: Seq<u8>, p: int, n: nat) -> Result<(Seq<RecordV>, int), DnsError>
    decreases n,
{
    if n == 0 {
        Ok((Seq::empty(), p))
    } else {
        match record_at(b, p) {
            Err(e) => Err(e),
            Ok(res) => match records_at(b, res.1, (n - 1) as nat) {
                Err(e) => Err(e),
                Ok(rest) => Ok((seq![res.0] + rest.0, rest.1)),
            },
        }
    }
}

/// The whole message decoded from the start of the window: the header,
/// then as many questions and records as its counts declare, and the
/// position after the last record.
pub open spec fn packet_at(b: Seq<u8>) -> Result<(PacketV, int), DnsError> {
    match header_at(b, 0) {
        Err(e) => Err(e),
        Ok(h) => match questions_at(b, 12, h.ques_c as nat) {
            Err(e) => Err(e),
            Ok(q) => match records_at(b, q.1, h.ans_c as nat) {
                Err(e) => Err(e),
                Ok(an) => match records_at(b, an.1, h.auth_c as nat) {
                    Err(e) => Err(e),
                    Ok(au) => match records_at(b, au.1, h.addi_c as nat) {
                        Err(e) => Err(e),
                        Ok(ad) => Ok(
                            (
                                PacketV {
                                    header: h,
                                    questions: q.0,
                                    answers: an.0,
                                    authority: au.0,
                                    additional: ad.0,
                                },
                                ad.1,
                            ),
                        ),
                    },
                },
            },
        },
    }
}

/// The message decoded from a datagram of `size` bytes:
/// `UnexpectedEof` when the counts declare more than the datagram
/// held.
pub open spec fn packet_decode(b: Seq<u8>, size: int) -> Result<PacketV, DnsError> {
    match packet_at(b) {
        Err(e) => Err(e),
        Ok(res) => if res.1 <= size {
            Ok(res.0)
        } else {
            Err(DnsError::UnexpectedEof)
        },
    }
}

/// Reads `n` questions one after another at the cursor.
fn read_questions(buffer: &mut BytePacketBuffer, n: u16) -> (r: Result<Vec<Question>, DnsError>)
    requires
        old(buffer).wf(),
    ensures
        final(buffer).wf(),
        final(buffer).bytes() == old(buffer).bytes(),
        final(buffer).written() == old(buffer).written(),
        match questions_at(old(buffer).bytes(), old(buffer).cursor(), n as nat) {
            Ok(res) => r is Ok && question_views((r->Ok_0)@) == res.0 && final(buffer).cursor()
                == res.1 && (r->Ok_0)@.len() == n,
            Err(e) => r == Err::<Vec<Question>, DnsError>(e),
        },
{
    let ghost b0 = buffer.bytes();
    let ghost p0 = buffer.cursor();
    let mut acc: Vec<Question> = Vec::new();
    let mut i: u16 = 0;
    while i < n
        invariant
            buffer.wf(),
            i <= n,
            b0 == old(buffer).bytes(),
            p0 == old(buffer).cursor(),
            buffer.bytes() == b0,
            buffer.written() == old(buffer).written(),
            acc@.len() == i as int,
            match questions_at(b0, buffer.cursor(), (n - i) as nat) {
                Ok(rest) => questions_at(b0, p0, n as nat) == Ok::<(Seq<QuestionV>, int), DnsError>(
                    (question_views(acc@) + rest.0, rest.1),
                ),
                Err(e) => questions_at(b0, p0, n as nat) == Err::<
                    (Seq<QuestionV>, int),
                    DnsError,
                >(e),
            },
        decreases n - i,
    {
        let ghost views0 = question_views(acc@);
        let mut q = Question::new();
        match q.read(buffer) {
            Ok(_) => {},
            Err(e) => {
                return Err(e);
            },
        }
        acc.push(q);
        i = i + 1;
        proof {
            assert(question_views(acc@) =~= views0 + seq![acc@.last()@]);
            let rest_now = questions_at(b0, buffer.cursor(), (n - i) as nat);
            if rest_now is Ok {
                let rest = rest_now->Ok_0;
                assert((views0 + seq![acc@.last()@]) + rest.0 =~= views0 + (seq![acc@.last()@]
                    + rest.0));
            }
        }
    }
    proof {
        assert(question_views(acc@) + Seq::<QuestionV>::empty() =~= question_views(acc@));
    }
    Ok(acc)
}

/// Reads `n` records one after another at the cursor.
fn read_records(buffer: &mut BytePacketBuffer, n: u16) -> (r: Result<Vec<Record>, DnsError>)
    requires
        old(buffer).wf(),
    ensures
        final(buffer).wf(),
        final(buffer).bytes() == old(buffer).bytes(),
        final(buffer).written() == old(buffer).written(),
        match records_at(old(buffer).bytes(), old(buffer).cursor(), n as nat) {
            Ok(res) => r is Ok && record_views((r->Ok_0)@) == res.0 && final(buffer).cursor()
                == res.1 && (r->Ok_0)@.len() == n,
            Err(e) => r == Err::<Vec<Record>, DnsError>(e),
        },
{
    let ghost b0 = buffer.bytes();
    let ghost p0 = buffer.cursor();
    let mut acc: Vec<Record> = Vec::new();
    let mut i: u16 = 0;
    while i < n
        invariant
            buffer.wf(),
            i <= n,
            b0 == old(buffer).bytes(),
            p0 == old(buffer).cursor(),
            buffer.bytes() == b0,
            buffer.written() == old(buffer).written(),
            acc@.len() == i as int,
            match records_at(b0, buffer.cursor(), (n - i) as nat) {
                Ok(rest) => records_at(b0, p0, n as nat) == Ok::<(Seq<RecordV>, int), DnsError>(
                    (record_views(acc@) + rest.0, rest.1),
                ),
                Err(e) => records_at(b0, p0, n as nat) == Err::<(Seq<RecordV>, int), DnsError>(e),
            },
        decreases n - i,
    {
        let ghost views0 = record_views(acc@);
        let rec = match Record::read(buffer) {
            Ok(v) => v,
            Err(e) => {
                return Err(e);
            },
        };
        acc.push(rec);
        i = i + 1;
        proof {
            assert(record_views(acc@) =~= views0 + seq![acc@.last()@]);
            let rest_now = records_at(b0, buffer.cursor(), (n - i) as nat);
            if rest_now is Ok {
                let rest = rest_now->Ok_0;
                assert((views0 + seq![acc@.last()@]) + rest.0 =~= views0 + (seq![acc@.last()@]
                    + rest.0));
            }
        }
    }
    proof {
        assert(record_views(acc@) + Seq::<RecordV>::empty() =~= record_views(acc@));
    }
    Ok(acc)
}

impl Packet {
    /// An empty message with a zeroed header.
    pub fn new() -> (r: Packet)
        ensures
            r@.header == (Header {
                id: 0,
                qr: PacketType::Query,
                opcode: 0,
                authoritative: false,
                is_truncated: false,
                recursion_desired: false,
                recursion_available: false,
                reserved: 0,
                rcode: ResponseCode::no_error,
                ques_c: 0,
                ans_c: 0,
                auth_c: 0,
                addi_c: 0,
            }),
            r@.questions.len() == 0,
            r@.answers.len() == 0,
            r@.authority.len() == 0,
            r@.additional.len() == 0,
            r@.header.wf(),
    {
        let p = Packet {
            header: Header::new(),
            questions: Vec::new(),
            answers: Vec::new(),
            authority: Vec::new(),
            additional: Vec::new(),
        };
        proof {
            assert(question_views(p.questions@) =~= Seq::<QuestionV>::empty());
            assert(record_views(p.answers@) =~= Seq::<RecordV>::empty());
            assert(record_views(p.authority@) =~= Seq::<RecordV>::empty());
            assert(record_views(p.additional@) =~= Seq::<RecordV>::empty());
        }
        p
    }

    /// Reads a whole message from the start of the buffer: the cursor
    /// is reset, the header read, then exactly as many questions and
    /// records as the counts declare. A message whose counts declare
    /// more than the datagram held fails with `UnexpectedEof`. On
    /// success the section lengths equal the header counts. On failure
    /// `self` keeps its old value.
    pub fn read(&mut self, buffer: &mut BytePacketBuffer) -> (r: Result<(), DnsError>)
        requires
            old(buffer).wf(),
        ensures
            final(buffer).wf(),
            final(buffer).bytes() == old(buffer).bytes(),
            final(buffer).written() == old(buffer).written(),
            match packet_decode(old(buffer).bytes(), old(buffer).written()) {
                Ok(pv) => {
                    &&& r == Ok::<(), DnsError>(())
                    &&& final(self)@ == pv
                    &&& final(self).questions@.len() == pv.header.ques_c as int
                    &&& final(self).answers@.len() == pv.header.ans_c as int
                    &&& final(self).authority@.len() == pv.header.auth_c as int
                    &&& final(self).additional@.len() == pv.header.addi_c as int
                    &&& final(self).header.wf()
                },
                Err(err) => {
                    &&& r == Err::<(), DnsError>(err)
                    &&& *final(self) == *old(self)
                },
            },
    {
        buffer.reset_for_read();
        let mut header = Header::new();
        match header.read_header(buffer) {
            Ok(_) => {},
            Err(e) => {
                return Err(e);
            },
        }
        let questions = match read_questions(buffer, header.ques_c) {
            Ok(v) => v,
            Err(e) => {
                return Err(e);
            },
        };
        let answers = match read_records(buffer, header.ans_c) {
            Ok(v) => v,
            Err(e) => {
                return Err(e);
            },
        };
        let authority = match read_records(buffer, header.auth_c) {
            Ok(v) => v,
            Err(e) => {
                return Err(e);
            },
        };
        let additional = match read_records(buffer, header.addi_c) {
            Ok(v) => v,
            Err(e) => {
                return Err(e);
            },
        };
        if buffer.position() > buffer.bytes_written() {
            return Err(DnsError::UnexpectedEof);
        }
        self.header = header;
        self.questions = questions;
        self.answers = answers;
        self.authority = authority;
        self.additional = additional;
        Ok(())
    }
}

/// One more question extends the run's encoding by its bytes.
proof fn lemma_enc_questions_snoc(s: Seq<QuestionV>, i: int)
    requires
        0 <= i < s.len(),
    ensures
        enc_questions(s.take(i + 1)) == enc_questions(s.take(i)) + enc_question(s[i]),
    decreases i,
{
    if i == 0 {
        assert(s.take(1) =~= seq![s[0]]);
        assert(seq![s[0]].drop_first() =~= Seq::<QuestionV>::empty());
        assert(s.take(0) =~= Seq::<QuestionV>::empty());
        assert(enc_question(s[0]) + Seq::<u8>::empty() =~= enc_question(s[0]));
        assert(Seq::<u8>::empty() + enc_question(s[0]) =~= enc_question(s[0]));
    } else {
        let t = s.drop_first();
        lemma_enc_questions_snoc(t, i - 1);
        assert(s.take(i + 1).drop_first() =~= t.take(i));
        assert(s.take(i).drop_first() =~= t.take(i - 1));
        assert(t[i - 1] == s[i]);
        assert(enc_questions(s.take(i + 1)) == enc_question(s[0]) + enc_questions(t.take(i)));
        assert(enc_questions(s.take(i)) == enc_question(s[0]) + enc_questions(t.take(i - 1)));
        assert(enc_question(s[0]) + (enc_questions(t.take(i - 1)) + enc_question(s[i])) =~= (
        enc_question(s[0]) + enc_questions(t.take(i - 1))) + enc_question(s[i]));
    }
}

/// One more record extends the run's encoding by its bytes.
proof fn lemma_enc_records_snoc(s: Seq<RecordV>, i: int)
    requires
        0 <= i < s.len(),
    ensures
        enc_records(s.take(i + 1)) == enc_records(s.take(i)) + enc_record(s[i]),
    decreases i,
{
    if i == 0 {
        assert(s.take(1) =~= seq![s[0]]);
        assert(seq![s[0]].drop_first() =~= Seq::<RecordV>::empty());
        assert(s.take(0) =~= Seq::<RecordV>::empty());
        assert(enc_record(s[0]) + Seq::<u8>::empty() =~= enc_record(s[0]));
        assert(Seq::<u8>::empty() + enc_record(s[0]) =~= enc_record(s[0]));
    } else {
        let t = s.drop_first();
        lemma_enc_records_snoc(t, i - 1);
        assert(s.take(i + 1).drop_first() =~= t.take(i));
        assert(s.take(i).drop_first() =~= t.take(i - 1));
        assert(t[i - 1] == s[i]);
        assert(enc_records(s.take(i + 1)) == enc_record(s[0]) + enc_records(t.take(i)));
        assert(enc_records(s.take(i)) == enc_record(s[0]) + enc_records(t.take(i - 1)));
        assert(enc_record(s[0]) + (enc_records(t.take(i - 1)) + enc_record(s[i])) =~= (enc_record(
            s[0],
        ) + enc_records(t.take(i - 1))) + enc_record(s[i]));
    }
}

/// A prefix of a run encodes to at most the whole run's bytes.
proof fn lemma_enc_questions_prefix_le(s: Seq<QuestionV>, i: int)
    requires
        0 <= i <= s.len(),
    ensures
        enc_questions(s.take(i)).len() <= enc_questions(s).len(),
    decreases s.len() - i,
{
    if i < s.len() {
        lemma_enc_questions_snoc(s, i);
        lemma_enc_questions_prefix_le(s, i + 1);
    } else {
        assert(s.take(i) =~= s);
    }
}

/// A prefix of a run encodes to at most the whole run's bytes.
proof fn lemma_enc_records_prefix_le(s: Seq<RecordV>, i: int)
    requires
        0 <= i <= s.len(),
    ensures
        enc_records(s.take(i)).len() <= enc_records(s).len(),
    decreases s.len() - i,
{
    if i < s.len() {
        lemma_enc_records_snoc(s, i);
        lemma_enc_records_prefix_le(s, i + 1);
    } else {
        assert(s.take(i) =~= s);
    }
}

/// Writes a run of questions one after another at the cursor.
fn write_questions(buffer: &mut BytePacketBuffer, qs: &Vec<Question>) -> (r: Result<(), DnsError>)
    requires
        old(buffer).wf(),
    ensures
        final(buffer).wf(),
        questions_names_ok(question_views(qs@)) && old(buffer).cursor() + enc_questions(
            question_views(qs@),
        ).len() <= 512 ==> {
            &&& r == Ok::<(), DnsError>(())
            &&& final(buffer).bytes() == splice(
                old(buffer).bytes(),
                old(buffer).cursor(),
                enc_questions(question_views(qs@)),
            )
            &&& final(buffer).cursor() == old(buffer).cursor() + enc_questions(
                question_views(qs@),
            ).len()
            &&& final(buffer).written() == if enc_questions(question_views(qs@)).len() == 0 {
                old(buffer).written()
            } else {
                vstd::math::max(old(buffer).written(), final(buffer).cursor())
            }
        },
        !(questions_names_ok(question_views(qs@)) && old(buffer).cursor() + enc_questions(
            question_views(qs@),
        ).len() <= 512) ==> r is Err,
        r is Err ==> (r == Err::<(), DnsError>(DnsError::Overflow) || r == Err::<(), DnsError>(
            DnsError::MalformedName,
        )) && final(buffer).bytes().take(old(buffer).cursor()) == old(buffer).bytes().take(
            old(buffer).cursor(),
        ) && final(buffer).cursor() >= old(buffer).cursor(),
{
    let ghost b0 = buffer.bytes();
    let ghost p0 = buffer.cursor();
    let ghost views = question_views(qs@);
    let mut i: usize = 0;
    while i < qs.len()
        invariant
            buffer.wf(),
            i <= qs.len(),
            b0 == old(buffer).bytes(),
            p0 == old(buffer).cursor(),
            b0.len() == 512,
            0 <= p0 <= 512,
            old(buffer).written() <= 512,
            views == question_views(qs@),
            views.len() == qs@.len(),
            forall|k: int| 0 <= k < i ==> name_ok(#[trigger] views[k].name),
            buffer.bytes() == splice(b0, p0, enc_questions(views.take(i as int))),
            buffer.cursor() == p0 + enc_questions(views.take(i as int)).len(),
            buffer.written() == if enc_questions(views.take(i as int)).len() == 0 {
                old(buffer).written()
            } else {
                vstd::math::max(old(buffer).written(), buffer.cursor())
            },
        decreases qs.len() - i,
    {
        proof {
            assert(views.take(0) =~= Seq::<QuestionV>::empty());
            assert(qs@[i as int]@ == views[i as int]);
        }
        let ghost pre = enc_questions(views.take(i as int));
        match qs[i].write(buffer) {
            Ok(_) => {},
            Err(e) => {
                proof {
                    assert(buffer.bytes().take(p0) =~= b0.take(p0));
                    if questions_names_ok(views) && p0 + enc_questions(views).len() <= 512 {
                        lemma_enc_questions_snoc(views, i as int);
                        lemma_enc_questions_prefix_le(views, i as int + 1);
                        assert(false);
                    }
                }
                return Err(e);
            },
        }
        proof {
            crate::name::lemma_splice_concat(b0, p0, pre, enc_question(views[i as int]));
            lemma_enc_questions_snoc(views, i as int);
        }
        i = i + 1;
    }
    proof {
        assert(views.take(qs@.len() as int) =~= views);
        assert(views.take(0) =~= Seq::<QuestionV>::empty());
    }
    Ok(())
}

/// Writes a run of records one after another at the cursor.
fn write_records(buffer: &mut BytePacketBuffer, rs: &Vec<Record>) -> (r: Result<(), DnsError>)
    requires
        old(buffer).wf(),
    ensures
        final(buffer).wf(),
        records_names_ok(record_views(rs@)) && records_writable(record_views(rs@))
            && old(buffer).cursor() + enc_records(record_views(rs@)).len() <= 512 ==> {
            &&& r == Ok::<(), DnsError>(())
            &&& final(buffer).bytes() == splice(
                old(buffer).bytes(),
                old(buffer).cursor(),
                enc_records(record_views(rs@)),
            )
            &&& final(buffer).cursor() == old(buffer).cursor() + enc_records(
                record_views(rs@),
            ).len()
            &&& final(buffer).written() == if enc_records(record_views(rs@)).len() == 0 {
                old(buffer).written()
            } else {
                vstd::math::max(old(buffer).written(), final(buffer).cursor())
            }
        },
        !(records_names_ok(record_views(rs@)) && records_writable(record_views(rs@))
            && old(buffer).cursor() + enc_records(record_views(rs@)).len() <= 512) ==> r is Err,
        r is Err ==> (r == Err::<(), DnsError>(DnsError::Overflow) || r == Err::<(), DnsError>(
            DnsError::MalformedName,
        ) || r == Err::<(), DnsError>(DnsError::UnexpectedEof))
            && final(buffer).bytes().take(old(buffer).cursor())
            == old(buffer).bytes().take(old(buffer).cursor())
            && final(buffer).cursor() >= old(buffer).cursor(),
{
    let ghost b0 = buffer.bytes();
    let ghost p0 = buffer.cursor();
    let ghost views = record_views(rs@);
    let mut i: usize = 0;
    while i < rs.len()
        invariant
            buffer.wf(),
            i <= rs.len(),
            b0 == old(buffer).bytes(),
            p0 == old(buffer).cursor(),
            b0.len() == 512,
            0 <= p0 <= 512,
            old(buffer).written() <= 512,
            views == record_views(rs@),
            views.len() == rs@.len(),
            forall|k: int| 0 <= k < i ==> rec_names_ok(#[trigger] views[k]),
            forall|k: int| 0 <= k < i ==> rec_writable(#[trigger] views[k]),
            buffer.bytes() == splice(b0, p0, enc_records(views.take(i as int))),
            buffer.cursor() == p0 + enc_records(views.take(i as int)).len(),
            buffer.written() == if enc_records(views.take(i as int)).len() == 0 {
                old(buffer).written()
            } else {
                vstd::math::max(old(buffer).written(), buffer.cursor())
            },
        decreases rs.len() - i,
    {
        proof {
            assert(views.take(0) =~= Seq::<RecordV>::empty());
            assert(rs@[i as int]@ == views[i as int]);
        }
        let ghost pre = enc_records(views.take(i as int));
        match rs[i].write(buffer) {
            Ok(_) => {},
            Err(e) => {
                proof {
                    assert(buffer.bytes().take(p0) =~= b0.take(p0));
                    if records_names_ok(views) && records_writable(views) && p0 + enc_records(
                        views,
                    ).len() <= 512 {
                        lemma_enc_records_snoc(views, i as int);
                        lemma_enc_records_prefix_le(views, i as int + 1);
                        assert(false);
                    }
                }
                return Err(e);
            },
        }
        proof {
            crate::name::lemma_splice_concat(b0, p0, pre, enc_record(views[i as int]));
            lemma_enc_records_snoc(views, i as int);
        }
        i = i + 1;
    }
    proof {
        assert(views.take(rs@.len() as int) =~= views);
        assert(views.take(0) =~= Seq::<RecordV>::empty());
    }
    Ok(())
}

impl Packet {
    /// Writes the whole message at the cursor: the header, all
    /// questions, then the answer, authority, and additional sections
    /// in order, with no padding. The header counts are written as
    /// they stand, whether or not they match the section lengths.
    /// Fails with `MalformedName` for a label over 63 bytes, with
    /// `Overflow` when the message does not fit the window, and with
    /// `UnexpectedEof` for an `UNKNOWN` record whose skipped rdata
    /// cannot be re-emitted.
    #[verifier::rlimit(100)]
    pub fn write(&self, buffer: &mut BytePacketBuffer) -> (r: Result<(), DnsError>)
        requires
            old(buffer).wf(),
            self.header.wf(),
        ensures
            final(buffer).wf(),
            packet_names_ok(self@) && packet_writable(self@) && old(buffer).cursor() + enc_packet(
                self@,
            ).len() <= 512 ==> {
                &&& r == Ok::<(), DnsError>(())
                &&& final(buffer).bytes() == splice(
                    old(buffer).bytes(),
                    old(buffer).cursor(),
                    enc_packet(self@),
                )
                &&& final(buffer).cursor() == old(buffer).cursor() + enc_packet(self@).len()
                &&& final(buffer).written() == vstd::math::max(
                    old(buffer).written(),
                    final(buffer).cursor(),
                )
            },
            !(packet_names_ok(self@) && packet_writable(self@) && old(buffer).cursor()
                + enc_packet(self@).len() <= 512) ==> r is Err,
            r is Err ==> (r == Err::<(), DnsError>(DnsError::Overflow) || r == Err::<(), DnsError>(
                DnsError::MalformedName,
            ) || r == Err::<(), DnsError>(DnsError::UnexpectedEof))
                && final(buffer).bytes().take(old(buffer).cursor())
                == old(buffer).bytes().take(old(buffer).cursor())
                && final(buffer).cursor() >= old(buffer).cursor(),
    {
        let ghost b0 = buffer.bytes();
        let ghost p0 = buffer.cursor();
        let ghost hb = self.header.spec_bytes();
        let ghost eq = enc_questions(question_views(self.questions@));
        let ghost ea = enc_records(record_views(self.answers@));
        let ghost eu = enc_records(record_views(self.authority@));
        let ghost ed = enc_records(record_views(self.additional@));
        proof {
            assert(enc_packet(self@) == hb + eq + ea + eu + ed);
            assert(hb.len() == 12);
        }
        match self.header.write(buffer) {
            Ok(_) => {},
            Err(e) => {
                proof {
                    assert(buffer.bytes().take(p0) =~= b0.take(p0));
                }
                return Err(e);
            },
        }
        match write_questions(buffer, &self.questions) {
            Ok(_) => {},
            Err(e) => {
                proof {
                    assert(buffer.bytes().take(p0) =~= b0.take(p0));
                }
                return Err(e);
            },
        }
        proof {
            crate::name::lemma_splice_concat(b0, p0, hb, eq);
        }
        match write_records(buffer, &self.answers) {
            Ok(_) => {},
            Err(e) => {
                proof {
                    assert(buffer.bytes().take(p0) =~= b0.take(p0));
                }
                return Err(e);
            },
        }
        proof {
            crate::name::lemma_splice_concat(b0, p0, hb + eq, ea);
        }
        match write_records(buffer, &self.authority) {
            Ok(_) => {},
            Err(e) => {
                proof {
                    assert(buffer.bytes().take(p0) =~= b0.take(p0));
                }
                return Err(e);
            },
        }
        proof {
            crate::name::lemma_splice_concat(b0, p0, hb + eq + ea, eu);
        }
        match write_records(buffer, &self.additional) {
            Ok(_) => {},
            Err(e) => {
                proof {
                    assert(buffer.bytes().take(p0) =~= b0.take(p0));
                }
                return Err(e);
            },
        }
        proof {
            crate::name::lemma_splice_concat(b0, p0, hb + eq + ea + eu, ed);
            assert(hb + eq + ea + eu + ed =~= enc_packet(self@));
        }
        Ok(())
    }
}

} // verus!
