//! The 12-byte DNS header: the id, the packed 16-bit flag word, and
//! the four section counts.

use vstd::prelude::*;

use crate::DnsError;
use crate::buffer::{BytePacketBuffer, be16, splice, u16_bytes};

verus! {

/// Whether a message asks or answers: the QR bit of the flag word.
#[derive(Clone, Copy, Debug, PartialEq, Eq, Structural)]
pub enum PacketType {
    Query,
    Response,
}

impl PacketType {
    pub open spec fn spec_to_num(self) -> u16 {
        match self {
            PacketType::Query => 0,
            PacketType::Response => 1,
        }
    }

    pub fn to_num(&self) -> (r: u16)
        ensures
            r == self.spec_to_num(),
    {
        match self {
            PacketType::Query => 0,
            PacketType::Response => 1,
        }
    }

    pub open spec fn spec_from_bit(v: u16) -> PacketType {
        if v == 0 {
            PacketType::Query
        } else {
            PacketType::Response
        }
    }

    /// The packet type for a QR bit: zero asks, anything else answers.
    pub fn from_bit(v: u16) -> (r: PacketType)
        ensures
            r == PacketType::spec_from_bit(v),
    {
        if v == 0 {
            PacketType::Query
        } else {
            PacketType::Response
        }
    }
}

/// The response code of a reply. Codes over six are rejected as
/// `MalformedHeader` on decode.
#[derive(Clone, Copy, Debug, PartialEq, Eq, Structural)]
#[allow(non_camel_case_types)]
pub enum ResponseCode {
    no_error,
    format_err,
    serv_fail,
    nx_domain,
    not_imp,
    refused,
    no_data,
}

impl ResponseCode {
    pub open spec fn spec_to_num(self) -> u16 {
        match self {
            ResponseCode::no_error => 0,
            ResponseCode::format_err => 1,
            ResponseCode::serv_fail => 2,
            ResponseCode::nx_domain => 3,
            ResponseCode::not_imp => 4,
            ResponseCode::refused => 5,
            ResponseCode::no_data => 6,
        }
    }

    pub fn to_num(&self) -> (r: u16)
        ensures
            r == self.spec_to_num(),
    {
        match self {
            ResponseCode::no_error => 0,
            ResponseCode::format_err => 1,
            ResponseCode::serv_fail => 2,
            ResponseCode::nx_domain => 3,
            ResponseCode::not_imp => 4,
            ResponseCode::refused => 5,
            ResponseCode::no_data => 6,
        }
    }

    pub open spec fn spec_from_num(v: u16) -> Option<ResponseCode> {
        if v == 0 {
            Some(ResponseCode::no_error)
        } else if v == 1 {
            Some(ResponseCode::format_err)
        } else if v == 2 {
            Some(ResponseCode::serv_fail)
        } else if v == 3 {
            Some(ResponseCode::nx_domain)
        } else if v == 4 {
            Some(ResponseCode::not_imp)
        } else if v == 5 {
            Some(ResponseCode::refused)
        } else if v == 6 {
            Some(ResponseCode::no_data)
        } else {
            None
        }
    }

    /// The response code for a wire value, `None` when out of range.
    pub fn from_num(v: u16) -> (r: Option<ResponseCode>)
        ensures
            r == ResponseCode::spec_from_num(v),
    {
        match v {
            0 => Some(ResponseCode::no_error),
            1 => Some(ResponseCode::format_err),
            2 => Some(ResponseCode::serv_fail),
            3 => Some(ResponseCode::nx_domain),
            4 => Some(ResponseCode::not_imp),
            5 => Some(ResponseCode::refused),
            6 => Some(ResponseCode::no_data),
            _ => None,
        }
    }
}

/// The fixed 12-byte header. `opcode` carries four bits and
/// `reserved` three; `wf` holds those bounds.
#[derive(Clone, Copy, Debug, PartialEq, Eq, Structural)]
pub struct Header {
    pub id: u16,
    pub qr: PacketType,
    pub opcode: u8,
    pub authoritative: bool,
    pub is_truncated: bool,
    pub recursion_desired: bool,
    pub recursion_available: bool,
    pub reserved: u8,
    pub rcode: ResponseCode,
    pub ques_c: u16,
    pub ans_c: u16,
    pub auth_c: u16,
    pub addi_c: u16,
}

/// One when the flag is set, zero when it is not.
pub open spec fn bit_of(b: bool) -> int {
    if b {
        1
    } else {
        0
    }
}

/// The 16-bit flag word, laid out MSB first as
/// `QR(1) OPCODE(4) AA(1) TC(1) RD(1) RA(1) Z(3) RCODE(4)`.
pub open spec fn flags_of(h: Header) -> u16 {
    ((h.qr.spec_to_num() as int) * 32768 + (h.opcode as int) * 2048 + bit_of(h.authoritative)
        * 1024 + bit_of(h.is_truncated) * 512 + bit_of(h.recursion_desired) * 256 + bit_of(
        h.recursion_available,
    ) * 128 + (h.reserved as int) * 16 + (h.rcode.spec_to_num() as int)) as u16
}

impl Header {
    /// The four-bit opcode and the three-bit reserved field are in
    /// range, so the flag word has a slot for each.
    pub open spec fn wf(self) -> bool {
        self.opcode < 16 && self.reserved < 8
    }

    /// The 12 wire bytes of the header.
    pub open spec fn spec_bytes(self) -> Seq<u8> {
        u16_bytes(self.id) + u16_bytes(flags_of(self)) + u16_bytes(self.ques_c) + u16_bytes(
            self.ans_c,
        ) + u16_bytes(self.auth_c) + u16_bytes(self.addi_c)
    }
}

/// The header decoded from the 12 bytes at `p`: `Overflow` past the
/// window, `MalformedHeader` for a response code over six.
pub open spec fn header_at(b: Seq<u8>, p: int) -> Result<Header, DnsError> {
    if p + 12 > 512 {
        Err(DnsError::Overflow)
    } else {
        let w = be16(b, p + 2);
        let rc = w % 16;
        if rc > 6 {
            Err(DnsError::MalformedHeader)
        } else {
            Ok(
                Header {
                    id: be16(b, p),
                    qr: PacketType::spec_from_bit(w / 32768),
                    opcode: ((w / 2048) % 16) as u8,
                    authoritative: (w / 1024) % 2 == 1,
                    is_truncated: (w / 512) % 2 == 1,
                    recursion_desired: (w / 256) % 2 == 1,
                    recursion_available: (w / 128) % 2 == 1,
                    reserved: ((w / 16) % 8) as u8,
                    rcode: ResponseCode::spec_from_num(rc)->0,
                    ques_c: be16(b, p + 4),
                    ans_c: be16(b, p + 6),
                    auth_c: be16(b, p + 8),
                    addi_c: be16(b, p + 10),
                },
            )
        }
    }
}

/// The flag word splits back into the fields it was packed from: every
/// combination of the header's fields survives the documented bit
/// layout.
pub proof fn lemma_flag_word_roundtrip(h: Header)
    requires
        h.wf(),
    ensures
        flags_of(h) / 32768 == h.qr.spec_to_num(),
        (flags_of(h) / 2048) % 16 == h.opcode,
        (flags_of(h) / 1024) % 2 == bit_of(h.authoritative),
        (flags_of(h) / 512) % 2 == bit_of(h.is_truncated),
        (flags_of(h) / 256) % 2 == bit_of(h.recursion_desired),
        (flags_of(h) / 128) % 2 == bit_of(h.recursion_available),
        (flags_of(h) / 16) % 8 == h.reserved,
        flags_of(h) % 16 == h.rcode.spec_to_num(),
{
    let q = h.qr.spec_to_num();
    let op = h.opcode as u16;
    let aa = bit_of(h.authoritative) as u16;
    let tc = bit_of(h.is_truncated) as u16;
    let rd = bit_of(h.recursion_desired) as u16;
    let ra = bit_of(h.recursion_available) as u16;
    let z = h.reserved as u16;
    let rc = h.rcode.spec_to_num();
    assert(q <= 1 && rc <= 6);
    let w = flags_of(h);
    assert(w == q * 32768 + op * 2048 + aa * 1024 + tc * 512 + rd * 256 + ra * 128 + z * 16 + rc);
    assert(w / 32768 == q && (w / 2048) % 16 == op && (w / 1024) % 2 == aa && (w / 512) % 2 == tc
        && (w / 256) % 2 == rd && (w / 128) % 2 == ra && (w / 16) % 8 == z && w % 16 == rc)
        by (bit_vector)
        requires
            q <= 1,
            op < 16,
            aa <= 1,
            tc <= 1,
            rd <= 1,
            ra <= 1,
            z < 8,
            rc <= 6,
            w == q * 32768 + op * 2048 + aa * 1024 + tc * 512 + rd * 256 + ra * 128 + z * 16 + rc,
    ;
}

impl Header {
    /// A zeroed query header.
    pub fn new() -> (r: Header)
        ensures
            r == (Header {
                id: 0,
                qr: PacketType::Query,
                opcode: 0,
                authoritative: false,
                is_truncated: false,
                recursion_desired: false,
                recursion_available: false,
                reserved: 0,
                rcode: ResponseCode::no_error,
                ques_c: 0,
                ans_c: 0,
                auth_c: 0,
                addi_c: 0,
            }),
            r.wf(),
    {
        Header {
            id: 0,
            qr: PacketType::Query,
            opcode: 0,
            authoritative: false,
            is_truncated: false,
            recursion_desired: false,
            recursion_available: false,
            reserved: 0,
            rcode: ResponseCode::no_error,
            ques_c: 0,
            ans_c: 0,
            auth_c: 0,
            addi_c: 0,
        }
    }

    /// One when the flag is set, zero when it is not.
    pub fn to_u16(&self, val: bool) -> (r: u16)
        ensures
            r as int == bit_of(val),
    {
        if val {
            1
        } else {
            0
        }
    }

    /// Reads the 12 header bytes at the cursor into `self`: the id,
    /// the flag word split into its fields, and the four counts.
    /// On failure `self` keeps its old value and the cursor stays.
    pub fn read_header(&mut self, buffer: &mut BytePacketBuffer) -> (r: Result<(), DnsError>)
        requires
            old(buffer).wf(),
        ensures
            final(buffer).wf(),
            final(buffer).bytes() == old(buffer).bytes(),
            final(buffer).written() == old(buffer).written(),
            match header_at(old(buffer).bytes(), old(buffer).cursor()) {
                Ok(h) => {
                    &&& r == Ok::<(), DnsError>(())
                    &&& *final(self) == h
                    &&& final(self).wf()
                    &&& final(buffer).cursor() == old(buffer).cursor() + 12
                },
                Err(err) => {
                    &&& r == Err::<(), DnsError>(err)
                    &&& *final(self) == *old(self)
                    &&& final(buffer).cursor() == old(buffer).cursor()
                },
            },
    {
        let start = buffer.position();
        if start > 500 {
            return Err(DnsError::Overflow);
        }
        let id = match buffer.read_u16() {
            Ok(v) => v,
            Err(e) => {
                return Err(e);
            },
        };
        let flags = match buffer.read_u16() {
            Ok(v) => v,
            Err(e) => {
                return Err(e);
            },
        };
        let ques_c = match buffer.read_u16() {
            Ok(v) => v,
            Err(e) => {
                return Err(e);
            },
        };
        let ans_c = match buffer.read_u16() {
            Ok(v) => v,
            Err(e) => {
                return Err(e);
            },
        };
        let auth_c = match buffer.read_u16() {
            Ok(v) => v,
            Err(e) => {
                return Err(e);
            },
        };
        let addi_c = match buffer.read_u16() {
            Ok(v) => v,
            Err(e) => {
                return Err(e);
            },
        };
        let rcode = match ResponseCode::from_num(flags % 16) {
            Some(rc) => rc,
            None => {
                buffer.seek(start);
                return Err(DnsError::MalformedHeader);
            },
        };
        self.id = id;
        self.qr = PacketType::from_bit(flags / 32768);
        self.opcode = ((flags / 2048) % 16) as u8;
        self.authoritative = (flags / 1024) % 2 == 1;
        self.is_truncated = (flags / 512) % 2 == 1;
        self.recursion_desired = (flags / 256) % 2 == 1;
        self.recursion_available = (flags / 128) % 2 == 1;
        self.reserved = ((flags / 16) % 8) as u8;
        self.rcode = rcode;
        self.ques_c = ques_c;
        self.ans_c = ans_c;
        self.auth_c = auth_c;
        self.addi_c = addi_c;
        Ok(())
    }

    /// Writes the 12 header bytes at the cursor: the id, each field
    /// packed into its slot of the flag word, and the four counts.
    pub fn write(&self, buffer: &mut BytePacketBuffer) -> (r: Result<(), DnsError>)
        requires
            old(buffer).wf(),
            self.wf(),
        ensures
            final(buffer).wf(),
            old(buffer).cursor() + 12 <= 512 ==> {
                &&& r == Ok::<(), DnsError>(())
                &&& final(buffer).bytes() == splice(
                    old(buffer).bytes(),
                    old(buffer).cursor(),
                    self.spec_bytes(),
                )
                &&& final(buffer).cursor() == old(buffer).cursor() + 12
                &&& final(buffer).written() == vstd::math::max(
                    old(buffer).written(),
                    final(buffer).cursor(),
                )
            },
            old(buffer).cursor() + 12 > 512 ==> r == Err::<(), DnsError>(DnsError::Overflow)
                && *final(buffer) == *old(buffer),
    {
        if buffer.position() > 500 {
            return Err(DnsError::Overflow);
        }
        let ghost b0 = buffer.bytes();
        let ghost p0 = buffer.cursor();
        let qr_num = self.qr.to_num();
        let rc_num = self.rcode.to_num();
        let flags: u16 = qr_num * 32768 + (self.opcode as u16) * 2048 + self.to_u16(
            self.authoritative,
        ) * 1024 + self.to_u16(self.is_truncated) * 512 + self.to_u16(self.recursion_desired) * 256
            + self.to_u16(self.recursion_available) * 128 + (self.reserved as u16) * 16 + rc_num;
        assert(flags == flags_of(*self));
        let r1 = buffer.write_u16(self.id);
        assert(r1.is_ok());
        let r2 = buffer.write_u16(flags);
        assert(r2.is_ok());
        let r3 = buffer.write_u16(self.ques_c);
        assert(r3.is_ok());
        let r4 = buffer.write_u16(self.ans_c);
        assert(r4.is_ok());
        let r5 = buffer.write_u16(self.auth_c);
        assert(r5.is_ok());
        let r6 = buffer.write_u16(self.addi_c);
        assert(r6.is_ok());
        proof {
            assert(buffer.bytes() =~= splice(b0, p0, self.spec_bytes()));
        }
        Ok(())
    }
}

} // verus!
