//! The 512-byte wire window: big-endian integer reads and writes over a
//! fixed buffer with a cursor and a logical size.

use vstd::prelude::*;

use crate::DnsError;
use vstd::string::StringSliceAdditionalSpecFns;
use vstd::utf8::{encode_utf8, valid_utf8};

verus! {

broadcast use vstd::string::group_string_axioms;

/// Relies on `String::from_utf8`: it succeeds exactly on UTF-8 input,
/// and the returned string is the one whose UTF-8 encoding is the
/// input bytes.
#[verifier::external_body]
pub(crate) fn bytes_to_string(v: Vec<u8>) -> (r: Option<String>)
    ensures
        r is Some <==> valid_utf8(v@),
        r is Some ==> encode_utf8((r->0)@) == v@,
{
    match String::from_utf8(v) {
        Ok(s) => Some(s),
        Err(_) => None,
    }
}

/// Big-endian value of the two bytes at `p`.
pub open spec fn be16(b: Seq<u8>, p: int) -> u16 {
    ((b[p] as int) * 256 + (b[p + 1] as int)) as u16
}

/// Big-endian value of the four bytes at `p`.
pub open spec fn be32(b: Seq<u8>, p: int) -> u32 {
    ((be16(b, p) as int) * 65536 + (be16(b, p + 2) as int)) as u32
}

/// The two big-endian bytes of `v`.
pub open spec fn u16_bytes(v: u16) -> Seq<u8> {
    seq![(v / 256) as u8, (v % 256) as u8]
}

/// The four big-endian bytes of `v`.
pub open spec fn u32_bytes(v: u32) -> Seq<u8> {
    u16_bytes((v / 65536) as u16) + u16_bytes((v % 65536) as u16)
}

/// `b` with `s` overwriting its bytes at `p`.
pub open spec fn splice(b: Seq<u8>, p: int, s: Seq<u8>) -> Seq<u8> {
    b.take(p) + s + b.skip(p + s.len())
}

/// A fixed 512-byte message window, the classic UDP DNS payload
/// ceiling, with a read/write cursor `pos` and a logical `size`: the
/// bytes written so far, or the length of the received datagram.
pub struct BytePacketBuffer {
    data: Vec<u8>,
    pos: usize,
    size: usize,
}

impl BytePacketBuffer {
    /// The full 512-byte backing store.
    pub closed spec fn bytes(&self) -> Seq<u8> {
        self.data@
    }

    /// The read/write cursor.
    pub closed spec fn cursor(&self) -> int {
        self.pos as int
    }

    /// The logical size: bytes written so far, or bytes received.
    pub closed spec fn written(&self) -> int {
        self.size as int
    }

    pub open spec fn wf(&self) -> bool {
        &&& self.bytes().len() == 512
        &&& 0 <= self.cursor() <= 512
        &&& 0 <= self.written() <= 512
    }

    /// A zeroed buffer with the cursor at the start.
    pub fn new_empty() -> (r: BytePacketBuffer)
        ensures
            r.wf(),
            r.bytes() == Seq::new(512, |i: int| 0u8),
            r.cursor() == 0,
            r.written() == 0,
    {
        let mut data: Vec<u8> = Vec::new();
        let mut i: usize = 0;
        while i < 512
            invariant
                i <= 512,
                data@ =~= Seq::new(i as nat, |j: int| 0u8),
            decreases 512 - i,
        {
            data.push(0);
            i = i + 1;
        }
        proof {
            assert(data@ =~= Seq::new(512, |i: int| 0u8));
        }
        BytePacketBuffer { data, pos: 0, size: 0 }
    }

    /// Moves the cursor back to the start; contents and size stay.
    pub fn reset_for_read(&mut self)
        requires
            old(self).wf(),
        ensures
            final(self).wf(),
            final(self).bytes() == old(self).bytes(),
            final(self).written() == old(self).written(),
            final(self).cursor() == 0,
    {
        self.pos = 0;
    }

    /// The cursor as a count of bytes.
    pub fn position(&self) -> (r: usize)
        ensures
            r as int == self.cursor(),
    {
        self.pos
    }

    /// How many bytes have been written or received.
    pub fn bytes_written(&self) -> (r: usize)
        ensures
            r as int == self.written(),
    {
        self.size
    }

    /// A copy of the first `written` bytes, ready to go out as a datagram.
    pub fn to_bytes(&self) -> (r: Vec<u8>)
        requires
            self.wf(),
        ensures
            r@ == self.bytes().take(self.written()),
    {
        let mut out: Vec<u8> = Vec::new();
        let mut i: usize = 0;
        while i < self.size
            invariant
                self.wf(),
                i <= self.size,
                out@ =~= self.bytes().take(i as int),
            decreases self.size - i,
        {
            out.push(self.data[i]);
            i = i + 1;
        }
        proof {
            assert(out@ =~= self.bytes().take(self.written()));
        }
        out
    }

    /// Fills the buffer from a received datagram: its bytes at the
    /// start, zeroes after, size its length, cursor at the start.
    /// Fails with `Overflow` when the datagram is over 512 bytes.
    pub fn load_bytes(&mut self, data: &[u8]) -> (r: Result<(), DnsError>)
        requires
            old(self).wf(),
        ensures
            final(self).wf(),
            data@.len() <= 512 ==> {
                &&& r == Ok::<(), DnsError>(())
                &&& final(self).bytes() == data@ + Seq::new((512 - data@.len()) as nat, |i: int| 0u8)
                &&& final(self).cursor() == 0
                &&& final(self).written() == data@.len()
            },
            data@.len() > 512 ==> r == Err::<(), DnsError>(DnsError::Overflow) && *final(self)
                == *old(self),
    {
        if data.len() > 512 {
            return Err(DnsError::Overflow);
        }
        let n = data.len();
        let mut fresh: Vec<u8> = Vec::new();
        let mut i: usize = 0;
        while i < n
            invariant
                i <= n,
                n == data@.len() <= 512,
                fresh@ =~= data@.take(i as int),
            decreases n - i,
        {
            fresh.push(data[i]);
            i = i + 1;
        }
        while i < 512
            invariant
                n <= i <= 512,
                n == data@.len(),
                fresh@ =~= data@ + Seq::new((i - n) as nat, |j: int| 0u8),
            decreases 512 - i,
        {
            fresh.push(0);
            i = i + 1;
        }
        self.data = fresh;
        self.pos = 0;
        self.size = n;
        Ok(())
    }
}

// Reading from the buffer. Every read is bounded by the 512-byte
// window and fails with `Overflow` instead of running past it.
impl BytePacketBuffer {
    /// The byte at `cpos`, without moving the cursor.
    pub fn read_u8_from(&self, cpos: usize) -> (r: Result<u8, DnsError>)
        requires
            self.wf(),
        ensures
            cpos + 1 <= 512 ==> r == Ok::<u8, DnsError>(self.bytes()[cpos as int]),
            cpos + 1 > 512 ==> r == Err::<u8, DnsError>(DnsError::Overflow),
    {
        if cpos < 512 {
            Ok(self.data[cpos])
        } else {
            Err(DnsError::Overflow)
        }
    }

    /// The byte at the cursor; advances the cursor on success.
    pub fn read_u8(&mut self) -> (r: Result<u8, DnsError>)
        requires
            old(self).wf(),
        ensures
            final(self).wf(),
            final(self).bytes() == old(self).bytes(),
            final(self).written() == old(self).written(),
            old(self).cursor() + 1 <= 512 ==> {
                &&& r == Ok::<u8, DnsError>(old(self).bytes()[old(self).cursor()])
                &&& final(self).cursor() == old(self).cursor() + 1
            },
            old(self).cursor() + 1 > 512 ==> {
                &&& r == Err::<u8, DnsError>(DnsError::Overflow)
                &&& final(self).cursor() == old(self).cursor()
            },
    {
        let r = self.read_u8_from(self.pos);
        if r.is_ok() {
            self.pos = self.pos + 1;
        }
        r
    }

    /// The big-endian u16 at `cpos`, without moving the cursor.
    pub fn read_u16_from(&self, cpos: usize) -> (r: Result<u16, DnsError>)
        requires
            self.wf(),
        ensures
            cpos + 2 <= 512 ==> r == Ok::<u16, DnsError>(be16(self.bytes(), cpos as int)),
            cpos + 2 > 512 ==> r == Err::<u16, DnsError>(DnsError::Overflow),
    {
        if cpos <= 510 {
            let hi = self.data[cpos];
            let lo = self.data[cpos + 1];
            Ok((hi as u16) * 256 + (lo as u16))
        } else {
            Err(DnsError::Overflow)
        }
    }

    /// The big-endian u16 at the cursor; advances the cursor on success.
    pub fn read_u16(&mut self) -> (r: Result<u16, DnsError>)
        requires
            old(self).wf(),
        ensures
            final(self).wf(),
            final(self).bytes() == old(self).bytes(),
            final(self).written() == old(self).written(),
            old(self).cursor() + 2 <= 512 ==> {
                &&& r == Ok::<u16, DnsError>(be16(old(self).bytes(), old(self).cursor()))
                &&& final(self).cursor() == old(self).cursor() + 2
            },
            old(self).cursor() + 2 > 512 ==> {
                &&& r == Err::<u16, DnsError>(DnsError::Overflow)
                &&& final(self).cursor() == old(self).cursor()
            },
    {
        let r = self.read_u16_from(self.pos);
        if r.is_ok() {
            self.pos = self.pos + 2;
        }
        r
    }

    /// The big-endian u32 at the cursor; advances the cursor on success.
    pub fn read_u32(&mut self) -> (r: Result<u32, DnsError>)
        requires
            old(self).wf(),
        ensures
            final(self).wf(),
            final(self).bytes() == old(self).bytes(),
            final(self).written() == old(self).written(),
            old(self).cursor() + 4 <= 512 ==> {
                &&& r == Ok::<u32, DnsError>(be32(old(self).bytes(), old(self).cursor()))
                &&& final(self).cursor() == old(self).cursor() + 4
            },
            old(self).cursor() + 4 > 512 ==> {
                &&& r == Err::<u32, DnsError>(DnsError::Overflow)
                &&& final(self).cursor() == old(self).cursor()
            },
    {
        if self.pos + 4 <= 512 {
            let hi = match self.read_u16() {
                Ok(v) => v,
                Err(e) => {
                    return Err(e);
                },
            };
            let lo = match self.read_u16() {
                Ok(v) => v,
                Err(e) => {
                    return Err(e);
                },
            };
            Ok((hi as u32) * 65536 + (lo as u32))
        } else {
            Err(DnsError::Overflow)
        }
    }
}

// Writing to the buffer. Writes are all-or-nothing: a write that does
// not fit leaves the buffer as it was and returns `Overflow`.
impl BytePacketBuffer {
    /// Writes one byte at the cursor; advances the cursor and extends
    /// the size on success.
    pub fn write_u8(&mut self, val: u8) -> (r: Result<(), DnsError>)
        requires
            old(self).wf(),
        ensures
            final(self).wf(),
            old(self).cursor() + 1 <= 512 ==> {
                &&& r == Ok::<(), DnsError>(())
                &&& final(self).bytes() == splice(old(self).bytes(), old(self).cursor(), seq![val])
                &&& final(self).cursor() == old(self).cursor() + 1
                &&& final(self).written() == vstd::math::max(
                    old(self).written(),
                    old(self).cursor() + 1,
                )
            },
            old(self).cursor() + 1 > 512 ==> {
                &&& r == Err::<(), DnsError>(DnsError::Overflow)
                &&& *final(self) == *old(self)
            },
    {
        if self.pos < 512 {
            self.data[self.pos] = val;
            self.pos = self.pos + 1;
            if self.pos > self.size {
                self.size = self.pos;
            }
            proof {
                assert(self.bytes() =~= splice(
                    old(self).bytes(),
                    old(self).cursor(),
                    seq![val],
                ));
            }
            Ok(())
        } else {
            Err(DnsError::Overflow)
        }
    }

    /// Writes a big-endian u16 at the cursor.
    pub fn write_u16(&mut self, val: u16) -> (r: Result<(), DnsError>)
        requires
            old(self).wf(),
        ensures
            final(self).wf(),
            old(self).cursor() + 2 <= 512 ==> {
                &&& r == Ok::<(), DnsError>(())
                &&& final(self).bytes() == splice(
                    old(self).bytes(),
                    old(self).cursor(),
                    u16_bytes(val),
                )
                &&& final(self).cursor() == old(self).cursor() + 2
                &&& final(self).written() == vstd::math::max(
                    old(self).written(),
                    old(self).cursor() + 2,
                )
            },
            old(self).cursor() + 2 > 512 ==> {
                &&& r == Err::<(), DnsError>(DnsError::Overflow)
                &&& *final(self) == *old(self)
            },
    {
        if self.pos + 2 <= 512 {
            let ghost b0 = self.bytes();
            let ghost p = self.cursor();
            let first: u8 = (val / 256) as u8;
            let second: u8 = (val % 256) as u8;
            let r1 = self.write_u8(first);
            assert(r1.is_ok());
            let r2 = self.write_u8(second);
            assert(r2.is_ok());
            proof {
                assert(self.bytes() =~= splice(b0, p, u16_bytes(val)));
            }
            Ok(())
        } else {
            Err(DnsError::Overflow)
        }
    }

    /// Writes a big-endian u32 at the cursor.
    pub fn write_u32(&mut self, val: u32) -> (r: Result<(), DnsError>)
        requires
            old(self).wf(),
        ensures
            final(self).wf(),
            old(self).cursor() + 4 <= 512 ==> {
                &&& r == Ok::<(), DnsError>(())
                &&& final(self).bytes() == splice(
                    old(self).bytes(),
                    old(self).cursor(),
                    u32_bytes(val),
                )
                &&& final(self).cursor() == old(self).cursor() + 4
                &&& final(self).written() == vstd::math::max(
                    old(self).written(),
                    old(self).cursor() + 4,
                )
            },
            old(self).cursor() + 4 > 512 ==> {
                &&& r == Err::<(), DnsError>(DnsError::Overflow)
                &&& *final(self) == *old(self)
            },
    {
        if self.pos + 4 <= 512 {
            let ghost b0 = self.bytes();
            let ghost p = self.cursor();
            let first: u16 = (val / 65536) as u16;
            let second: u16 = (val % 65536) as u16;
            let r1 = self.write_u16(first);
            assert(r1.is_ok());
            let r2 = self.write_u16(second);
            assert(r2.is_ok());
            proof {
                assert(self.bytes() =~= splice(b0, p, u32_bytes(val)));
            }
            Ok(())
        } else {
            Err(DnsError::Overflow)
        }
    }

    /// Overwrites the two bytes at `p` with a big-endian u16, leaving
    /// the cursor and the size alone; used to back-patch a reserved
    /// record-length slot.
    pub fn set_u16(&mut self, val: u16, pos: usize) -> (r: Result<(), DnsError>)
        requires
            old(self).wf(),
        ensures
            final(self).wf(),
            final(self).cursor() == old(self).cursor(),
            final(self).written() == old(self).written(),
            pos + 2 <= 512 ==> r == Ok::<(), DnsError>(()) && final(self).bytes() == splice(
                old(self).bytes(),
                pos as int,
                u16_bytes(val),
            ),
            pos + 2 > 512 ==> r == Err::<(), DnsError>(DnsError::Overflow) && *final(self) == *old(
                self,
            ),
    {
        if pos <= 510 {
            self.data[pos] = (val / 256) as u8;
            self.data[pos + 1] = (val % 256) as u8;
            proof {
                assert(self.bytes() =~= splice(old(self).bytes(), pos as int, u16_bytes(val)));
            }
            Ok(())
        } else {
            Err(DnsError::Overflow)
        }
    }
}

// Text in the buffer: a string goes in as its UTF-8 bytes and comes
// back out as the string those bytes spell.
impl BytePacketBuffer {
    /// Moves the cursor to `p`.
    pub(crate) fn seek(&mut self, p: usize)
        requires
            old(self).wf(),
            p <= 512,
        ensures
            final(self).wf(),
            final(self).bytes() == old(self).bytes(),
            final(self).written() == old(self).written(),
            final(self).cursor() == p,
    {
        self.pos = p;
    }

    /// Writes the UTF-8 bytes of `val` at the cursor.
    pub fn write_string(&mut self, val: &str) -> (r: Result<(), DnsError>)
        requires
            old(self).wf(),
        ensures
            final(self).wf(),
            old(self).cursor() + val.spec_bytes().len() <= 512 ==> {
                &&& r == Ok::<(), DnsError>(())
                &&& final(self).bytes() == splice(
                    old(self).bytes(),
                    old(self).cursor(),
                    val.spec_bytes(),
                )
                &&& final(self).cursor() == old(self).cursor() + val.spec_bytes().len()
                &&& final(self).written() == if val.spec_bytes().len() == 0 {
                    old(self).written()
                } else {
                    vstd::math::max(old(self).written(), final(self).cursor())
                }
            },
            old(self).cursor() + val.spec_bytes().len() > 512 ==> {
                &&& r == Err::<(), DnsError>(DnsError::Overflow)
                &&& *final(self) == *old(self)
            },
    {
        let b = val.as_bytes();
        let n = b.len();
        if n > 512 || self.pos > 512 - n {
            return Err(DnsError::Overflow);
        }
        let ghost b0 = self.bytes();
        let ghost p0 = self.cursor();
        let ghost w0 = self.written();
        let mut i: usize = 0;
        while i < n
            invariant
                self.wf(),
                i <= n,
                n == b@.len(),
                b@ == val.spec_bytes(),
                p0 + n <= 512,
                0 <= p0 <= 512,
                0 <= w0 <= 512,
                b0.len() == 512,
                self.cursor() == p0 + i,
                self.bytes() =~= splice(b0, p0, b@.take(i as int)),
                self.written() == if i == 0 {
                    w0
                } else {
                    vstd::math::max(w0 as int, p0 + i)
                },
            decreases n - i,
        {
            let r = self.write_u8(b[i]);
            assert(r.is_ok());
            i = i + 1;
            proof {
                assert(self.bytes() =~= splice(b0, p0, b@.take(i as int)));
            }
        }
        proof {
            assert(b@.take(n as int) =~= b@);
        }
        Ok(())
    }

    /// The `length` bytes at `cpos` as a string, without moving the
    /// cursor. Fails with `Overflow` past the window and with
    /// `MalformedName` when the bytes are not UTF-8.
    pub fn read_string_from(&self, length: u8, cpos: usize) -> (r: Result<String, DnsError>)
        requires
            self.wf(),
        ensures
            cpos + length > 512 ==> r == Err::<String, DnsError>(DnsError::Overflow),
            cpos + length <= 512 ==> {
                let sub = self.bytes().subrange(cpos as int, cpos + length);
                &&& valid_utf8(sub) ==> r is Ok && encode_utf8((r->Ok_0)@) == sub
                &&& !valid_utf8(sub) ==> r == Err::<String, DnsError>(DnsError::MalformedName)
            },
    {
        let l = length as usize;
        if cpos > 512 - l {
            return Err(DnsError::Overflow);
        }
        let mut v: Vec<u8> = Vec::new();
        let mut i: usize = 0;
        while i < l
            invariant
                self.wf(),
                i <= l,
                l <= 255,
                cpos + l <= 512,
                v@ =~= self.bytes().subrange(cpos as int, cpos + i),
            decreases l - i,
        {
            match self.read_u8_from(cpos + i) {
                Ok(byte) => {
                    v.push(byte);
                },
                Err(_) => {
                    return Err(DnsError::Overflow);
                },
            }
            i = i + 1;
        }
        proof {
            assert(v@ =~= self.bytes().subrange(cpos as int, cpos + length));
        }
        match bytes_to_string(v) {
            Some(s) => Ok(s),
            None => Err(DnsError::MalformedName),
        }
    }

    /// The `length` bytes at the cursor as a string; advances the
    /// cursor on success.
    pub fn read_string(&mut self, length: u8) -> (r: Result<String, DnsError>)
        requires
            old(self).wf(),
        ensures
            final(self).wf(),
            final(self).bytes() == old(self).bytes(),
            final(self).written() == old(self).written(),
            old(self).cursor() + length > 512 ==> r == Err::<String, DnsError>(DnsError::Overflow)
                && final(self).cursor() == old(self).cursor(),
            old(self).cursor() + length <= 512 ==> {
                let sub = old(self).bytes().subrange(
                    old(self).cursor(),
                    old(self).cursor() + length,
                );
                &&& valid_utf8(sub) ==> r is Ok && encode_utf8((r->Ok_0)@) == sub
                    && final(self).cursor() == old(self).cursor() + length
                &&& !valid_utf8(sub) ==> r == Err::<String, DnsError>(DnsError::MalformedName)
                    && final(self).cursor() == old(self).cursor()
            },
    {
        let r = self.read_string_from(length, self.pos);
        if r.is_ok() {
            self.pos = self.pos + length as usize;
        }
        r
    }
}

} // verus!

