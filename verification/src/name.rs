//! The domain-name codec: length-prefixed labels on the wire, dotted
//! text in memory, compression pointers followed on read.

use vstd::prelude::*;

use crate::DnsError;
use crate::buffer::{BytePacketBuffer, splice};
use vstd::string::StringSliceAdditionalSpecFns;

verus! {

/// How many compression pointers one name may chase before it is
/// declared malformed.
pub const MAX_JUMPS: u32 = 20;

/// A dot, the label separator in the text form of a name.
pub const DOT: u8 = 46;

/// The index of the first dot of `t` at or after `i`, or `t.len()`
/// when no dot follows.
pub open spec fn label_end(t: Seq<u8>, i: int) -> int
    decreases t.len() - i,
{
    if 0 <= i < t.len() && t[i] != DOT {
        label_end(t, i + 1)
    } else {
        i
    }
}

/// `label_end` stays between `i` and `t.len()`, lands on a dot or the
/// end, and skips no dot.
pub proof fn lemma_label_end(t: Seq<u8>, i: int)
    requires
        0 <= i <= t.len(),
    ensures
        i <= label_end(t, i) <= t.len(),
        label_end(t, i) < t.len() ==> t[label_end(t, i)] == DOT,
        forall|k: int| i <= k < label_end(t, i) ==> t[k] != DOT,
    decreases t.len() - i,
{
    if 0 <= i < t.len() && t[i] != DOT {
        lemma_label_end(t, i + 1);
    }
}

/// The wire encoding of the dotted text `t` from index `i` on: each
/// non-empty label as a length byte and its bytes, then a single zero.
pub open spec fn encode_from(t: Seq<u8>, i: int) -> Seq<u8>
    decreases t.len() - i,
    via encode_from_decreases
{
    if !(0 <= i < t.len()) {
        seq![0u8]
    } else if t[i] == DOT {
        encode_from(t, i + 1)
    } else {
        let e = label_end(t, i);
        if e >= t.len() {
            seq![(e - i) as u8] + t.subrange(i, e) + seq![0u8]
        } else {
            seq![(e - i) as u8] + t.subrange(i, e) + encode_from(t, e + 1)
        }
    }
}

#[via_fn]
proof fn encode_from_decreases(t: Seq<u8>, i: int) {
    if 0 <= i < t.len() && t[i] != DOT {
        lemma_label_end(t, i);
    }
}

/// Every label of `t` from index `i` on fits in a length byte: at most
/// 63 bytes.
pub open spec fn name_ok_from(t: Seq<u8>, i: int) -> bool
    decreases t.len() - i,
    via name_ok_from_decreases
{
    if !(0 <= i < t.len()) {
        true
    } else if t[i] == DOT {
        name_ok_from(t, i + 1)
    } else {
        let e = label_end(t, i);
        e - i <= 63 && (e >= t.len() || name_ok_from(t, e + 1))
    }
}

#[via_fn]
proof fn name_ok_from_decreases(t: Seq<u8>, i: int) {
    if 0 <= i < t.len() && t[i] != DOT {
        lemma_label_end(t, i);
    }
}

/// The wire encoding of the whole dotted text `t`.
pub open spec fn encode_name(t: Seq<u8>) -> Seq<u8> {
    encode_from(t, 0)
}

/// Every label of the dotted text `t` is at most 63 bytes, so `t` can
/// be put on the wire.
pub open spec fn name_ok(t: Seq<u8>) -> bool {
    name_ok_from(t, 0)
}

/// The dotted text and end position of the wire name at `pos` in the
/// 512-byte message `b`, following at most `jumps` compression
/// pointers; `None` when the name is malformed: a length byte with
/// reserved top bits, a pointer that does not point strictly backward,
/// too many pointers, or a name that runs past the window. Every
/// decoded label carries its trailing dot, so a non-empty name ends in
/// one.
pub open spec fn name_at(b: Seq<u8>, pos: int, jumps: nat) -> Option<(Seq<u8>, int)>
    decreases jumps, 512 - pos,
{
    if pos < 0 || pos >= 512 || b.len() != 512 {
        None
    } else {
        let len = b[pos];
        if len == 0 {
            Some((Seq::empty(), pos + 1))
        } else if len >= 192 {
            if pos + 2 > 512 {
                None
            } else {
                let target = (len - 192) * 256 + b[pos + 1];
                if target >= pos || jumps == 0 {
                    None
                } else {
                    match name_at(b, target, (jumps - 1) as nat) {
                        Some(res) => Some((res.0, pos + 2)),
                        None => None,
                    }
                }
            }
        } else if len > 63 {
            None
        } else if pos + 1 + len > 512 {
            None
        } else {
            match name_at(b, pos + 1 + (len as int), jumps) {
                Some(res) => Some(
                    (b.subrange(pos + 1, pos + 1 + (len as int)) + seq![DOT] + res.0, res.1),
                ),
                None => None,
            }
        }
    }
}

/// The dotted text and end position of the wire name at `pos`, with
/// the jump bound and the 255-byte cap on the decoded text applied.
pub open spec fn qname_at(b: Seq<u8>, pos: int) -> Option<(Seq<u8>, int)> {
    match name_at(b, pos, MAX_JUMPS as nat) {
        Some(res) => if res.0.len() <= 255 {
            Some(res)
        } else {
            None
        },
        None => None,
    }
}

/// A decoded name ends after where it began and within the window.
pub proof fn lemma_name_at_bounds(b: Seq<u8>, pos: int, jumps: nat)
    requires
        name_at(b, pos, jumps) is Some,
    ensures
        pos < (name_at(b, pos, jumps)->0).1 <= 512,
    decreases jumps, 512 - pos,
{
    let len = b[pos];
    if len == 0 {
    } else if len >= 192 {
    } else {
        lemma_name_at_bounds(b, pos + 1 + (len as int), jumps);
    }
}

/// Splicing `s1` and then `s2` right after it is one splice of their
/// concatenation.
pub proof fn lemma_splice_concat(b: Seq<u8>, p: int, s1: Seq<u8>, s2: Seq<u8>)
    requires
        0 <= p,
        p + s1.len() + s2.len() <= b.len(),
    ensures
        splice(splice(b, p, s1), p + s1.len(), s2) == splice(b, p, s1 + s2),
{
    assert(splice(splice(b, p, s1), p + s1.len(), s2) =~= splice(b, p, s1 + s2));
}

/// The index right after the first label of `b` at `i`: the first dot
/// at or after `i`, or the end.
fn find_label_end(b: &[u8], i: usize) -> (r: usize)
    requires
        i <= b@.len(),
    ensures
        r as int == label_end(b@, i as int),
        i <= r <= b@.len(),
    decreases b@.len() - i,
{
    if i < b.len() && b[i] != DOT {
        find_label_end(b, i + 1)
    } else {
        i
    }
}

/// The wire length of the name whose dotted text starts at `i` in
/// `b`, with its labels checked: `MalformedName` for a label over 63
/// bytes, `Overflow` for an encoding over 512 bytes.
fn scan_from(b: &[u8], i: usize) -> (r: Result<usize, DnsError>)
    requires
        i <= b@.len(),
    ensures
        !name_ok_from(b@, i as int) ==> r == Err::<usize, DnsError>(DnsError::MalformedName),
        name_ok_from(b@, i as int) && encode_from(b@, i as int).len() > 512 ==> r == Err::<
            usize,
            DnsError,
        >(DnsError::Overflow),
        name_ok_from(b@, i as int) && encode_from(b@, i as int).len() <= 512 ==> r == Ok::<
            usize,
            DnsError,
        >(encode_from(b@, i as int).len() as usize),
    decreases b@.len() - i,
{
    if i >= b.len() {
        return Ok(1);
    }
    if b[i] == DOT {
        return scan_from(b, i + 1);
    }
    let e = find_label_end(b, i);
    let l = e - i;
    if l > 63 {
        return Err(DnsError::MalformedName);
    }
    let rest = match scan_from(b, if e < b.len() { e + 1 } else { e }) {
        Ok(v) => v,
        Err(err) => {
            return Err(err);
        },
    };
    if 1 + l + rest > 512 {
        return Err(DnsError::Overflow);
    }
    Ok(1 + l + rest)
}

/// The wire length of `val` as a name, with its labels checked:
/// `MalformedName` for a label over 63 bytes, `Overflow` for an
/// encoding over 512 bytes.
pub fn qname_encoded_len(val: &str) -> (r: Result<usize, DnsError>)
    ensures
        !name_ok(val.spec_bytes()) ==> r == Err::<usize, DnsError>(DnsError::MalformedName),
        name_ok(val.spec_bytes()) && encode_name(val.spec_bytes()).len() > 512 ==> r == Err::<
            usize,
            DnsError,
        >(DnsError::Overflow),
        name_ok(val.spec_bytes()) && encode_name(val.spec_bytes()).len() <= 512 ==> r == Ok::<
            usize,
            DnsError,
        >(encode_name(val.spec_bytes()).len() as usize),
{
    scan_from(val.as_bytes(), 0)
}

impl BytePacketBuffer {
    /// Writes the labels of `b` from `i` on and the zero terminator;
    /// the space was checked by the caller.
    fn write_labels_from(&mut self, b: &[u8], i: usize)
        requires
            old(self).wf(),
            i <= b@.len(),
            name_ok_from(b@, i as int),
            old(self).cursor() + encode_from(b@, i as int).len() <= 512,
        ensures
            final(self).wf(),
            final(self).bytes() == splice(
                old(self).bytes(),
                old(self).cursor(),
                encode_from(b@, i as int),
            ),
            final(self).cursor() == old(self).cursor() + encode_from(b@, i as int).len(),
            final(self).written() == vstd::math::max(old(self).written(), final(self).cursor()),
        decreases b@.len() - i,
    {
        let ghost b0 = self.bytes();
        let ghost p0 = self.cursor();
        let ghost w0 = self.written();
        let ghost enc = encode_from(b@, i as int);
        if i >= b.len() {
            let r = self.write_u8(0);
            assert(r.is_ok());
            proof {
                assert(self.bytes() =~= splice(b0, p0, enc));
            }
            return ;
        }
        if b[i] == DOT {
            self.write_labels_from(b, i + 1);
            return ;
        }
        let e = find_label_end(b, i);
        proof {
            lemma_label_end(b@, i as int);
        }
        let l = e - i;
        let ghost label = b@.subrange(i as int, e as int);
        let ghost rest = if e < b@.len() {
            encode_from(b@, e as int + 1)
        } else {
            seq![0u8]
        };
        proof {
            assert(enc == seq![l as u8] + label + rest);
        }
        let r = self.write_u8(l as u8);
        assert(r.is_ok());
        let mut k: usize = i;
        while k < e
            invariant
                self.wf(),
                i <= k <= e <= b@.len(),
                l == e - i,
                b0.len() == 512,
                0 <= p0,
                p0 + 1 + l <= 512,
                w0 == old(self).written(),
                0 <= w0 <= 512,
                self.cursor() == p0 + 1 + (k - i),
                self.bytes() =~= splice(b0, p0, seq![l as u8] + b@.subrange(i as int, k as int)),
                self.written() == vstd::math::max(w0 as int, self.cursor()),
            decreases e - k,
        {
            let r2 = self.write_u8(b[k]);
            assert(r2.is_ok());
            k = k + 1;
            proof {
                assert(self.bytes() =~= splice(
                    b0,
                    p0,
                    seq![l as u8] + b@.subrange(i as int, k as int),
                ));
            }
        }
        let next = if e < b.len() {
            e + 1
        } else {
            e
        };
        proof {
            assert(encode_from(b@, next as int) == rest);
            assert(name_ok_from(b@, next as int));
        }
        self.write_labels_from(b, next);
        proof {
            lemma_splice_concat(b0, p0, seq![l as u8] + label, rest);
            assert((seq![l as u8] + label) + rest =~= enc);
            assert(self.bytes() == splice(b0, p0, enc));
        }
    }

    /// Writes `val` as a wire name at the cursor: each non-empty label
    /// as a length byte and its bytes, then a zero terminator; an
    /// empty `val` writes the single zero. No compression pointers are
    /// emitted. Fails with `MalformedName` for a label over 63 bytes
    /// and with `Overflow` when the encoding does not fit, leaving the
    /// buffer as it was.
    pub fn write_qname(&mut self, val: &str) -> (r: Result<(), DnsError>)
        requires
            old(self).wf(),
        ensures
            final(self).wf(),
            !name_ok(val.spec_bytes()) ==> r == Err::<(), DnsError>(DnsError::MalformedName)
                && *final(self) == *old(self),
            name_ok(val.spec_bytes()) && old(self).cursor() + encode_name(val.spec_bytes()).len()
                > 512 ==> r == Err::<(), DnsError>(DnsError::Overflow) && *final(self) == *old(
                self,
            ),
            name_ok(val.spec_bytes()) && old(self).cursor() + encode_name(val.spec_bytes()).len()
                <= 512 ==> {
                &&& r == Ok::<(), DnsError>(())
                &&& final(self).bytes() == splice(
                    old(self).bytes(),
                    old(self).cursor(),
                    encode_name(val.spec_bytes()),
                )
                &&& final(self).cursor() == old(self).cursor() + encode_name(
                    val.spec_bytes(),
                ).len()
                &&& final(self).written() == vstd::math::max(
                    old(self).written(),
                    final(self).cursor(),
                )
            },
    {
        let b = val.as_bytes();
        let el = match scan_from(b, 0) {
            Ok(v) => v,
            Err(err) => {
                return Err(err);
            },
        };
        if self.position() > 512 - el {
            return Err(DnsError::Overflow);
        }
        self.write_labels_from(b, 0);
        Ok(())
    }

    /// The dotted text bytes of the wire name at `cpos`, chasing at
    /// most `jumps` compression pointers, and the position right after
    /// the name.
    fn read_name_at(&self, cpos: usize, jumps: u32) -> (r: Result<(Vec<u8>, usize), DnsError>)
        requires
            self.wf(),
        ensures
            match name_at(self.bytes(), cpos as int, jumps as nat) {
                Some(res) => r is Ok && (r->Ok_0).0@ == res.0 && (r->Ok_0).1 as int == res.1,
                None => r == Err::<(Vec<u8>, usize), DnsError>(DnsError::MalformedName),
            },
        decreases jumps, 512 - cpos,
    {
        let lenb = match self.read_u8_from(cpos) {
            Ok(v) => v,
            Err(_) => {
                return Err(DnsError::MalformedName);
            },
        };
        if cpos >= 512 {
            return Err(DnsError::MalformedName);
        }
        if lenb == 0 {
            Ok((Vec::new(), cpos + 1))
        } else if lenb >= 192 {
            if cpos + 2 > 512 {
                return Err(DnsError::MalformedName);
            }
            let b2 = match self.read_u8_from(cpos + 1) {
                Ok(v) => v,
                Err(_) => {
                    return Err(DnsError::MalformedName);
                },
            };
            let target = (lenb as usize - 192) * 256 + b2 as usize;
            if target >= cpos || jumps == 0 {
                return Err(DnsError::MalformedName);
            }
            match self.read_name_at(target, jumps - 1) {
                Ok(res) => Ok((res.0, cpos + 2)),
                Err(err) => Err(err),
            }
        } else if lenb > 63 {
            Err(DnsError::MalformedName)
        } else {
            let l = lenb as usize;
            if cpos + 1 + l > 512 {
                return Err(DnsError::MalformedName);
            }
            let mut v: Vec<u8> = Vec::new();
            let mut k: usize = 0;
            while k < l
                invariant
                    self.wf(),
                    k <= l,
                    l <= 63,
                    cpos + 1 + l <= 512,
                    v@ =~= self.bytes().subrange(cpos + 1, cpos + 1 + k),
                decreases l - k,
            {
                match self.read_u8_from(cpos + 1 + k) {
                    Ok(byte) => {
                        v.push(byte);
                    },
                    Err(_) => {
                        return Err(DnsError::MalformedName);
                    },
                }
                k = k + 1;
            }
            v.push(DOT);
            proof {
                assert(v@ =~= self.bytes().subrange(cpos + 1, cpos + 1 + (lenb as int)) + seq![
                    DOT,
                ]);
            }
            match self.read_name_at(cpos + 1 + l, jumps) {
                Ok(res) => {
                    let (mut restv, end) = res;
                    v.append(&mut restv);
                    Ok((v, end))
                },
                Err(err) => Err(err),
            }
        }
    }

    /// The name at `cpos` as dotted text and the position right after
    /// it, without moving the cursor. Fails with `MalformedName` for a
    /// bad label length, a pointer that does not point strictly
    /// backward, more than `MAX_JUMPS` pointers, a name over 255
    /// bytes, label text that is not UTF-8, or a name that runs past
    /// the window. The UTF-8 demand is this codec's own, so that a
    /// name can live as a string; the wire format itself puts no such
    /// rule on label bytes, and names sound in every other way are
    /// rejected when their text is not UTF-8.
    pub fn read_qname_from(&self, cpos: usize) -> (r: Result<(String, usize), DnsError>)
        requires
            self.wf(),
        ensures
            match qname_at(self.bytes(), cpos as int) {
                Some(res) => {
                    &&& vstd::utf8::valid_utf8(res.0) ==> r is Ok && vstd::utf8::encode_utf8(
                        ((r->Ok_0).0)@,
                    ) == res.0 && (r->Ok_0).1 as int == res.1
                    &&& !vstd::utf8::valid_utf8(res.0) ==> r == Err::<(String, usize), DnsError>(
                        DnsError::MalformedName,
                    )
                },
                None => r == Err::<(String, usize), DnsError>(DnsError::MalformedName),
            },
    {
        match self.read_name_at(cpos, MAX_JUMPS) {
            Ok(res) => {
                let (v, end) = res;
                if v.len() > 255 {
                    return Err(DnsError::MalformedName);
                }
                let ghost t = v@;
                match crate::buffer::bytes_to_string(v) {
                    Some(s) => Ok((s, end)),
                    None => Err(DnsError::MalformedName),
                }
            },
            Err(err) => Err(err),
        }
    }

    /// The name at the cursor as dotted text; advances the cursor past
    /// the name on success. Only the pointer bytes themselves count
    /// against the cursor: after the first pointer the name continues
    /// in the pointed-to region without moving it.
    pub fn read_qname(&mut self) -> (r: Result<String, DnsError>)
        requires
            old(self).wf(),
        ensures
            final(self).wf(),
            final(self).bytes() == old(self).bytes(),
            final(self).written() == old(self).written(),
            match qname_at(old(self).bytes(), old(self).cursor()) {
                Some(res) => {
                    &&& vstd::utf8::valid_utf8(res.0) ==> r is Ok && vstd::utf8::encode_utf8(
                        (r->Ok_0)@,
                    ) == res.0 && final(self).cursor() == res.1
                    &&& !vstd::utf8::valid_utf8(res.0) ==> r == Err::<String, DnsError>(
                        DnsError::MalformedName,
                    ) && final(self).cursor() == old(self).cursor()
                },
                None => r == Err::<String, DnsError>(DnsError::MalformedName)
                    && final(self).cursor() == old(self).cursor(),
            },
    {
        match self.read_qname_from(self.position()) {
            Ok(res) => {
                let (s, end) = res;
                proof {
                    lemma_name_at_bounds(self.bytes(), self.cursor(), MAX_JUMPS as nat);
                }
                self.seek(end);
                Ok(s)
            },
            Err(err) => Err(err),
        }
    }
}

} // verus!
