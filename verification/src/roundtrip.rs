//! The codec's round-trip laws: what was written at a position is what
//! a read at that position yields, from single integers up to whole
//! messages.

use vstd::prelude::*;

use crate::buffer::{be16, be32, splice, u16_bytes, u32_bytes};
use crate::name::{DOT, encode_from, encode_name, label_end, lemma_label_end, name_at, name_ok,
    name_ok_from, qname_at};

verus! {

/// A byte written at `p` is read back at `p`.
pub proof fn lemma_write_read_u8(b: Seq<u8>, p: int, v: u8)
    requires
        b.len() == 512,
        0 <= p,
        p + 1 <= 512,
    ensures
        splice(b, p, seq![v])[p] == v,
{
}

/// A big-endian u16 written at `p` is read back at `p`.
pub proof fn lemma_write_read_u16(b: Seq<u8>, p: int, v: u16)
    requires
        b.len() == 512,
        0 <= p,
        p + 2 <= 512,
    ensures
        be16(splice(b, p, u16_bytes(v)), p) == v,
{
    let s = splice(b, p, u16_bytes(v));
    assert(s[p] == v / 256 && s[p + 1] == v % 256);
}

/// A big-endian u32 written at `p` is read back at `p`.
pub proof fn lemma_write_read_u32(b: Seq<u8>, p: int, v: u32)
    requires
        b.len() == 512,
        0 <= p,
        p + 4 <= 512,
    ensures
        be32(splice(b, p, u32_bytes(v)), p) == v,
{
    let s = splice(b, p, u32_bytes(v));
    let hi = (v / 65536) as u16;
    let lo = (v % 65536) as u16;
    assert(s[p] == hi / 256 && s[p + 1] == hi % 256 && s[p + 2] == lo / 256 && s[p + 3] == lo
        % 256);
    assert(be16(s, p) == hi && be16(s, p + 2) == lo);
}

/// `s` stands at `p` in `b`.
pub open spec fn aligned(b: Seq<u8>, p: int, s: Seq<u8>) -> bool {
    &&& 0 <= p
    &&& p + s.len() <= b.len()
    &&& b.subrange(p, p + s.len()) == s
}

/// The dotted text of a name as the decoder returns it: at most 255
/// bytes, every label 1 to 63 bytes with its trailing dot, so the text
/// is empty or ends in a dot, and no label is empty.
pub open spec fn wf_text(t: Seq<u8>) -> bool {
    &&& t.len() <= 255
    &&& name_ok(t)
    &&& t.len() > 0 ==> t.last() == DOT
    &&& forall|i: int| 0 <= i < t.len() && #[trigger] t[i] == DOT ==> i > 0 && t[i - 1] != DOT
}

/// Decoding the encoding of the text from a label start `i` gives the
/// suffix back, with the position right after the encoding.
proof fn lemma_name_roundtrip_from(b: Seq<u8>, p: int, t: Seq<u8>, i: int, jumps: nat)
    requires
        b.len() == 512,
        wf_text(t),
        0 <= i <= t.len(),
        i < t.len() ==> t[i] != DOT,
        aligned(b, p, encode_from(t, i)),
        name_ok_from(t, i),
    ensures
        name_at(b, p, jumps) == Some((t.skip(i), p + encode_from(t, i).len())),
    decreases t.len() - i,
{
    let enc = encode_from(t, i);
    if i >= t.len() {
        assert(b[p] == enc[0]);
        assert(t.skip(i) =~= Seq::<u8>::empty());
    } else {
        lemma_label_end(t, i);
        let e = label_end(t, i);
        let l = e - i;
        assert(e < t.len()) by {
            if e == t.len() {
                assert(t.last() == DOT);
                assert(t[e - 1] == t.last());
            }
        }
        assert(t[e] == DOT);
        let next = e + 1;
        let rest = encode_from(t, next);
        assert(enc == seq![l as u8] + t.subrange(i, e) + rest);
        assert(b[p] == enc[0]);
        assert(enc[0] == l as u8);
        assert(1 <= l <= 63);
        // the label bytes stand right after the length byte
        assert(b.subrange(p + 1, p + 1 + l) =~= t.subrange(i, e)) by {
            assert forall|k: int| 0 <= k < l implies b.subrange(p + 1, p + 1 + l)[k] == t.subrange(
                i,
                e,
            )[k] by {
                assert(b.subrange(p, p + enc.len())[1 + k] == enc[1 + k]);
            }
        }
        // the rest of the encoding stands right after the label
        assert(aligned(b, p + 1 + l, rest)) by {
            assert(b.subrange(p + 1 + l, p + 1 + l + rest.len()) =~= rest) by {
                assert forall|k: int| 0 <= k < rest.len() implies b.subrange(
                    p + 1 + l,
                    p + 1 + l + rest.len(),
                )[k] == rest[k] by {
                    assert(b.subrange(p, p + enc.len())[1 + l + k] == enc[1 + l + k]);
                    assert(enc[1 + l + k] == rest[k]);
                }
            }
        }
        if next < t.len() {
            assert(t[next] != DOT) by {
                assert(t[e] == DOT);
            }
        }
        lemma_name_roundtrip_from(b, p + 1 + l, t, next, jumps);
        assert(t.subrange(i, e) + seq![DOT] + t.skip(next) =~= t.skip(i));
        assert(name_at(b, p, jumps) == Some(
            (t.subrange(i, e) + seq![DOT] + t.skip(next), p + 1 + l + rest.len()),
        ));
    }
}

/// Decoding the encoding of a well-formed dotted text gives the text
/// back, with the position right after the encoding: the decoder owes
/// success to every name the encoder can emit.
pub proof fn lemma_qname_roundtrip(b: Seq<u8>, p: int, t: Seq<u8>)
    requires
        b.len() == 512,
        wf_text(t),
        aligned(b, p, encode_name(t)),
    ensures
        qname_at(b, p) == Some((t, p + encode_name(t).len())),
{
    if t.len() > 0 {
        assert(t[0] != DOT);
    }
    lemma_name_roundtrip_from(b, p, t, 0, crate::name::MAX_JUMPS as nat);
    assert(t.skip(0) =~= t);
}

/// What stands at `p` as a concatenation stands there piece by piece.
proof fn lemma_aligned_split(b: Seq<u8>, p: int, s1: Seq<u8>, s2: Seq<u8>)
    requires
        aligned(b, p, s1 + s2),
    ensures
        aligned(b, p, s1),
        aligned(b, p + s1.len(), s2),
{
    assert(b.subrange(p, p + s1.len()) =~= s1) by {
        assert forall|k: int| 0 <= k < s1.len() implies b.subrange(p, p + s1.len())[k] == s1[k] by {
            assert(b.subrange(p, p + (s1 + s2).len())[k] == (s1 + s2)[k]);
        }
    }
    assert(b.subrange(p + s1.len(), p + s1.len() + s2.len()) =~= s2) by {
        assert forall|k: int| 0 <= k < s2.len() implies b.subrange(
            p + s1.len(),
            p + s1.len() + s2.len(),
        )[k] == s2[k] by {
            assert(b.subrange(p, p + (s1 + s2).len())[s1.len() + k] == (s1 + s2)[s1.len() + k]);
        }
    }
}

/// A u16 whose bytes stand at `p` is read back at `p`.
proof fn lemma_be16_aligned(b: Seq<u8>, p: int, v: u16)
    requires
        aligned(b, p, u16_bytes(v)),
    ensures
        be16(b, p) == v,
{
    assert(b[p] == v / 256 && b[p + 1] == v % 256) by {
        assert(b.subrange(p, p + 2)[0] == u16_bytes(v)[0]);
        assert(b.subrange(p, p + 2)[1] == u16_bytes(v)[1]);
    }
}

/// A u32 whose bytes stand at `p` is read back at `p`.
proof fn lemma_be32_aligned(b: Seq<u8>, p: int, v: u32)
    requires
        aligned(b, p, u32_bytes(v)),
    ensures
        be32(b, p) == v,
{
    lemma_aligned_split(b, p, u16_bytes((v / 65536) as u16), u16_bytes((v % 65536) as u16));
    lemma_be16_aligned(b, p, (v / 65536) as u16);
    lemma_be16_aligned(b, p + 2, (v % 65536) as u16);
}

/// A question the codec preserves: a well-formed UTF-8 name and a type
/// whose code maps back to it.
pub open spec fn wf_question(q: crate::packet::QuestionV) -> bool {
    &&& wf_text(q.name)
    &&& vstd::utf8::valid_utf8(q.name)
    &&& crate::packet::QueryType::spec_from_num(q.qtype.spec_to_num()) == q.qtype
}

/// Decoding the encoding of a well-formed question gives it back.
pub proof fn lemma_question_roundtrip(b: Seq<u8>, p: int, q: crate::packet::QuestionV)
    requires
        b.len() == 512,
        wf_question(q),
        aligned(b, p, crate::packet::enc_question(q)),
    ensures
        crate::packet::question_at(b, p) == Ok::<(crate::packet::QuestionV, int), crate::DnsError>(
            (q, p + crate::packet::enc_question(q).len()),
        ),
{
    let nm = encode_name(q.name);
    let ty = u16_bytes(q.qtype.spec_to_num());
    let cl = u16_bytes(q.class);
    assert(crate::packet::enc_question(q) == nm + ty + cl);
    lemma_aligned_split(b, p, nm + ty, cl);
    lemma_aligned_split(b, p, nm, ty);
    lemma_qname_roundtrip(b, p, q.name);
    let e = p + nm.len();
    lemma_be16_aligned(b, e, q.qtype.spec_to_num());
    lemma_be16_aligned(b, e + 2, q.class);
}

/// A record the codec preserves: well-formed UTF-8 names, an address
/// of the right width. An `UNKNOWN` record round-trips only with a
/// zero length, since its rdata was skipped, and only under a type
/// code no recognised kind claims.
pub open spec fn wf_record(r: crate::packet::RecordV) -> bool {
    &&& wf_text(crate::packet::rec_name(r))
    &&& vstd::utf8::valid_utf8(crate::packet::rec_name(r))
    &&& match r {
        crate::packet::RecordV::A { ip, .. } => ip.len() == 4,
        crate::packet::RecordV::NS { host, .. } => wf_text(host) && vstd::utf8::valid_utf8(host),
        crate::packet::RecordV::CNAME { host, .. } => wf_text(host) && vstd::utf8::valid_utf8(
            host,
        ),
        crate::packet::RecordV::MX { host, .. } => wf_text(host) && vstd::utf8::valid_utf8(host),
        crate::packet::RecordV::AAAA { ip, .. } => ip.len() == 8,
        crate::packet::RecordV::UNKNOWN { rtype, length, .. } => length == 0 && rtype != 1
            && rtype != 2 && rtype != 5 && rtype != 15 && rtype != 28,
    }
}

/// Decoding the encoding of a well-formed record gives it back.
pub proof fn lemma_record_roundtrip(b: Seq<u8>, p: int, r: crate::packet::RecordV)
    requires
        b.len() == 512,
        wf_record(r),
        aligned(b, p, crate::packet::enc_record(r)),
    ensures
        crate::packet::record_at(b, p) == Ok::<(crate::packet::RecordV, int), crate::DnsError>(
            (r, p + crate::packet::enc_record(r).len()),
        ),
{
    let nm = encode_name(crate::packet::rec_name(r));
    let ty = u16_bytes(crate::packet::rec_rtype(r));
    let cl = u16_bytes(crate::packet::rec_class(r));
    let tt = u32_bytes(crate::packet::rec_ttl(r));
    let ln = u16_bytes(crate::packet::rec_rdlength(r));
    let rd = crate::packet::enc_rdata(r);
    assert(crate::packet::enc_record(r) == nm + ty + cl + tt + ln + rd);
    lemma_aligned_split(b, p, nm + ty + cl + tt + ln, rd);
    lemma_aligned_split(b, p, nm + ty + cl + tt, ln);
    lemma_aligned_split(b, p, nm + ty + cl, tt);
    lemma_aligned_split(b, p, nm + ty, cl);
    lemma_aligned_split(b, p, nm, ty);
    lemma_qname_roundtrip(b, p, crate::packet::rec_name(r));
    let e = p + nm.len();
    lemma_be16_aligned(b, e, crate::packet::rec_rtype(r));
    lemma_be16_aligned(b, e + 2, crate::packet::rec_class(r));
    lemma_be32_aligned(b, e + 4, crate::packet::rec_ttl(r));
    lemma_be16_aligned(b, e + 8, crate::packet::rec_rdlength(r));
    let d = e + 10;
    match r {
        crate::packet::RecordV::A { ip, .. } => {
            assert(b.subrange(d, d + 4) =~= ip);
        },
        crate::packet::RecordV::NS { host, .. } => {
            lemma_qname_roundtrip(b, d, host);
        },
        crate::packet::RecordV::CNAME { host, .. } => {
            lemma_qname_roundtrip(b, d, host);
        },
        crate::packet::RecordV::MX { priority, host, .. } => {
            lemma_aligned_split(b, d, u16_bytes(priority), encode_name(host));
            lemma_be16_aligned(b, d, priority);
            lemma_qname_roundtrip(b, d + 2, host);
        },
        crate::packet::RecordV::AAAA { ip, .. } => {
            let w = |k: int| u16_bytes(ip[k]);
            assert(rd == w(0) + w(1) + w(2) + w(3) + w(4) + w(5) + w(6) + w(7));
            lemma_aligned_split(b, d, w(0) + w(1) + w(2) + w(3) + w(4) + w(5) + w(6), w(7));
            lemma_aligned_split(b, d, w(0) + w(1) + w(2) + w(3) + w(4) + w(5), w(6));
            lemma_aligned_split(b, d, w(0) + w(1) + w(2) + w(3) + w(4), w(5));
            lemma_aligned_split(b, d, w(0) + w(1) + w(2) + w(3), w(4));
            lemma_aligned_split(b, d, w(0) + w(1) + w(2), w(3));
            lemma_aligned_split(b, d, w(0) + w(1), w(2));
            lemma_aligned_split(b, d, w(0), w(1));
            lemma_be16_aligned(b, d, ip[0]);
            lemma_be16_aligned(b, d + 2, ip[1]);
            lemma_be16_aligned(b, d + 4, ip[2]);
            lemma_be16_aligned(b, d + 6, ip[3]);
            lemma_be16_aligned(b, d + 8, ip[4]);
            lemma_be16_aligned(b, d + 10, ip[5]);
            lemma_be16_aligned(b, d + 12, ip[6]);
            lemma_be16_aligned(b, d + 14, ip[7]);
            assert(seq![
                be16(b, d),
                be16(b, d + 2),
                be16(b, d + 4),
                be16(b, d + 6),
                be16(b, d + 8),
                be16(b, d + 10),
                be16(b, d + 12),
                be16(b, d + 14),
            ] =~= ip);
        },
        crate::packet::RecordV::UNKNOWN { .. } => {},
    }
}

/// Decoding the encoding of a well-formed header gives it back.
pub proof fn lemma_header_roundtrip(b: Seq<u8>, p: int, h: crate::header::Header)
    requires
        b.len() == 512,
        h.wf(),
        aligned(b, p, h.spec_bytes()),
    ensures
        crate::header::header_at(b, p) == Ok::<crate::header::Header, crate::DnsError>(h),
{
    let w = crate::header::flags_of(h);
    assert(h.spec_bytes() == u16_bytes(h.id) + u16_bytes(w) + u16_bytes(h.ques_c) + u16_bytes(
        h.ans_c,
    ) + u16_bytes(h.auth_c) + u16_bytes(h.addi_c));
    lemma_aligned_split(
        b,
        p,
        u16_bytes(h.id) + u16_bytes(w) + u16_bytes(h.ques_c) + u16_bytes(h.ans_c) + u16_bytes(
            h.auth_c,
        ),
        u16_bytes(h.addi_c),
    );
    lemma_aligned_split(
        b,
        p,
        u16_bytes(h.id) + u16_bytes(w) + u16_bytes(h.ques_c) + u16_bytes(h.ans_c),
        u16_bytes(h.auth_c),
    );
    lemma_aligned_split(
        b,
        p,
        u16_bytes(h.id) + u16_bytes(w) + u16_bytes(h.ques_c),
        u16_bytes(h.ans_c),
    );
    lemma_aligned_split(b, p, u16_bytes(h.id) + u16_bytes(w), u16_bytes(h.ques_c));
    lemma_aligned_split(b, p, u16_bytes(h.id), u16_bytes(w));
    lemma_be16_aligned(b, p, h.id);
    lemma_be16_aligned(b, p + 2, w);
    lemma_be16_aligned(b, p + 4, h.ques_c);
    lemma_be16_aligned(b, p + 6, h.ans_c);
    lemma_be16_aligned(b, p + 8, h.auth_c);
    lemma_be16_aligned(b, p + 10, h.addi_c);
    crate::header::lemma_flag_word_roundtrip(h);
}

/// Every question of the run is well-formed.
pub open spec fn wf_questions(qs: Seq<crate::packet::QuestionV>) -> bool {
    forall|i: int| 0 <= i < qs.len() ==> wf_question(#[trigger] qs[i])
}

/// Every record of the run is well-formed.
pub open spec fn wf_records(rs: Seq<crate::packet::RecordV>) -> bool {
    forall|i: int| 0 <= i < rs.len() ==> wf_record(#[trigger] rs[i])
}

/// Decoding the encoding of a run of well-formed questions gives the
/// run back.
proof fn lemma_questions_roundtrip(b: Seq<u8>, p: int, qs: Seq<crate::packet::QuestionV>)
    requires
        b.len() == 512,
        wf_questions(qs),
        aligned(b, p, crate::packet::enc_questions(qs)),
    ensures
        crate::packet::questions_at(b, p, qs.len() as nat) == Ok::<
            (Seq<crate::packet::QuestionV>, int),
            crate::DnsError,
        >((qs, p + crate::packet::enc_questions(qs).len())),
    decreases qs.len(),
{
    if qs.len() == 0 {
        assert(qs =~= Seq::<crate::packet::QuestionV>::empty());
    } else {
        let first = crate::packet::enc_question(qs[0]);
        let rest = crate::packet::enc_questions(qs.drop_first());
        lemma_aligned_split(b, p, first, rest);
        lemma_question_roundtrip(b, p, qs[0]);
        lemma_questions_roundtrip(b, p + first.len(), qs.drop_first());
        assert(seq![qs[0]] + qs.drop_first() =~= qs);
    }
}

/// Decoding the encoding of a run of well-formed records gives the
/// run back.
proof fn lemma_records_roundtrip(b: Seq<u8>, p: int, rs: Seq<crate::packet::RecordV>)
    requires
        b.len() == 512,
        wf_records(rs),
        aligned(b, p, crate::packet::enc_records(rs)),
    ensures
        crate::packet::records_at(b, p, rs.len() as nat) == Ok::<
            (Seq<crate::packet::RecordV>, int),
            crate::DnsError,
        >((rs, p + crate::packet::enc_records(rs).len())),
    decreases rs.len(),
{
    if rs.len() == 0 {
        assert(rs =~= Seq::<crate::packet::RecordV>::empty());
    } else {
        let first = crate::packet::enc_record(rs[0]);
        let rest = crate::packet::enc_records(rs.drop_first());
        lemma_aligned_split(b, p, first, rest);
        lemma_record_roundtrip(b, p, rs[0]);
        lemma_records_roundtrip(b, p + first.len(), rs.drop_first());
        assert(seq![rs[0]] + rs.drop_first() =~= rs);
    }
}

/// A message the codec preserves: a well-formed header whose counts
/// equal the section lengths, and well-formed questions and records
/// throughout.
pub open spec fn wf_packet(pv: crate::packet::PacketV) -> bool {
    &&& pv.header.wf()
    &&& pv.header.ques_c as int == pv.questions.len()
    &&& pv.header.ans_c as int == pv.answers.len()
    &&& pv.header.auth_c as int == pv.authority.len()
    &&& pv.header.addi_c as int == pv.additional.len()
    &&& wf_questions(pv.questions)
    &&& wf_records(pv.answers)
    &&& wf_records(pv.authority)
    &&& wf_records(pv.additional)
}

/// Decoding the encoding of a well-formed message gives it back, with
/// the position right after the encoding: for every message the
/// encoder can emit into the window, the decoder owes success and
/// returns an equal message.
pub proof fn lemma_packet_roundtrip(b: Seq<u8>, pv: crate::packet::PacketV)
    requires
        b.len() == 512,
        wf_packet(pv),
        aligned(b, 0, crate::packet::enc_packet(pv)),
    ensures
        crate::packet::packet_at(b) == Ok::<(crate::packet::PacketV, int), crate::DnsError>(
            (pv, crate::packet::enc_packet(pv).len() as int),
        ),
        crate::packet::packet_decode(b, crate::packet::enc_packet(pv).len() as int) == Ok::<
            crate::packet::PacketV,
            crate::DnsError,
        >(pv),
{
    let hb = pv.header.spec_bytes();
    let eq = crate::packet::enc_questions(pv.questions);
    let ea = crate::packet::enc_records(pv.answers);
    let eu = crate::packet::enc_records(pv.authority);
    let ed = crate::packet::enc_records(pv.additional);
    assert(crate::packet::enc_packet(pv) == hb + eq + ea + eu + ed);
    lemma_aligned_split(b, 0, hb + eq + ea + eu, ed);
    lemma_aligned_split(b, 0, hb + eq + ea, eu);
    lemma_aligned_split(b, 0, hb + eq, ea);
    lemma_aligned_split(b, 0, hb, eq);
    lemma_header_roundtrip(b, 0, pv.header);
    assert(hb.len() == 12);
    lemma_questions_roundtrip(b, 12, pv.questions);
    lemma_records_roundtrip(b, 12 + eq.len() as int, pv.answers);
    lemma_records_roundtrip(b, 12 + eq.len() as int + ea.len() as int, pv.authority);
    lemma_records_roundtrip(b, 12 + eq.len() as int + ea.len() as int + eu.len() as int, pv.additional);
}

} // verus!
