//! The persisted layout form and its codec.
//!
//! A layout file is a sequence of records. Each record is a fixed header of
//! 32 hex digits — `x` bits (8), `y` bits (8), name length in characters
//! (16) — followed by the name itself, verbatim, and a terminating newline.
//! The length prefix means names need no escaping, whatever characters they
//! hold, and the whole form round-trips exactly.
//!
//! Reading is total and tolerant: it yields the longest well-formed prefix
//! of records and ignores the rest, so a missing, foreign, or corrupted
//! file never fails a load — it merely yields fewer (or no) records.

use vstd::prelude::*;
use crate::hexnum::{
    all_hex_digits, hex_digits, hex_string, hex_value, is_hex_digit, lemma_hex_digits_ok,
    lemma_pow16_concrete, pow16,
};
use crate::record::{views_of, IconRecord, RecordView};

verus! {

/// A record's name must fit the 16-digit length field. Every name that an
/// executable `String` can hold does.
pub open spec fn record_wf(r: RecordView) -> bool {
    r.name.len() < pow16(16)
}

pub open spec fn records_wf(rs: Seq<RecordView>) -> bool {
    forall|i: int| 0 <= i < rs.len() ==> record_wf(#[trigger] rs[i])
}

/// The encoded form of one record.
pub open spec fn encode_record(r: RecordView) -> Seq<char> {
    hex_digits(r.x_bits as nat, 8) + hex_digits(r.y_bits as nat, 8) + hex_digits(
        r.name.len(),
        16,
    ) + r.name + seq!['\n']
}

/// The encoded form of a record sequence: the records one after another.
pub open spec fn encode_records(rs: Seq<RecordView>) -> Seq<char>
    decreases rs.len(),
{
    if rs.len() == 0 {
        Seq::empty()
    } else {
        encode_record(rs[0]) + encode_records(rs.skip(1))
    }
}

/// The name length a record starting at the head of s declares.
pub open spec fn head_name_len(s: Seq<char>) -> nat {
    hex_value(s.subrange(16, 32))
}

/// Whether a well-formed record starts at the head of s.
pub open spec fn head_record_valid(s: Seq<char>) -> bool {
    &&& s.len() >= 33
    &&& all_hex_digits(s.subrange(0, 32))
    &&& 33 + head_name_len(s) <= s.len()
    &&& s[32 + head_name_len(s) as int] == '\n'
}

/// The record at the head of s, assuming one is there.
pub open spec fn head_record(s: Seq<char>) -> RecordView {
    RecordView {
        name: s.subrange(32, 32 + head_name_len(s) as int),
        x_bits: hex_value(s.subrange(0, 8)) as u32,
        y_bits: hex_value(s.subrange(8, 16)) as u32,
    }
}

/// The characters the head record occupies.
pub open spec fn head_record_span(s: Seq<char>) -> nat {
    33 + head_name_len(s)
}

/// All records read from s: the longest well-formed prefix.
pub open spec fn parse_records(s: Seq<char>) -> Seq<RecordView>
    decreases s.len(),
{
    if s.len() == 0 {
        Seq::empty()
    } else if head_record_valid(s) {
        seq![head_record(s)] + parse_records(s.skip(head_record_span(s) as int))
    } else {
        Seq::empty()
    }
}

/// Reading an encoded record off the head of any continuation gives the
/// record back and lands exactly on the continuation.
proof fn lemma_head_of_encoded(r: RecordView, rest: Seq<char>)
    requires
        record_wf(r),
    ensures
        head_record_valid(encode_record(r) + rest),
        head_record(encode_record(r) + rest) =~= r,
        head_record_span(encode_record(r) + rest) == 33 + r.name.len(),
        (encode_record(r) + rest).skip(33 + r.name.len() as int) =~= rest,
{
    let hx = hex_digits(r.x_bits as nat, 8);
    let hy = hex_digits(r.y_bits as nat, 8);
    let hl = hex_digits(r.name.len(), 16);
    let s = encode_record(r) + rest;
    lemma_pow16_concrete();
    lemma_hex_digits_ok(r.x_bits as nat, 8);
    lemma_hex_digits_ok(r.y_bits as nat, 8);
    lemma_hex_digits_ok(r.name.len(), 16);
    let nl = r.name.len() as int;
    assert(s.subrange(0, 8) =~= hx);
    assert(s.subrange(8, 16) =~= hy);
    assert(s.subrange(16, 32) =~= hl);
    assert(head_name_len(s) == r.name.len());
    assert(all_hex_digits(s.subrange(0, 32))) by {
        let h = s.subrange(0, 32);
        assert(forall|i: int| 0 <= i < 8 ==> #[trigger] h[i] == hx[i] && is_hex_digit(h[i]));
        assert(forall|i: int| 8 <= i < 16 ==> #[trigger] h[i] == hy[i - 8] && is_hex_digit(h[i]));
        assert(forall|i: int|
            16 <= i < 32 ==> #[trigger] h[i] == hl[i - 16] && is_hex_digit(h[i]));
    }
    assert(s[32 + nl] == '\n');
    assert(s.subrange(32, 32 + nl) =~= r.name);
    assert((hex_value(s.subrange(0, 8)) as u32) == r.x_bits);
    assert((hex_value(s.subrange(8, 16)) as u32) == r.y_bits);
}

/// ROUND-TRIP LAW: reading back a written record sequence yields exactly
/// that sequence — every name and both coordinates of every record, in
/// order. `requires` holds only the validity bound that any executable
/// record meets (a name's length fits the 16-digit length field).
pub proof fn lemma_write_load_round_trip(rs: Seq<RecordView>)
    requires
        records_wf(rs),
    ensures
        parse_records(encode_records(rs)) == rs,
    decreases rs.len(),
{
    if rs.len() == 0 {
        assert(parse_records(encode_records(rs)) =~= rs);
    } else {
        let rest = encode_records(rs.skip(1));
        let s = encode_record(rs[0]) + rest;
        assert(encode_records(rs) == s);
        lemma_head_of_encoded(rs[0], rest);
        assert(records_wf(rs.skip(1))) by {
            assert(forall|i: int|
                0 <= i < rs.skip(1).len() ==> #[trigger] rs.skip(1)[i] == rs[i + 1]);
        }
        lemma_write_load_round_trip(rs.skip(1));
        assert(s.len() >= 33);
        assert(parse_records(s) == seq![head_record(s)] + parse_records(
            s.skip(head_record_span(s) as int),
        ));
        assert(parse_records(s) =~= rs);
    }
}

/// Render one record.
pub fn encode_record_string(rec: &IconRecord) -> (r: String)
    ensures
        r@ == encode_record(rec@),
        record_wf(rec@),
{
    let l = rec.name.as_str().unicode_len();
    let mut out = hex_string(rec.x_bits as u64, 8);
    let hy = hex_string(rec.y_bits as u64, 8);
    out.append(hy.as_str());
    let hl = hex_string(l as u64, 16);
    out.append(hl.as_str());
    out.append(rec.name.as_str());
    out.append("\n");
    proof {
        reveal_strlit("\n");
        lemma_pow16_concrete();
        assert((l as u64) as nat == rec.name@.len());
        assert("\n"@ =~= seq!['\n']);
        assert(out@ =~= encode_record(rec@));
    }
    out
}

/// Render a whole record sequence — what a save writes.
pub fn encode_records_string(recs: &Vec<IconRecord>) -> (r: String)
    ensures
        r@ == encode_records(views_of(recs@)),
        records_wf(views_of(recs@)),
{
    let ghost vs = views_of(recs@);
    let mut out = String::new();
    let mut i: usize = 0;
    proof {
        assert(vs.skip(0) =~= vs);
        assert(out@ + encode_records(vs) =~= encode_records(vs));
    }
    while i < recs.len()
        invariant
            i <= recs.len(),
            vs == views_of(recs@),
            vs.len() == recs@.len(),
            out@ + encode_records(vs.skip(i as int)) == encode_records(vs),
            forall|j: int| 0 <= j < i ==> record_wf(#[trigger] vs[j]),
        decreases recs.len() - i,
    {
        let piece = encode_record_string(&recs[i]);
        out.append(piece.as_str());
        proof {
            let tail = vs.skip(i as int);
            assert(tail[0] == vs[i as int]);
            assert(tail.skip(1) =~= vs.skip(i + 1));
            assert(encode_records(tail) == encode_record(vs[i as int]) + encode_records(
                vs.skip(i + 1),
            ));
            assert(out@ + encode_records(vs.skip(i + 1)) =~= encode_records(vs));
        }
        i = i + 1;
    }
    proof {
        assert(vs.skip(recs@.len() as int) =~= Seq::<RecordView>::empty());
        assert(out@ =~= encode_records(vs));
    }
    out
}

} // verus!
