//! The executable reader for the persisted layout form: total, tolerant,
//! and proved to return exactly what the specification-level
//! `parse_records` denotes.

use vstd::prelude::*;
use crate::codec::{
    head_name_len, head_record, head_record_span, head_record_valid, parse_records,
};
use crate::hexnum::{
    all_hex_digits, hex_char_val, hex_value, is_hex_digit, lemma_hex_value_bound,
    lemma_pow16_concrete, pow16,
};
use crate::record::{views_of, IconRecord, RecordView};

verus! {

/// Read `width` hex digits of s starting at `start` as one value.
fn read_hex_field(s: &str, start: usize, width: usize) -> (r: Option<u64>)
    requires
        start + width <= s@.len(),
        start + width <= usize::MAX,
        width <= 16,
    ensures
        match r {
            Some(v) => all_hex_digits(s@.subrange(start as int, start + width)) && v as nat
                == hex_value(s@.subrange(start as int, start + width)),
            None => !all_hex_digits(s@.subrange(start as int, start + width)),
        },
{
    let mut val: u64 = 0;
    let mut j: usize = 0;
    proof {
        assert(s@.subrange(start as int, start as int) =~= Seq::<char>::empty());
        lemma_pow16_concrete();
    }
    while j < width
        invariant
            j <= width,
            width <= 16,
            start + width <= s@.len(),
            start + width <= usize::MAX,
            all_hex_digits(s@.subrange(start as int, start + j)),
            val as nat == hex_value(s@.subrange(start as int, start + j)),
            (val as nat) < pow16(j as nat),
        decreases width - j,
    {
        let c = s.get_char(start + j);
        match hex_char_val(c) {
            None => {
                proof {
                    let full = s@.subrange(start as int, start + width);
                    assert(full[j as int] == c);
                    assert(!is_hex_digit(full[j as int]));
                }
                return None;
            },
            Some(d) => {
                proof {
                    lemma_pow16_concrete();
                    assert(pow16(j as nat) <= pow16(15)) by {
                        lemma_pow16_le(j as nat, 15);
                    }
                    assert(16 * pow16(15) == pow16(16));
                }
                val = val * 16 + (d as u64);
                proof {
                    let prev = s@.subrange(start as int, start + j);
                    let cur = s@.subrange(start as int, start + j + 1);
                    assert(cur.drop_last() =~= prev);
                    assert(cur.last() == c);
                    assert(16 * pow16(j as nat) == pow16((j + 1) as nat));
                }
                j = j + 1;
            },
        }
    }
    Some(val)
}

/// pow16 is monotone.
proof fn lemma_pow16_le(a: nat, b: nat)
    requires
        a <= b,
    ensures
        pow16(a) <= pow16(b),
    decreases b,
{
    if a < b {
        lemma_pow16_le(a, (b - 1) as nat);
        crate::hexnum::lemma_pow16_pos((b - 1) as nat);
    }
}

/// Try to read one record starting at character `pos`. `n` is the character
/// length of s. Returns the record and the position just past it.
fn parse_record_at(s: &str, pos: usize, n: usize) -> (r: Option<(IconRecord, usize)>)
    requires
        n == s@.len(),
        pos <= n,
    ensures
        match r {
            Some((rec, newpos)) => {
                &&& head_record_valid(s@.skip(pos as int))
                &&& rec@ == head_record(s@.skip(pos as int))
                &&& newpos == pos + head_record_span(s@.skip(pos as int))
                &&& pos < newpos <= n
            },
            None => !head_record_valid(s@.skip(pos as int)),
        },
{
    let ghost rem = s@.skip(pos as int);
    proof {
        assert(rem.len() == n - pos);
        assert(forall|i: int| 0 <= i < rem.len() ==> #[trigger] rem[i] == s@[pos + i]);
    }
    if n - pos < 33 {
        return None;
    }
    proof {
        assert(rem.subrange(0, 32) =~= s@.subrange(pos as int, pos + 32));
        assert(rem.subrange(16, 32) =~= s@.subrange(pos + 16, pos + 32));
        assert(rem.subrange(0, 8) =~= s@.subrange(pos as int, pos + 8));
        assert(rem.subrange(8, 16) =~= s@.subrange(pos + 8, pos + 16));
    }
    let xv = match read_hex_field(s, pos, 8) {
        Some(v) => v,
        None => {
            proof {
                let h = rem.subrange(0, 32);
                let f = s@.subrange(pos as int, pos + 8);
                assert(!all_hex_digits(f));
                let k = choose|k: int| 0 <= k < f.len() && !is_hex_digit(f[k]);
                assert(h[k] == f[k]);
                assert(!all_hex_digits(h));
            }
            return None;
        },
    };
    let yv = match read_hex_field(s, pos + 8, 8) {
        Some(v) => v,
        None => {
            proof {
                let h = rem.subrange(0, 32);
                let f = s@.subrange(pos + 8, pos + 16);
                assert(!all_hex_digits(f));
                let k = choose|k: int| 0 <= k < f.len() && !is_hex_digit(f[k]);
                assert(h[k + 8] == f[k]);
                assert(!all_hex_digits(h));
            }
            return None;
        },
    };
    let lv = match read_hex_field(s, pos + 16, 16) {
        Some(v) => v,
        None => {
            proof {
                let h = rem.subrange(0, 32);
                let f = s@.subrange(pos + 16, pos + 32);
                assert(!all_hex_digits(f));
                let k = choose|k: int| 0 <= k < f.len() && !is_hex_digit(f[k]);
                assert(h[k + 16] == f[k]);
                assert(!all_hex_digits(h));
            }
            return None;
        },
    };
    proof {
        assert(head_name_len(rem) == lv as nat);
    }
    if lv > ((n - pos) as u64) - 33 {
        proof {
            assert(33 + head_name_len(rem) > rem.len());
        }
        return None;
    }
    let l = lv as usize;
    let c = s.get_char(pos + 32 + l);
    proof {
        assert(rem[32 + l] == s@[pos + 32 + l]);
    }
    if c != '\n' {
        proof {
            assert(rem[32 + head_name_len(rem) as int] != '\n');
        }
        return None;
    }
    let name_slice = s.substring_char(pos + 32, pos + 32 + l);
    let name = name_slice.to_owned();
    proof {
        assert(rem.subrange(32, 32 + l) =~= s@.subrange(pos + 32, pos + 32 + l));
        lemma_hex_value_bound(rem.subrange(0, 8));
        lemma_hex_value_bound(rem.subrange(8, 16));
        lemma_pow16_concrete();
    }
    let rec = IconRecord { name, x_bits: xv as u32, y_bits: yv as u32 };
    proof {
        assert(all_hex_digits(rem.subrange(0, 32))) by {
            let h = rem.subrange(0, 32);
            let f1 = s@.subrange(pos as int, pos + 8);
            let f2 = s@.subrange(pos + 8, pos + 16);
            let f3 = s@.subrange(pos + 16, pos + 32);
            assert(forall|i: int| 0 <= i < 8 ==> #[trigger] h[i] == f1[i]);
            assert(forall|i: int| 8 <= i < 16 ==> #[trigger] h[i] == f2[i - 8]);
            assert(forall|i: int| 16 <= i < 32 ==> #[trigger] h[i] == f3[i - 16]);
            assert(forall|i: int| 0 <= i < 32 ==> is_hex_digit(#[trigger] h[i]));
        }
        assert(head_record_valid(rem));
        assert(rec@ =~= head_record(rem));
    }
    Some((rec, pos + 33 + l))
}

/// Read every record a layout text holds, in order: the longest well-formed
/// prefix. Total — any input yields a (possibly empty) record list.
pub fn parse_layout_str(content: &str) -> (r: Vec<IconRecord>)
    ensures
        views_of(r@) == parse_records(content@),
{
    let n = content.unicode_len();
    let mut out: Vec<IconRecord> = Vec::new();
    let mut pos: usize = 0;
    let mut done: bool = false;
    proof {
        assert(content@.skip(0) =~= content@);
        assert(views_of(out@) =~= Seq::<RecordView>::empty());
        assert(views_of(out@) + parse_records(content@) =~= parse_records(content@));
    }
    while !done
        invariant
            n == content@.len(),
            pos <= n,
            views_of(out@) + parse_records(content@.skip(pos as int)) == parse_records(
                content@,
            ),
            done ==> parse_records(content@.skip(pos as int)) =~= Seq::<RecordView>::empty(),
        decreases n - pos + (if done { 0int } else { 1int }),
    {
        if pos == n {
            proof {
                assert(content@.skip(pos as int) =~= Seq::<char>::empty());
            }
            done = true;
        } else {
            match parse_record_at(content, pos, n) {
                None => {
                    proof {
                        assert(content@.skip(pos as int).len() > 0);
                    }
                    done = true;
                },
                Some((rec, newpos)) => {
                    proof {
                        let rem = content@.skip(pos as int);
                        assert(rem.len() > 0);
                        assert(rem.skip(head_record_span(rem) as int) =~= content@.skip(
                            newpos as int,
                        ));
                        assert(parse_records(rem) == seq![head_record(rem)] + parse_records(
                            content@.skip(newpos as int),
                        ));
                        assert(views_of(out@.push(rec)) =~= views_of(out@).push(rec@));
                        assert(views_of(out@.push(rec)) + parse_records(
                            content@.skip(newpos as int),
                        ) =~= parse_records(content@));
                    }
                    out.push(rec);
                    pos = newpos;
                },
            }
        }
    }
    proof {
        assert(views_of(out@) + parse_records(content@.skip(pos as int)) =~= views_of(out@));
    }
    out
}

/// LayoutStore: the mapping a layout file yields. `None` stands for a file
/// that does not exist and yields no records at all; malformed content
/// yields exactly the records `parse_records` salvages (possibly none).
/// Never an error: absence and corruption both degrade to fewer records.
pub fn load_layout(content: Option<&str>) -> (r: Vec<IconRecord>)
    ensures
        match content {
            Some(text) => views_of(r@) == parse_records(text@),
            None => r@.len() == 0,
        },
{
    match content {
        Some(text) => parse_layout_str(text),
        None => Vec::new(),
    }
}

} // verus!
