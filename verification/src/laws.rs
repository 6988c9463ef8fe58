//! The persistence guarantees, stated as theorems over the codec and
//! registry models. The round-trip law itself is
//! `codec::lemma_write_load_round_trip`; these are its consequences for the
//! save path.

use vstd::prelude::*;
use crate::codec::{
    encode_records, lemma_write_load_round_trip, parse_records, record_wf, records_wf,
};
use crate::record::RecordView;
use crate::registry::{lemma_lookup_with_unique_names, merged_pos, names_unique};

verus! {

/// A save is a full snapshot: the text written for a record set, once
/// reloaded, reproduces the exact name and position of every record that
/// the set held at the moment of the save signal — none missing, none
/// extra, nothing rounded or renamed.
pub proof fn lemma_saved_snapshot_reloads_exactly(rs: Seq<RecordView>)
    requires
        records_wf(rs),
    ensures
        parse_records(encode_records(rs)).len() == rs.len(),
        forall|i: int|
            0 <= i < rs.len() ==> {
                let loaded = #[trigger] parse_records(encode_records(rs))[i];
                loaded.name == rs[i].name && loaded.x_bits == rs[i].x_bits && loaded.y_bits
                    == rs[i].y_bits
            },
{
    lemma_write_load_round_trip(rs);
}

/// A position mutation that happens after a snapshot was taken for writing
/// does not appear in the write made from that snapshot — the write shows
/// the position as of the snapshot — and does appear in the next write,
/// made after the mutation.
pub proof fn lemma_mutation_after_snapshot_isolated(
    snap: Seq<RecordView>,
    i: int,
    x_bits: u32,
    y_bits: u32,
)
    requires
        records_wf(snap),
        0 <= i < snap.len(),
    ensures
        ({
            let mutated = snap.update(
                i,
                RecordView { name: snap[i].name, x_bits, y_bits },
            );
            &&& parse_records(encode_records(snap))[i].x_bits == snap[i].x_bits
            &&& parse_records(encode_records(snap))[i].y_bits == snap[i].y_bits
            &&& parse_records(encode_records(mutated))[i].x_bits == x_bits
            &&& parse_records(encode_records(mutated))[i].y_bits == y_bits
        }),
{
    let mutated = snap.update(i, RecordView { name: snap[i].name, x_bits, y_bits });
    assert(records_wf(mutated)) by {
        assert(forall|k: int|
            0 <= k < mutated.len() ==> record_wf(#[trigger] mutated[k])) by {
            assert(forall|k: int| 0 <= k < snap.len() && k != i ==> mutated[k] == snap[k]);
        }
    }
    lemma_write_load_round_trip(snap);
    lemma_write_load_round_trip(mutated);
}

/// Positions persist across runs: save a registry, reload the written text
/// on the next run, and merge it with the same directory listing — every
/// entry gets back exactly the position it was saved with.
pub proof fn lemma_positions_persist_across_runs(rs: Seq<RecordView>)
    requires
        records_wf(rs),
        names_unique(rs),
    ensures
        forall|i: int|
            0 <= i < rs.len() ==> merged_pos(
                parse_records(encode_records(rs)),
                (#[trigger] rs[i]).name,
            ) == (rs[i].x_bits, rs[i].y_bits),
{
    lemma_write_load_round_trip(rs);
    assert(forall|i: int|
        0 <= i < rs.len() ==> merged_pos(rs, (#[trigger] rs[i]).name) == (
            rs[i].x_bits,
            rs[i].y_bits,
        )) by {
        assert forall|i: int| 0 <= i < rs.len() implies merged_pos(
            rs,
            (#[trigger] rs[i]).name,
        ) == (rs[i].x_bits, rs[i].y_bits) by {
            lemma_lookup_with_unique_names(rs, i);
        }
    }
}

} // verus!
