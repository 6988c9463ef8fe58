//! The authoritative in-memory registry: one record per directory entry,
//! built by merging the directory listing with the loaded layout, mutated
//! live (positions only) by the presentation boundary, and snapshotted for
//! persistence.

use vstd::prelude::*;
use crate::codec::{encode_records, encode_records_string, records_wf};
use crate::record::{views_of, IconRecord, RecordView};

verus! {

/// Last-write-wins lookup of a name in a loaded layout: the position of the
/// last record with that name, if any.
pub open spec fn layout_lookup(l: Seq<RecordView>, name: Seq<char>) -> Option<(u32, u32)>
    decreases l.len(),
{
    if l.len() == 0 {
        None
    } else if l.last().name == name {
        Some((l.last().x_bits, l.last().y_bits))
    } else {
        layout_lookup(l.drop_last(), name)
    }
}

/// The position the merge gives a name: its persisted position if the
/// layout holds one, else the default (0, 0) — both coordinate bit
/// patterns zero, the bits of 0.0.
pub open spec fn merged_pos(l: Seq<RecordView>, name: Seq<char>) -> (u32, u32) {
    match layout_lookup(l, name) {
        Some(p) => p,
        None => (0u32, 0u32),
    }
}

/// No two records share a name.
pub open spec fn names_unique(rs: Seq<RecordView>) -> bool {
    forall|i: int, j: int|
        0 <= i < j < rs.len() ==> (#[trigger] rs[i]).name != (#[trigger] rs[j]).name
}

/// In a layout without repeated names, lookup finds exactly the record
/// holding the name.
pub proof fn lemma_lookup_with_unique_names(l: Seq<RecordView>, i: int)
    requires
        names_unique(l),
        0 <= i < l.len(),
    ensures
        layout_lookup(l, l[i].name) == Some((l[i].x_bits, l[i].y_bits)),
    decreases l.len(),
{
    if i == l.len() - 1 {
        assert(l.last() == l[i]);
    } else {
        assert(l.last().name != l[i].name);
        assert(names_unique(l.drop_last())) by {
            assert(forall|p: int|
                0 <= p < l.len() - 1 ==> #[trigger] l.drop_last()[p] == l[p]);
        }
        lemma_lookup_with_unique_names(l.drop_last(), i);
        assert(l.drop_last()[i] == l[i]);
    }
}

/// The position the last record with this name holds in a layout.
pub fn lookup_position(layout: &Vec<IconRecord>, name: &String) -> (r: Option<(u32, u32)>)
    ensures
        r == layout_lookup(views_of(layout@), name@),
{
    let ghost l = views_of(layout@);
    let mut j: usize = layout.len();
    proof {
        assert(l.take(layout@.len() as int) =~= l);
    }
    while j > 0
        invariant
            j <= layout@.len(),
            l == views_of(layout@),
            l.len() == layout@.len(),
            layout_lookup(l.take(j as int), name@) == layout_lookup(l, name@),
        decreases j,
    {
        proof {
            let t = l.take(j as int);
            assert(t.last() == l[j - 1]);
            assert(t.drop_last() =~= l.take(j - 1));
        }
        if layout[j - 1].name == *name {
            return Some((layout[j - 1].x_bits, layout[j - 1].y_bits));
        }
        j = j - 1;
    }
    proof {
        assert(l.take(0) =~= Seq::<RecordView>::empty());
    }
    None
}

/// The registry: the record set for the current run. Its records carry
/// exactly the scanned entry names, each once.
pub struct IconRegistry {
    records: Vec<IconRecord>,
}

impl View for IconRegistry {
    type V = Seq<RecordView>;

    closed spec fn view(&self) -> Seq<RecordView> {
        views_of(self.records@)
    }
}

impl IconRegistry {
    /// Membership is exactly the entry names, positions never collide on a
    /// name.
    pub open spec fn well_formed(&self) -> bool {
        names_unique(self@)
    }

    /// MERGE: build the registry for a run from the scanned entry names and
    /// the loaded layout. Exactly one record per listed name, in listing
    /// order; a name keeps its persisted position, a name the layout does
    /// not hold starts at the default (0, 0); layout records whose names
    /// are no longer listed are discarded (no record is made for them).
    pub fn build(names: &Vec<String>, layout: &Vec<IconRecord>) -> (r: IconRegistry)
        requires
            forall|i: int, j: int|
                0 <= i < j < names@.len() ==> (#[trigger] names@[i])@ != (
                #[trigger] names@[j])@,
        ensures
            r@.len() == names@.len(),
            forall|i: int|
                0 <= i < names@.len() ==> (#[trigger] r@[i]).name == names@[i]@,
            forall|i: int|
                0 <= i < names@.len() ==> ((#[trigger] r@[i]).x_bits, r@[i].y_bits)
                    == merged_pos(views_of(layout@), names@[i]@),
            r.well_formed(),
    {
        let mut records: Vec<IconRecord> = Vec::new();
        let mut i: usize = 0;
        while i < names.len()
            invariant
                i <= names@.len(),
                records@.len() == i,
                forall|k: int|
                    0 <= k < i ==> (#[trigger] records@[k])@.name == names@[k]@,
                forall|k: int|
                    0 <= k < i ==> ((#[trigger] records@[k])@.x_bits, records@[k]@.y_bits)
                        == merged_pos(views_of(layout@), names@[k]@),
            decreases names@.len() - i,
        {
            let pos = lookup_position(layout, &names[i]);
            let (px, py) = match pos {
                Some(p) => p,
                None => (0u32, 0u32),
            };
            let rec = IconRecord { name: names[i].clone(), x_bits: px, y_bits: py };
            records.push(rec);
            i = i + 1;
        }
        let r = IconRegistry { records };
        proof {
            assert(forall|k: int|
                0 <= k < names@.len() ==> #[trigger] r@[k] == records@[k]@);
            assert(r.well_formed()) by {
                assert(forall|i: int|
                    0 <= i < r@.len() ==> (#[trigger] r@[i]).name == names@[i]@);
            }
        }
        r
    }

    /// How many records the registry holds.
    pub fn len(&self) -> (n: usize)
        ensures
            n == self@.len(),
    {
        self.records.len()
    }

    /// The record at an index, for iteration by the presentation boundary.
    pub fn record_at(&self, i: usize) -> (r: &IconRecord)
        requires
            i < self@.len(),
        ensures
            r@ == self@[i as int],
    {
        &self.records[i]
    }

    /// The index holding a name, if any. With a well-formed registry the
    /// index is unique.
    pub fn find(&self, name: &String) -> (r: Option<usize>)
        ensures
            match r {
                Some(i) => i < self@.len() && self@[i as int].name == name@,
                None => forall|i: int| 0 <= i < self@.len() ==> (#[trigger] self@[i]).name != name@,
            },
    {
        let mut i: usize = 0;
        while i < self.records.len()
            invariant
                i <= self@.len(),
                self@.len() == self.records@.len(),
                forall|k: int| 0 <= k < i ==> (#[trigger] self@[k]).name != name@,
            decreases self@.len() - i,
        {
            if self.records[i].name == *name {
                return Some(i);
            }
            i = i + 1;
        }
        None
    }

    /// LIVE POSITION UPDATE (the presentation boundary's write): move the
    /// record holding `name` to the given position bits. Returns whether a
    /// record was found. Membership and every other record are untouched;
    /// nothing else about the registry changes.
    pub fn set_position(&mut self, name: &String, x_bits: u32, y_bits: u32) -> (found: bool)
        ensures
            found == exists|i: int|
                0 <= i < old(self)@.len() && (#[trigger] old(self)@[i]).name == name@,
            !found ==> final(self)@ == old(self)@,
            found ==> exists|i: int|
                {
                    &&& 0 <= i < old(self)@.len()
                    &&& (#[trigger] old(self)@[i]).name == name@
                    &&& final(self)@ == old(self)@.update(
                        i,
                        RecordView { name: name@, x_bits, y_bits },
                    )
                },
            old(self).well_formed() ==> final(self).well_formed(),
    {
        let mut i: usize = 0;
        while i < self.records.len()
            invariant
                i <= self@.len(),
                self@.len() == self.records@.len(),
                self@ == old(self)@,
                forall|k: int| 0 <= k < i ==> (#[trigger] self@[k]).name != name@,
            decreases self@.len() - i,
        {
            if self.records[i].name == *name {
                proof {
                    assert(old(self)@[i as int].name == name@);
                }
                let moved = IconRecord { name: self.records[i].name.clone(), x_bits, y_bits };
                self.records.set(i, moved);
                proof {
                    assert(views_of(self.records@) =~= old(self)@.update(
                        i as int,
                        RecordView { name: name@, x_bits, y_bits },
                    ));
                    assert(exists|k: int|
                        0 <= k < old(self)@.len() && (#[trigger] old(self)@[k]).name == name@
                            && self@ == old(self)@.update(
                            k,
                            RecordView { name: name@, x_bits, y_bits },
                        )) by {
                        assert((i as int) < old(self)@.len() && old(self)@[i as int].name
                            == name@ && self@ == old(self)@.update(
                            i as int,
                            RecordView { name: name@, x_bits, y_bits },
                        ));
                    }
                    assert(old(self).well_formed() ==> self.well_formed()) by {
                        if old(self).well_formed() {
                            assert(forall|p: int, q: int|
                                0 <= p < q < self@.len() ==> (#[trigger] self@[p]).name != (
                                #[trigger] self@[q]).name) by {
                                assert(forall|k: int|
                                    0 <= k < self@.len() ==> (#[trigger] self@[k]).name == old(
                                        self,
                                    )@[k].name);
                            }
                        }
                    }
                }
                return true;
            }
            i = i + 1;
        }
        false
    }

    /// SNAPSHOT: an independent copy of every current record. A later
    /// position mutation of the registry cannot reach it — persistence
    /// serializes the snapshot, not the live registry.
    pub fn snapshot(&self) -> (r: Vec<IconRecord>)
        ensures
            views_of(r@) == self@,
    {
        let mut out: Vec<IconRecord> = Vec::new();
        let mut i: usize = 0;
        while i < self.records.len()
            invariant
                i <= self@.len(),
                self@.len() == self.records@.len(),
                out@.len() == i,
                forall|k: int| 0 <= k < i ==> (#[trigger] out@[k])@ == self@[k],
            decreases self@.len() - i,
        {
            out.push(self.records[i].duplicate());
            i = i + 1;
        }
        proof {
            assert(views_of(out@) =~= self@);
        }
        out
    }

    /// SAVE: the full text a save signal writes — a snapshot of every
    /// current record, rendered in the round-trippable layout form.
    pub fn save_string(&self) -> (r: String)
        ensures
            r@ == encode_records(self@),
            records_wf(self@),
    {
        let snap = self.snapshot();
        encode_records_string(&snap)
    }
}

} // verus!
