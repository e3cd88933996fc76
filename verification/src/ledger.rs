//! The mute states of audio devices, noted before the killswitch mutes them and
//! handed back when it lets them go.
use vstd::prelude::*;

verus! {

/// A noted device: its id text, the handle to reopen it with, and whether it was muted.
pub type Record = (Seq<char>, usize, bool);

/// The map that noting the records in order builds: a later record for a device
/// replaces an earlier one.
pub open spec fn records_map(rs: Seq<Record>) -> Map<Seq<char>, (usize, bool)>
    decreases rs.len(),
{
    if rs.len() == 0 {
        Map::empty()
    } else {
        records_map(rs.drop_last()).insert(rs.last().0, (rs.last().1, rs.last().2))
    }
}

/// No device is noted twice.
pub open spec fn distinct_ids(rs: Seq<Record>) -> bool {
    forall|i: int, j: int| 0 <= i < j < rs.len() ==> (#[trigger] rs[i]).0 != (#[trigger] rs[j]).0
}

/// What a device was noted with, for each noted device.
pub struct MuteLedger {
    entries: Vec<(String, usize, bool)>,
}

impl MuteLedger {
    /// The records, in the order the devices were first noted.
    pub closed spec fn records(&self) -> Seq<Record> {
        self.entries@.map_values(|e: (String, usize, bool)| (e.0@, e.1, e.2))
    }
}

impl View for MuteLedger {
    type V = Map<Seq<char>, (usize, bool)>;

    open spec fn view(&self) -> Map<Seq<char>, (usize, bool)> {
        records_map(self.records())
    }
}

proof fn lemma_records_map_dom(rs: Seq<Record>, k: Seq<char>)
    ensures
        records_map(rs).dom().contains(k) == (exists|i: int| 0 <= i < rs.len() && (#[trigger] rs[i]).0 == k),
    decreases rs.len(),
{
    if rs.len() > 0 {
        let init = rs.drop_last();
        lemma_records_map_dom(init, k);
        if exists|i: int| 0 <= i < init.len() && (#[trigger] init[i]).0 == k {
            let i = choose|i: int| 0 <= i < init.len() && (#[trigger] init[i]).0 == k;
            assert(rs[i] == init[i]);
        }
        if exists|i: int| 0 <= i < rs.len() && (#[trigger] rs[i]).0 == k {
            let i = choose|i: int| 0 <= i < rs.len() && (#[trigger] rs[i]).0 == k;
            if i < init.len() {
                assert(init[i] == rs[i]);
            }
        }
    }
}

/// With no device noted twice, each record's device maps to what it holds.
proof fn lemma_records_map_at(rs: Seq<Record>, i: int)
    requires
        distinct_ids(rs),
        0 <= i < rs.len(),
    ensures
        records_map(rs).dom().contains(rs[i].0),
        records_map(rs)[rs[i].0] == (rs[i].1, rs[i].2),
    decreases rs.len(),
{
    let init = rs.drop_last();
    if i < rs.len() - 1 {
        assert(init[i] == rs[i]);
        assert(distinct_ids(init)) by {
            assert forall|a: int, b: int| 0 <= a < b < init.len() implies (#[trigger] init[a]).0 != (#[trigger] init[b]).0 by {
                assert(init[a] == rs[a] && init[b] == rs[b]);
            }
        }
        lemma_records_map_at(init, i);
        assert(rs[i].0 != rs[rs.len() - 1].0);
    }
}

/// Replacing the record of a device already noted replaces what the map holds for it.
proof fn lemma_records_map_update(rs: Seq<Record>, i: int, h: usize, m: bool)
    requires
        distinct_ids(rs),
        0 <= i < rs.len(),
    ensures
        records_map(rs.update(i, (rs[i].0, h, m))) == records_map(rs).insert(rs[i].0, (h, m)),
    decreases rs.len(),
{
    let id = rs[i].0;
    let us = rs.update(i, (id, h, m));
    let init = rs.drop_last();
    if i == rs.len() - 1 {
        assert(us.drop_last() =~= init);
        assert(records_map(us) =~= records_map(rs).insert(id, (h, m)));
    } else {
        assert(init[i] == rs[i]);
        assert(distinct_ids(init)) by {
            assert forall|a: int, b: int| 0 <= a < b < init.len() implies (#[trigger] init[a]).0 != (#[trigger] init[b]).0 by {
                assert(init[a] == rs[a] && init[b] == rs[b]);
            }
        }
        lemma_records_map_update(init, i, h, m);
        assert(us.drop_last() =~= init.update(i, (id, h, m)));
        assert(us.last() == rs.last());
        assert(rs.last().0 != id) by {
            assert(rs[rs.len() - 1] == rs.last());
        }
        assert(records_map(us) =~= records_map(rs).insert(id, (h, m)));
    }
}

/// With no device noted twice, the map holds one device per record.
proof fn lemma_records_map_len(rs: Seq<Record>)
    requires
        distinct_ids(rs),
    ensures
        records_map(rs).dom().len() == rs.len(),
{
    let ids = rs.map_values(|r: Record| r.0);
    assert(records_map(rs).dom() =~= ids.to_set()) by {
        assert forall|k: Seq<char>| records_map(rs).dom().contains(k) == ids.to_set().contains(k) by {
            lemma_records_map_dom(rs, k);
            if ids.to_set().contains(k) {
                let i = choose|i: int| 0 <= i < ids.len() && ids[i] == k;
                assert(rs[i].0 == k);
            }
            if records_map(rs).dom().contains(k) {
                let i = choose|i: int| 0 <= i < rs.len() && (#[trigger] rs[i]).0 == k;
                assert(ids[i] == k);
            }
        }
    }
    assert(ids.no_duplicates()) by {
        assert forall|i: int, j: int| 0 <= i < ids.len() && 0 <= j < ids.len() && i != j implies ids[i] != ids[j] by {
            if i < j {
                assert(rs[i].0 != rs[j].0);
            } else {
                assert(rs[j].0 != rs[i].0);
            }
        }
    }
    ids.unique_seq_to_set();
}

/// `pair` is what map `m` holds for some device.
pub open spec fn held_for_some(m: Map<Seq<char>, (usize, bool)>, pair: (usize, bool)) -> bool {
    exists|id: Seq<char>| #[trigger] m.dom().contains(id) && m[id] == pair
}

/// Each pair taken from the records is what the map holds for some noted device.
proof fn lemma_each_pair_noted(rs: Seq<Record>, r: Seq<(usize, bool)>)
    requires
        distinct_ids(rs),
        r.len() == rs.len(),
        forall|j: int| 0 <= j < r.len() ==> #[trigger] r[j] == (rs[j].1, rs[j].2),
    ensures
        forall|i: int| 0 <= i < r.len() ==> #[trigger] held_for_some(records_map(rs), r[i]),
{
    assert forall|i: int| 0 <= i < r.len() implies #[trigger] held_for_some(records_map(rs), r[i]) by {
        lemma_records_map_at(rs, i);
        assert(records_map(rs).dom().contains(rs[i].0) && records_map(rs)[rs[i].0] == r[i]);
    }
}

impl MuteLedger {
    /// No device noted twice.
    pub closed spec fn wf(&self) -> bool {
        distinct_ids(self.records())
    }

    /// How many devices are noted.
    pub closed spec fn count(&self) -> nat {
        self.entries@.len()
    }

    /// A ledger with no device noted.
    pub fn new() -> (l: Self)
        ensures
            l.wf(),
            l@ == Map::<Seq<char>, (usize, bool)>::empty(),
            l.count() == 0,
    {
        let l = MuteLedger { entries: Vec::new() };
        assert(l.records() =~= Seq::<Record>::empty());
        l
    }

    /// Notes that device `id`, reopened with `handle`, was `muted`; a device noted
    /// before gets the new handle and state, and the handle it had is returned.
    pub fn record(&mut self, id: String, handle: usize, muted: bool) -> (displaced: Option<usize>)
        requires
            old(self).wf(),
        ensures
            final(self).wf(),
            final(self)@ == old(self)@.insert(id@, (handle, muted)),
            displaced == (if old(self)@.dom().contains(id@) {
                Some(old(self)@[id@].0)
            } else {
                None
            }),
            final(self).count() == old(self).count() + (if old(self)@.dom().contains(id@) { 0int } else { 1int }),
    {
        let ghost rs = self.records();
        let n = self.entries.len();
        let mut i: usize = 0;
        while i < n
            invariant
                n == self.entries@.len(),
                rs == self.records(),
                rs == old(self).records(),
                distinct_ids(rs),
                i <= n,
                forall|j: int| 0 <= j < i ==> (#[trigger] rs[j]).0 != id@,
            decreases n - i,
        {
            if self.entries[i].0 == id {
                let before = self.entries[i].1;
                proof {
                    assert(rs[i as int].0 == id@);
                    lemma_records_map_at(rs, i as int);
                    lemma_records_map_update(rs, i as int, handle, muted);
                    assert(rs.update(i as int, (id@, handle, muted)) =~= self.records().update(
                        i as int,
                        (id@, handle, muted),
                    ));
                }
                let ghost id_view = id@;
                self.entries.set(i, (id, handle, muted));
                proof {
                    assert(self.records() =~= rs.update(i as int, (id_view, handle, muted)));
                    assert forall|a: int, b: int| 0 <= a < b < self.records().len() implies
                        (#[trigger] self.records()[a]).0 != (#[trigger] self.records()[b]).0 by {
                        assert(self.records()[a].0 == rs[a].0);
                        assert(self.records()[b].0 == rs[b].0);
                    }
                }
                return Some(before);
            }
            i += 1;
        }
        proof {
            lemma_records_map_dom(rs, id@);
        }
        let ghost id_view = id@;
        self.entries.push((id, handle, muted));
        proof {
            assert(self.records() =~= rs.push((id_view, handle, muted)));
            assert(self.records().drop_last() =~= rs);
            assert forall|a: int, b: int| 0 <= a < b < self.records().len() implies
                (#[trigger] self.records()[a]).0 != (#[trigger] self.records()[b]).0 by {
                if b < rs.len() {
                    assert(self.records()[a] == rs[a] && self.records()[b] == rs[b]);
                } else {
                    assert(self.records()[a] == rs[a]);
                }
            }
        }
        None
    }

    /// Hands back every noted device's (handle, muted) pair, one per device, and
    /// empties the ledger.
    pub fn take_all(&mut self) -> (r: Vec<(usize, bool)>)
        requires
            old(self).wf(),
        ensures
            final(self).wf(),
            final(self)@ == Map::<Seq<char>, (usize, bool)>::empty(),
            final(self).count() == 0,
            r@.len() == old(self).count(),
            forall|i: int| 0 <= i < r@.len() ==> #[trigger] r@[i] == (old(self).records()[i].1, old(self).records()[i].2),
            r@.len() == old(self)@.dom().len(),
            forall|id: Seq<char>| #[trigger] old(self)@.dom().contains(id) ==> exists|i: int|
                0 <= i < r@.len() && #[trigger] r@[i] == old(self)@[id],
            forall|i: int| 0 <= i < r@.len() ==> #[trigger] held_for_some(old(self)@, r@[i]),
    {
        proof {
            lemma_records_map_len(self.records());
        }
        let mut entries: Vec<(String, usize, bool)> = Vec::new();
        std::mem::swap(&mut entries, &mut self.entries);
        let mut r: Vec<(usize, bool)> = Vec::new();
        let mut t: usize = 0;
        while t < entries.len()
            invariant
                t <= entries@.len(),
                entries@ == old(self).entries@,
                r@.len() == t,
                forall|j: int| 0 <= j < t ==> #[trigger] r@[j] == (entries@[j].1, entries@[j].2),
            decreases entries@.len() - t,
        {
            r.push((entries[t].1, entries[t].2));
            t += 1;
        }
        assert(self.records() =~= Seq::<Record>::empty());
        proof {
            let rs = old(self).records();
            assert forall|id: Seq<char>| #[trigger] old(self)@.dom().contains(id) implies exists|i: int|
                0 <= i < r@.len() && #[trigger] r@[i] == old(self)@[id] by {
                lemma_take_all_restores(rs, id);
                let i = choose|i: int|
                    0 <= i < rs.len() && (#[trigger] rs[i]).0 == id && (rs[i].1, rs[i].2) == records_map(rs)[id];
                assert(r@[i] == old(self)@[id]);
            }
            lemma_each_pair_noted(rs, r@);
        }
        r
    }
}

/// What the ledger hands back restores each noted device: for every device it
/// holds, the pair handed back at that device's place is the one last noted for it.
pub proof fn lemma_take_all_restores(rs: Seq<Record>, id: Seq<char>)
    requires
        distinct_ids(rs),
        records_map(rs).dom().contains(id),
    ensures
        exists|i: int|
            0 <= i < rs.len() && (#[trigger] rs[i]).0 == id && (rs[i].1, rs[i].2) == records_map(rs)[id],
{
    lemma_records_map_dom(rs, id);
    let i = choose|i: int| 0 <= i < rs.len() && (#[trigger] rs[i]).0 == id;
    lemma_records_map_at(rs, i);
}

} // verus!
