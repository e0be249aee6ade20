//! The channel table: followed sources of videos, unique by source id and
//! by normalized name within a domain.

use vstd::prelude::*;

verus! {

/// A followed channel.
pub struct ChannelRow {
    pub id: i64,
    pub domain: String,
    pub url: String,
    pub channel_id: String,
    pub channel_name: String,
    pub normalized_name: String,
}

/// Whether two channels of one domain share a source id or a normalized
/// name, which the table forbids.
pub open spec fn clashes(a: ChannelRow, b: ChannelRow) -> bool {
    a.domain@ == b.domain@ && (a.channel_id@ == b.channel_id@ || a.normalized_name@
        == b.normalized_name@)
}

/// Why a channel could not be inserted.
#[derive(PartialEq, Eq, Structural, Clone, Copy, Debug)]
pub enum ChannelConflict {
    /// The domain already has a channel with this source id.
    DuplicateSourceId,
    /// The domain already has a channel with this normalized name.
    DuplicateName,
}

/// Whether `rows` holds a channel of `domain` with source id `cid`.
pub open spec fn has_channel(rows: Seq<ChannelRow>, domain: Seq<char>, cid: Seq<char>) -> bool {
    exists|i: int| 0 <= i < rows.len() && (#[trigger] rows[i]).domain@ == domain && rows[i].channel_id@ == cid
}

/// The row identifier of the channel of `domain` with source id `cid`.
pub open spec fn channel_for(rows: Seq<ChannelRow>, domain: Seq<char>, cid: Seq<char>) -> Option<i64> {
    if has_channel(rows, domain, cid) {
        let i = choose|i: int| 0 <= i < rows.len() && (#[trigger] rows[i]).domain@ == domain && rows[i].channel_id@ == cid;
        Some(rows[i].id)
    } else {
        None
    }
}

/// The channels, and the next row identifier to hand out.
pub struct ChannelTable {
    pub rows: Vec<ChannelRow>,
    pub next_id: i64,
}

impl ChannelTable {
    /// No two channels clash, and row identifiers lie below `next_id`.
    pub open spec fn wf(&self) -> bool {
        &&& forall|i: int, j: int| 0 <= i < self.rows@.len() && 0 <= j < self.rows@.len() && i != j ==> !clashes(#[trigger] self.rows@[i], #[trigger] self.rows@[j])
        &&& forall|i: int| 0 <= i < self.rows@.len() ==> #[trigger] self.rows@[i].id < self.next_id
        &&& 1 <= self.next_id
    }

    /// An empty table.
    pub fn new() -> (r: ChannelTable)
        ensures
            r.wf(),
            r.rows@.len() == 0,
    {
        ChannelTable { rows: Vec::new(), next_id: 1 }
    }

    /// The first clash of `c` with a row of the table, if any.
    pub fn conflict_with(&self, c: &ChannelRow) -> (r: Option<ChannelConflict>)
        ensures
            r is None <==> forall|i: int| 0 <= i < self.rows@.len() ==> !clashes(#[trigger] self.rows@[i], *c),
            r == Some(ChannelConflict::DuplicateSourceId) ==> exists|i: int| 0 <= i < self.rows@.len() && (#[trigger] self.rows@[i]).domain@ == c.domain@ && self.rows@[i].channel_id@ == c.channel_id@,
            r == Some(ChannelConflict::DuplicateName) ==> exists|i: int| 0 <= i < self.rows@.len() && (#[trigger] self.rows@[i]).domain@ == c.domain@ && self.rows@[i].normalized_name@ == c.normalized_name@,
    {
        let mut i: usize = 0;
        while i < self.rows.len()
            invariant
                i <= self.rows@.len(),
                forall|k: int| 0 <= k < i ==> !clashes(#[trigger] self.rows@[k], *c),
            decreases self.rows@.len() - i,
        {
            let r = &self.rows[i];
            if r.domain == c.domain {
                if r.channel_id == c.channel_id {
                    return Some(ChannelConflict::DuplicateSourceId);
                }
                if r.normalized_name == c.normalized_name {
                    return Some(ChannelConflict::DuplicateName);
                }
            }
            i = i + 1;
        }
        None
    }

    /// Takes in a channel the store already holds. It is accepted when its
    /// identifier is above every identifier in the table and it clashes with
    /// no row.
    pub fn restore(&mut self, row: ChannelRow) -> (accepted: bool)
        requires
            old(self).wf(),
        ensures
            final(self).wf(),
            accepted == (old(self).next_id <= row.id && row.id < i64::MAX && forall|i: int|
                0 <= i < old(self).rows@.len() ==> !clashes(#[trigger] old(self).rows@[i], row)),
            accepted ==> final(self).rows@ == old(self).rows@.push(row),
            !accepted ==> final(self).rows@ == old(self).rows@,
    {
        if row.id < self.next_id || row.id == i64::MAX {
            return false;
        }
        if self.conflict_with(&row).is_some() {
            return false;
        }
        let id = row.id;
        let ghost before = self.rows@;
        self.rows.push(row);
        self.next_id = id + 1;
        proof {
            assert forall|i: int, j: int| 0 <= i < self.rows@.len() && 0 <= j < self.rows@.len() && i != j implies !clashes(#[trigger] self.rows@[i], #[trigger] self.rows@[j]) by {
                if i < before.len() && j < before.len() {
                    assert(self.rows@[i] == before[i] && self.rows@[j] == before[j]);
                } else if i < before.len() {
                    assert(self.rows@[i] == before[i]);
                } else {
                    assert(self.rows@[j] == before[j]);
                }
            }
        }
        true
    }

    /// Inserts a new channel under the next row identifier, unless it
    /// clashes with a row of the table: then it reports the clash and the
    /// table is unchanged.
    pub fn insert(
        &mut self,
        domain: String,
        url: String,
        channel_id: String,
        channel_name: String,
        normalized_name: String,
    ) -> (r: Result<i64, ChannelConflict>)
        requires
            old(self).wf(),
            old(self).next_id < i64::MAX,
        ensures
            final(self).wf(),
            r is Ok <==> forall|i: int| 0 <= i < old(self).rows@.len() ==> !(#[trigger] old(self).rows@[i].domain@ == domain@ && (old(self).rows@[i].channel_id@ == channel_id@ || old(self).rows@[i].normalized_name@ == normalized_name@)),
            r matches Ok(id) ==> id == old(self).next_id && final(self).rows@ == old(self).rows@.push(
                ChannelRow { id, domain, url, channel_id, channel_name, normalized_name },
            ),
            r is Err ==> final(self).rows@ == old(self).rows@ && final(self).next_id == old(self).next_id,
    {
        let row = ChannelRow { id: self.next_id, domain, url, channel_id, channel_name, normalized_name };
        match self.conflict_with(&row) {
            Some(c) => {
                assert(!forall|i: int| 0 <= i < old(self).rows@.len() ==> !clashes(#[trigger] old(self).rows@[i], row));
                Err(c)
            },
            None => {
                let id = row.id;
                let ghost before = self.rows@;
                self.rows.push(row);
                self.next_id = id + 1;
                proof {
                    assert forall|i: int, j: int| 0 <= i < self.rows@.len() && 0 <= j < self.rows@.len() && i != j implies !clashes(#[trigger] self.rows@[i], #[trigger] self.rows@[j]) by {
                        if i < before.len() && j < before.len() {
                            assert(self.rows@[i] == before[i] && self.rows@[j] == before[j]);
                        } else if i < before.len() {
                            assert(self.rows@[i] == before[i]);
                        } else {
                            assert(self.rows@[j] == before[j]);
                        }
                    }
                    assert forall|i: int| 0 <= i < before.len() implies !(#[trigger] before[i].domain@ == row.domain@ && (before[i].channel_id@ == row.channel_id@ || before[i].normalized_name@ == row.normalized_name@)) by {
                        assert(!clashes(before[i], row));
                    }
                }
                Ok(id)
            },
        }
    }

    /// The row identifier of the channel of `domain` with source id `cid`.
    pub fn find(&self, domain: &String, cid: &String) -> (r: Option<i64>)
        requires
            self.wf(),
        ensures
            r == channel_for(self.rows@, domain@, cid@),
    {
        let mut i: usize = 0;
        while i < self.rows.len()
            invariant
                self.wf(),
                i <= self.rows@.len(),
                forall|k: int| 0 <= k < i ==> !((#[trigger] self.rows@[k]).domain@ == domain@ && self.rows@[k].channel_id@ == cid@),
            decreases self.rows@.len() - i,
        {
            if self.rows[i].domain == *domain && self.rows[i].channel_id == *cid {
                proof {
                    let rows = self.rows@;
                    assert(has_channel(rows, domain@, cid@)) by {
                        assert(rows[i as int].domain@ == domain@);
                    }
                    let j = choose|j: int| 0 <= j < rows.len() && (#[trigger] rows[j]).domain@ == domain@ && rows[j].channel_id@ == cid@;
                    if j != i as int {
                        assert(!clashes(rows[i as int], rows[j]));
                    }
                }
                return Some(self.rows[i].id);
            }
            i = i + 1;
        }
        None
    }
}

} // verus!
