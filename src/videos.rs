//! The video table: known items of channels, unique by domain and source
//! item id. Writing a row that is already known only refreshes what it can
//! without losing anything recorded before.

use vstd::prelude::*;
use crate::dates::CalendarDate;

verus! {

/// A known video.
pub struct VideoRow {
    pub channel: Option<i64>,
    pub domain: String,
    pub url: String,
    pub title: Option<String>,
    pub video_id: String,
    pub is_requested: bool,
    pub is_downloaded: bool,
    pub release_date: Option<CalendarDate>,
    pub release_estimate: Option<CalendarDate>,
    pub updated_at: u64,
}

/// The mathematical value of a [`VideoRow`].
pub struct VideoView {
    pub channel: Option<i64>,
    pub domain: Seq<char>,
    pub url: Seq<char>,
    pub title: Option<Seq<char>>,
    pub video_id: Seq<char>,
    pub is_requested: bool,
    pub is_downloaded: bool,
    pub release_date: Option<CalendarDate>,
    pub release_estimate: Option<CalendarDate>,
    pub updated_at: u64,
}

impl View for VideoRow {
    type V = VideoView;

    open spec fn view(&self) -> VideoView {
        VideoView {
            channel: self.channel,
            domain: self.domain@,
            url: self.url@,
            title: match self.title {
                Some(t) => Some(t@),
                None => None,
            },
            video_id: self.video_id@,
            is_requested: self.is_requested,
            is_downloaded: self.is_downloaded,
            release_date: self.release_date,
            release_estimate: self.release_estimate,
            updated_at: self.updated_at,
        }
    }
}

/// Whether two rows are for the same item.
pub open spec fn same_key(a: VideoView, b: VideoView) -> bool {
    a.domain == b.domain && a.video_id == b.video_id
}

/// The first of two optional values that is present.
pub open spec fn first_some<T>(a: Option<T>, b: Option<T>) -> Option<T> {
    if a is Some {
        a
    } else {
        b
    }
}

/// A known row `old` after a write of `new` that only lists the item: the
/// row keeps everything it recorded, and only its timestamp moves.
pub open spec fn refreshed(old: VideoView, new: VideoView) -> VideoView {
    VideoView { updated_at: new.updated_at, ..old }
}

/// A known row `old` after a write of `new` that records a download: both
/// flags are set from it, a value the row lacks is filled in, values once
/// known stay as they were, and the timestamp moves.
pub open spec fn filled(old: VideoView, new: VideoView) -> VideoView {
    VideoView {
        channel: first_some(old.channel, new.channel),
        title: first_some(old.title, new.title),
        is_requested: old.is_requested || new.is_requested,
        is_downloaded: old.is_downloaded || new.is_downloaded,
        release_date: first_some(old.release_date, new.release_date),
        release_estimate: first_some(old.release_estimate, new.release_estimate),
        updated_at: new.updated_at,
        ..old
    }
}

/// A known row `old` after a write of `new` for the same item: a write
/// that records a download fills the row in (see [`filled`]); any other
/// write, such as a listing, only refreshes its timestamp.
pub open spec fn merged(old: VideoView, new: VideoView) -> VideoView {
    if new.is_downloaded {
        filled(old, new)
    } else {
        refreshed(old, new)
    }
}

/// Whether no two rows are for the same item.
pub open spec fn keys_unique(rows: Seq<VideoView>) -> bool {
    forall|i: int, j: int| 0 <= i < rows.len() && 0 <= j < rows.len() && i != j ==> !same_key(#[trigger] rows[i], #[trigger] rows[j])
}

/// Whether `rows` has a row for the item of `r`.
pub open spec fn has_key(rows: Seq<VideoView>, r: VideoView) -> bool {
    exists|i: int| 0 <= i < rows.len() && same_key(#[trigger] rows[i], r)
}

/// The rows after writing `r`: the known row for its item is merged with
/// it, or it is appended when its item is new.
pub open spec fn upserted(rows: Seq<VideoView>, r: VideoView) -> Seq<VideoView> {
    if has_key(rows, r) {
        let i = choose|i: int| 0 <= i < rows.len() && same_key(#[trigger] rows[i], r);
        rows.update(i, merged(rows[i], r))
    } else {
        rows.push(r)
    }
}

/// The rows after writing each of `batch` in turn.
pub open spec fn upserted_all(rows: Seq<VideoView>, batch: Seq<VideoView>) -> Seq<VideoView>
    decreases batch.len(),
{
    if batch.len() == 0 {
        rows
    } else {
        upserted(upserted_all(rows, batch.drop_last()), batch.last())
    }
}

fn merge_rows(old: VideoRow, new: VideoRow) -> (r: VideoRow)
    ensures
        r@ == merged(old@, new@),
{
    if !new.is_downloaded {
        return VideoRow { updated_at: new.updated_at, ..old };
    }
    VideoRow {
        channel: if old.channel.is_some() { old.channel } else { new.channel },
        domain: old.domain,
        url: old.url,
        title: if old.title.is_some() { old.title } else { new.title },
        video_id: old.video_id,
        is_requested: old.is_requested || new.is_requested,
        is_downloaded: old.is_downloaded || new.is_downloaded,
        release_date: if old.release_date.is_some() { old.release_date } else { new.release_date },
        release_estimate: if old.release_estimate.is_some() {
            old.release_estimate
        } else {
            new.release_estimate
        },
        updated_at: new.updated_at,
    }
}

/// The video rows.
pub struct VideoTable {
    pub rows: Vec<VideoRow>,
}

impl VideoTable {
    /// The rows, as values.
    pub open spec fn view_rows(&self) -> Seq<VideoView> {
        self.rows@.map_values(|r: VideoRow| r@)
    }

    /// No two rows are for the same item.
    pub open spec fn wf(&self) -> bool {
        keys_unique(self.view_rows())
    }

    /// An empty table.
    pub fn new() -> (r: VideoTable)
        ensures
            r.wf(),
            r.view_rows().len() == 0,
    {
        let r = VideoTable { rows: Vec::new() };
        assert(r.view_rows() =~= Seq::<VideoView>::empty());
        r
    }

    /// Writes `row`: merged into the known row for its item (see
/// [`merged`]), or appended.
    pub fn upsert(&mut self, row: VideoRow)
        requires
            old(self).wf(),
        ensures
            final(self).wf(),
            final(self).view_rows() == upserted(old(self).view_rows(), row@),
    {
        let ghost before = self.view_rows();
        let mut i: usize = 0;
        while i < self.rows.len()
            invariant
                i <= self.rows@.len(),
                before == self.view_rows(),
                before == old(self).view_rows(),
                keys_unique(before),
                forall|k: int| 0 <= k < i ==> !same_key(#[trigger] before[k], row@),
            decreases self.rows@.len() - i,
        {
            assert(before[i as int] == self.rows@[i as int]@);
            if self.rows[i].domain == row.domain && self.rows[i].video_id == row.video_id {
                proof {
                    assert(has_key(before, row@)) by {
                        assert(same_key(before[i as int], row@));
                    }
                    let j = choose|j: int| 0 <= j < before.len() && same_key(#[trigger] before[j], row@);
                    if j != i as int {
                        assert(!same_key(before[i as int], before[j]));
                    }
                    assert(j == i as int);
                    assert(upserted(before, row@) == before.update(i as int, merged(before[i as int], row@)));
                }
                let old_row = self.rows.remove(i);
                let m = merge_rows(old_row, row);
                self.rows.insert(i, m);
                proof {
                    let after = self.view_rows();
                    assert(after =~= before.update(i as int, merged(before[i as int], row@)));
                    assert forall|a: int, b: int| 0 <= a < after.len() && 0 <= b < after.len() && a != b implies !same_key(#[trigger] after[a], #[trigger] after[b]) by {
                        assert(same_key(after[a], before[a]));
                        assert(same_key(after[b], before[b]));
                    }
                }
                return;
            }
            i = i + 1;
        }
        self.rows.push(row);
        proof {
            let after = self.view_rows();
            assert(after =~= before.push(row@));
            assert forall|a: int, b: int| 0 <= a < after.len() && 0 <= b < after.len() && a != b implies !same_key(#[trigger] after[a], #[trigger] after[b]) by {
                if a < before.len() && b < before.len() {
                    assert(after[a] == before[a] && after[b] == before[b]);
                } else if a < before.len() {
                    assert(after[a] == before[a]);
                } else {
                    assert(after[b] == before[b]);
                }
            }
        }
    }
}


proof fn lemma_upsert_shape(rows: Seq<VideoView>, r: VideoView)
    requires
        keys_unique(rows),
    ensures
        keys_unique(upserted(rows, r)),
        has_key(upserted(rows, r), r),
        has_key(rows, r) ==> upserted(rows, r).len() == rows.len(),
        !has_key(rows, r) ==> upserted(rows, r).len() == rows.len() + 1,
        forall|i: int| 0 <= i < rows.len() ==> same_key(#[trigger] upserted(rows, r)[i], rows[i]),
        forall|i: int| 0 <= i < rows.len() ==> upserted(rows, r)[i] == rows[i] || (same_key(rows[i], r) && upserted(rows, r)[i] == merged(rows[i], r)),
        forall|x: VideoView| has_key(rows, x) ==> has_key(upserted(rows, r), x),
{
    let u = upserted(rows, r);
    if has_key(rows, r) {
        let k = choose|i: int| 0 <= i < rows.len() && same_key(#[trigger] rows[i], r);
        assert(u == rows.update(k, merged(rows[k], r)));
        assert(same_key(u[k], r));
        assert forall|a: int, b: int| 0 <= a < u.len() && 0 <= b < u.len() && a != b implies !same_key(#[trigger] u[a], #[trigger] u[b]) by {
            assert(same_key(u[a], rows[a]));
            assert(same_key(u[b], rows[b]));
        }
        assert forall|x: VideoView| has_key(rows, x) implies has_key(u, x) by {
            let i = choose|i: int| 0 <= i < rows.len() && same_key(#[trigger] rows[i], x);
            assert(same_key(u[i], x));
        }
    } else {
        assert(u == rows.push(r));
        assert(same_key(u[rows.len() as int], r));
        assert forall|a: int, b: int| 0 <= a < u.len() && 0 <= b < u.len() && a != b implies !same_key(#[trigger] u[a], #[trigger] u[b]) by {
            if a < rows.len() && b < rows.len() {
                assert(u[a] == rows[a] && u[b] == rows[b]);
            } else if a < rows.len() {
                assert(u[a] == rows[a]);
            } else {
                assert(u[b] == rows[b]);
            }
        }
        assert forall|x: VideoView| has_key(rows, x) implies has_key(u, x) by {
            let i = choose|i: int| 0 <= i < rows.len() && same_key(#[trigger] rows[i], x);
            assert(u[i] == rows[i]);
        }
    }
}

/// Writing the same row twice leaves the table as writing it once.
pub proof fn lemma_upsert_idempotent(rows: Seq<VideoView>, r: VideoView)
    requires
        keys_unique(rows),
    ensures
        upserted(upserted(rows, r), r) == upserted(rows, r),
{
    lemma_upsert_shape(rows, r);
    let u = upserted(rows, r);
    let k = choose|i: int| 0 <= i < u.len() && same_key(#[trigger] u[i], r);
    if has_key(rows, r) {
        let i = choose|i: int| 0 <= i < rows.len() && same_key(#[trigger] rows[i], r);
        if k != i {
            assert(same_key(u[i], r));
            assert(!same_key(u[i], u[k]));
        }
        assert(merged(u[k], r) == u[k]);
    } else {
        if k != rows.len() {
            assert(u[rows.len() as int] == r);
            assert(!same_key(u[k], u[rows.len() as int]));
        }
        assert(u[k] == r);
        assert(merged(r, r) == r);
    }
    assert(upserted(u, r) =~= u);
}

/// What a row of `old` records that a later table must keep: its item,
/// the flags it has set and the dates it knows.
pub open spec fn kept(old: VideoView, new: VideoView) -> bool {
    &&& same_key(new, old)
    &&& old.is_requested ==> new.is_requested
    &&& old.is_downloaded ==> new.is_downloaded
    &&& old.release_date is Some ==> new.release_date == old.release_date
    &&& old.release_estimate is Some ==> new.release_estimate == old.release_estimate
}

/// A batch of writes never loses a row, clears a flag, or replaces a known
/// date: each row keeps its place and what it recorded.
pub proof fn lemma_writes_never_downgrade(rows: Seq<VideoView>, batch: Seq<VideoView>)
    requires
        keys_unique(rows),
    ensures
        keys_unique(upserted_all(rows, batch)),
        upserted_all(rows, batch).len() >= rows.len(),
        forall|i: int| 0 <= i < rows.len() ==> kept(rows[i], #[trigger] upserted_all(rows, batch)[i]),
    decreases batch.len(),
{
    if batch.len() > 0 {
        lemma_writes_never_downgrade(rows, batch.drop_last());
        let p = upserted_all(rows, batch.drop_last());
        lemma_upsert_shape(p, batch.last());
        let u = upserted(p, batch.last());
        assert forall|i: int| 0 <= i < rows.len() implies kept(rows[i], #[trigger] upserted_all(rows, batch)[i]) by {
            assert(kept(rows[i], p[i]));
            assert(u[i] == p[i] || u[i] == merged(p[i], batch.last()));
        }
    }
}

proof fn lemma_known_keys_add_no_rows(rows: Seq<VideoView>, batch: Seq<VideoView>)
    requires
        keys_unique(rows),
        forall|k: int| 0 <= k < batch.len() ==> has_key(rows, #[trigger] batch[k]),
    ensures
        upserted_all(rows, batch).len() == rows.len(),
        forall|x: VideoView| has_key(rows, x) ==> has_key(upserted_all(rows, batch), x),
        keys_unique(upserted_all(rows, batch)),
    decreases batch.len(),
{
    if batch.len() > 0 {
        let init = batch.drop_last();
        assert forall|k: int| 0 <= k < init.len() implies has_key(rows, #[trigger] init[k]) by {
            assert(init[k] == batch[k]);
        }
        lemma_known_keys_add_no_rows(rows, init);
        let p = upserted_all(rows, init);
        lemma_upsert_shape(p, batch.last());
        assert(has_key(rows, batch[batch.len() - 1]));
    }
}

proof fn lemma_batch_keys_present(rows: Seq<VideoView>, batch: Seq<VideoView>)
    requires
        keys_unique(rows),
    ensures
        forall|k: int| 0 <= k < batch.len() ==> has_key(upserted_all(rows, batch), #[trigger] batch[k]),
    decreases batch.len(),
{
    if batch.len() > 0 {
        let init = batch.drop_last();
        lemma_batch_keys_present(rows, init);
        lemma_writes_never_downgrade(rows, init);
        let p = upserted_all(rows, init);
        lemma_upsert_shape(p, batch.last());
        assert forall|k: int| 0 <= k < batch.len() implies has_key(upserted_all(rows, batch), #[trigger] batch[k]) by {
            if k < init.len() {
                assert(init[k] == batch[k]);
                assert(has_key(p, init[k]));
            }
        }
    }
}

/// Whether `new` is `old` with only its timestamp moved.
pub open spec fn only_stamp_moved(old: VideoView, new: VideoView) -> bool {
    new == refreshed(old, new)
}

/// A batch of writes that records no download leaves every known row as
/// it was, but for its timestamp.
pub proof fn lemma_listing_writes_only_refresh(rows: Seq<VideoView>, batch: Seq<VideoView>)
    requires
        keys_unique(rows),
        forall|k: int| 0 <= k < batch.len() ==> !(#[trigger] batch[k]).is_downloaded,
    ensures
        upserted_all(rows, batch).len() >= rows.len(),
        forall|i: int| 0 <= i < rows.len() ==> only_stamp_moved(rows[i], #[trigger] upserted_all(rows, batch)[i]),
    decreases batch.len(),
{
    if batch.len() > 0 {
        let init = batch.drop_last();
        assert forall|k: int| 0 <= k < init.len() implies !(#[trigger] init[k]).is_downloaded by {
            assert(init[k] == batch[k]);
        }
        lemma_listing_writes_only_refresh(rows, init);
        lemma_writes_never_downgrade(rows, init);
        let p = upserted_all(rows, init);
        let last = batch.last();
        assert(!batch[batch.len() - 1].is_downloaded);
        lemma_upsert_shape(p, last);
        let u = upserted(p, last);
        assert forall|i: int| 0 <= i < rows.len() implies only_stamp_moved(rows[i], #[trigger] upserted_all(rows, batch)[i]) by {
            assert(only_stamp_moved(rows[i], p[i]));
            assert(u[i] == p[i] || u[i] == merged(p[i], last));
        }
    }
}

/// Whether two batches write the same items, in the same order.
pub open spec fn same_items(a: Seq<VideoView>, b: Seq<VideoView>) -> bool {
    a.len() == b.len() && forall|k: int| 0 <= k < a.len() ==> same_key(#[trigger] a[k], b[k])
}

/// Running a batch of writes again for the same items adds no row: every
/// item it names is known after the first run, so the table keeps its
/// length, keeps one row per item, and keeps what the first run recorded.
pub proof fn lemma_rerun_adds_no_rows(rows: Seq<VideoView>, first: Seq<VideoView>, again: Seq<VideoView>)
    requires
        keys_unique(rows),
        same_items(first, again),
    ensures
        upserted_all(upserted_all(rows, first), again).len() == upserted_all(rows, first).len(),
        keys_unique(upserted_all(upserted_all(rows, first), again)),
        forall|i: int| 0 <= i < upserted_all(rows, first).len() ==> kept(upserted_all(rows, first)[i], #[trigger] upserted_all(upserted_all(rows, first), again)[i]),
{
    let u = upserted_all(rows, first);
    lemma_writes_never_downgrade(rows, first);
    lemma_batch_keys_present(rows, first);
    assert forall|k: int| 0 <= k < again.len() implies has_key(u, #[trigger] again[k]) by {
        assert(has_key(u, first[k]));
        let i = choose|i: int| 0 <= i < u.len() && same_key(#[trigger] u[i], first[k]);
        assert(same_key(first[k], again[k]));
        assert(same_key(u[i], again[k]));
    }
    lemma_known_keys_add_no_rows(u, again);
    lemma_writes_never_downgrade(u, again);
}

} // verus!
