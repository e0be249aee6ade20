//! The CHANNEL-ADD and CHANNEL-FETCH workers' decisions, and the listing
//! ingest that the recurring channel refresh shares with CHANNEL-FETCH.

use vstd::prelude::*;
use crate::channels::{channel_for, ChannelRow, ChannelTable};
use crate::dates::{parse_upload_date, upload_date_of, CalendarDate};
use crate::dispatch::TaskResult;
use crate::domain::{is_supported_domain, registrable_domain, supported_domain};
use crate::names::{normalize_channel_name, normalized_name};
use crate::protocol::{decode_field, decode_listing, field_value, listing_spec, listing_view, ListingRecord};
use crate::text::{chars_of, push_str_chars, string_of};
use crate::videos::{
    lemma_writes_never_downgrade,
    keys_unique, lemma_listing_writes_only_refresh, lemma_rerun_adds_no_rows, only_stamp_moved, refreshed,
    same_items, same_key, upserted_all, VideoRow,
    VideoTable, VideoView,
};
use crate::worker::{
    output_text, TaskChannelAddData, TaskChannelFetchData, ToolOutput, ERR_CHANNEL_EXISTS,
    ERR_CHANNEL_LOOKUP, ERR_LISTING_FAILED, ERR_MALFORMED_PAYLOAD, ERR_UNSUPPORTED_DOMAIN,
};

verus! {

/// What a channel registration starts from: the channel URL given and its
/// domain.
pub struct ChannelAddStart {
    pub url: String,
    pub domain: String,
}

/// Checks a registration payload and the domain found for its URL: only
/// the supported domain is accepted.
pub fn start_channel_add_in(task_id: isize, payload: Option<TaskChannelAddData>, domain: Option<String>) -> (r: Result<ChannelAddStart, TaskResult>)
    ensures
        payload is None ==> r == Err::<ChannelAddStart, TaskResult>(TaskResult::Failure(task_id, ERR_MALFORMED_PAYLOAD)),
        payload is Some && (domain is None || domain->0@ != supported_domain()) ==> r == Err::<ChannelAddStart, TaskResult>(TaskResult::Failure(task_id, ERR_UNSUPPORTED_DOMAIN)),
        payload is Some && domain is Some && domain->0@ == supported_domain() ==> (r matches Ok(s)
            && s.url@ == payload->0.url@ && s.domain@ == supported_domain()),
{
    match payload {
        None => Err(TaskResult::Failure(task_id, ERR_MALFORMED_PAYLOAD)),
        Some(p) => match domain {
            None => Err(TaskResult::Failure(task_id, ERR_UNSUPPORTED_DOMAIN)),
            Some(d) => {
                if is_supported_domain(d.as_str()) {
                    Ok(ChannelAddStart { url: p.url, domain: d })
                } else {
                    Err(TaskResult::Failure(task_id, ERR_UNSUPPORTED_DOMAIN))
                }
            },
        },
    }
}

/// Starts a channel registration: reads the payload and checks the domain
/// of its URL.
pub fn start_channel_add(task_id: isize, payload: Option<TaskChannelAddData>) -> (r: Result<ChannelAddStart, TaskResult>)
    ensures
        payload is None ==> r == Err::<ChannelAddStart, TaskResult>(TaskResult::Failure(task_id, ERR_MALFORMED_PAYLOAD)),
        payload is Some ==> r is Ok || r == Err::<ChannelAddStart, TaskResult>(TaskResult::Failure(task_id, ERR_UNSUPPORTED_DOMAIN)),
        r matches Ok(s) ==> (s.url@ == payload->0.url@ && s.domain@ == supported_domain()),
{
    match payload {
        None => Err(TaskResult::Failure(task_id, ERR_MALFORMED_PAYLOAD)),
        Some(p) => {
            let domain = registrable_domain(p.url.as_str());
            start_channel_add_in(task_id, Some(p), domain)
        },
    }
}

/// The single value a lookup run printed: its trimmed output, when the run
/// succeeded with text that is neither empty nor `NA`.
pub open spec fn lookup_value(o: ToolOutput) -> Option<Seq<char>> {
    match output_text(o) {
        Some(t) => match field_value(t) {
            Some(v) => if v.len() > 0 {
                Some(v)
            } else {
                None
            },
            None => None,
        },
        None => None,
    }
}

fn read_lookup(o: &ToolOutput) -> (r: Option<String>)
    ensures
        match r {
            Some(s) => lookup_value(*o) == Some(s@),
            None => lookup_value(*o) is None,
        },
{
    match o {
        ToolOutput::Finished(Some(t)) => match decode_field(&chars_of(t.as_str())) {
            Some(v) => {
                if chars_of(v.as_str()).len() > 0 {
                    Some(v)
                } else {
                    None
                }
            },
            None => None,
        },
        _ => None,
    }
}

/// The URL stored for a channel: `<domain>/channel/<id>`.
pub open spec fn channel_url(domain: Seq<char>, cid: Seq<char>) -> Seq<char> {
    domain + "/channel/"@ + cid
}

/// Registers the channel that the two lookup runs (channel id, channel
/// name) resolved. A failed lookup, or a clash with a registered channel,
/// is reported and leaves the table as it was.
pub fn register_channel(
    task_id: isize,
    start: &ChannelAddStart,
    id_run: &ToolOutput,
    name_run: &ToolOutput,
    channels: &mut ChannelTable,
) -> (r: TaskResult)
    requires
        old(channels).wf(),
    ensures
        final(channels).wf(),
        lookup_value(*id_run) is None || lookup_value(*name_run) is None ==> r == TaskResult::Failure(task_id, ERR_CHANNEL_LOOKUP)
            && final(channels).rows@ == old(channels).rows@,
        r is Failure ==> final(channels).rows@ == old(channels).rows@,
        lookup_value(*id_run) is Some && lookup_value(*name_run) is Some ==> r == if old(channels).next_id
            < i64::MAX && forall|i: int| 0 <= i < old(channels).rows@.len() ==> !(#[trigger] old(channels).rows@[i].domain@ == start.domain@
                && (old(channels).rows@[i].channel_id@ == lookup_value(*id_run)->0
                || old(channels).rows@[i].normalized_name@ == normalized_name(lookup_value(*name_run)->0))) {
            TaskResult::Success(task_id)
        } else {
            TaskResult::Failure(task_id, ERR_CHANNEL_EXISTS)
        },
        r is Success ==> final(channels).rows@.len() == old(channels).rows@.len() + 1
            && final(channels).rows@.take(old(channels).rows@.len() as int) == old(channels).rows@
            && registered_as(final(channels).rows@.last(), old(channels).next_id, start.domain@,
                lookup_value(*id_run)->0, lookup_value(*name_run)->0),
{
    let cid = match read_lookup(id_run) {
        Some(c) => c,
        None => {
            return TaskResult::Failure(task_id, ERR_CHANNEL_LOOKUP);
        },
    };
    let name = match read_lookup(name_run) {
        Some(n) => n,
        None => {
            return TaskResult::Failure(task_id, ERR_CHANNEL_LOOKUP);
        },
    };
    if channels.next_id == i64::MAX {
        return TaskResult::Failure(task_id, ERR_CHANNEL_EXISTS);
    }
    let mut url = chars_of(start.domain.as_str());
    push_str_chars(&mut url, "/channel/");
    push_str_chars(&mut url, cid.as_str());
    let normalized = normalize_channel_name(name.as_str());
    let ghost before = channels.rows@;
    let ghost id0 = channels.next_id;
    match channels.insert(start.domain.clone(), string_of(&url), cid, name, normalized) {
        Ok(_) => {
            assert(channels.rows@.take(before.len() as int) =~= before);
            TaskResult::Success(task_id)
        },
        Err(_) => TaskResult::Failure(task_id, ERR_CHANNEL_EXISTS),
    }
}

/// Whether `row` is the channel registered under row identifier `id` from
/// `domain`, source id `cid` and display name `name`.
pub open spec fn registered_as(row: ChannelRow, id: i64, domain: Seq<char>, cid: Seq<char>, name: Seq<char>) -> bool {
    &&& row.id == id
    &&& row.domain@ == domain
    &&& row.url@ == channel_url(domain, cid)
    &&& row.channel_id@ == cid
    &&& row.channel_name@ == name
    &&& row.normalized_name@ == normalized_name(name)
}


/// What a channel listing starts from: the domain, the source channel id,
/// and the URL of the channel's videos.
pub struct ChannelFetchStart {
    pub domain: String,
    pub channel_id: String,
    pub videos_url: String,
}

/// The URL of the videos of a channel.
pub open spec fn videos_url_of(domain: Seq<char>, cid: Seq<char>) -> Seq<char> {
    "https://www."@ + domain + "/channel/"@ + cid + "/videos"@
}

/// Checks a listing payload and the domain found for it: only the
/// supported domain is accepted.
pub fn start_channel_fetch_in(task_id: isize, payload: Option<TaskChannelFetchData>, domain: Option<String>) -> (r: Result<ChannelFetchStart, TaskResult>)
    ensures
        payload is None ==> r == Err::<ChannelFetchStart, TaskResult>(TaskResult::Failure(task_id, ERR_MALFORMED_PAYLOAD)),
        payload is Some && (domain is None || domain->0@ != supported_domain()) ==> r == Err::<ChannelFetchStart, TaskResult>(TaskResult::Failure(task_id, ERR_UNSUPPORTED_DOMAIN)),
        payload is Some && domain is Some && domain->0@ == supported_domain() ==> (r matches Ok(s)
            && s.domain@ == supported_domain() && s.channel_id@ == payload->0.channel_id@
            && s.videos_url@ == videos_url_of(supported_domain(), payload->0.channel_id@)),
{
    match payload {
        None => Err(TaskResult::Failure(task_id, ERR_MALFORMED_PAYLOAD)),
        Some(p) => match domain {
            None => Err(TaskResult::Failure(task_id, ERR_UNSUPPORTED_DOMAIN)),
            Some(d) => {
                if is_supported_domain(d.as_str()) {
                    let mut url: Vec<char> = Vec::new();
                    push_str_chars(&mut url, "https://www.");
                    push_str_chars(&mut url, d.as_str());
                    push_str_chars(&mut url, "/channel/");
                    push_str_chars(&mut url, p.channel_id.as_str());
                    push_str_chars(&mut url, "/videos");
                    assert(url@ =~= videos_url_of(d@, p.channel_id@));
                    Ok(ChannelFetchStart { domain: d, channel_id: p.channel_id, videos_url: string_of(&url) })
                } else {
                    Err(TaskResult::Failure(task_id, ERR_UNSUPPORTED_DOMAIN))
                }
            },
        },
    }
}

/// Starts a channel listing: reads the payload and checks the domain it
/// names.
pub fn start_channel_fetch(task_id: isize, payload: Option<TaskChannelFetchData>) -> (r: Result<ChannelFetchStart, TaskResult>)
    ensures
        payload is None ==> r == Err::<ChannelFetchStart, TaskResult>(TaskResult::Failure(task_id, ERR_MALFORMED_PAYLOAD)),
        payload is Some ==> r is Ok || r == Err::<ChannelFetchStart, TaskResult>(TaskResult::Failure(task_id, ERR_UNSUPPORTED_DOMAIN)),
        r matches Ok(s) ==> (s.domain@ == supported_domain() && s.channel_id@ == payload->0.channel_id@
            && s.videos_url@ == videos_url_of(supported_domain(), payload->0.channel_id@)),
{
    match payload {
        None => Err(TaskResult::Failure(task_id, ERR_MALFORMED_PAYLOAD)),
        Some(p) => {
            let domain = registrable_domain(p.domain.as_str());
            start_channel_fetch_in(task_id, Some(p), domain)
        },
    }
}

/// The row a listing line gives, or `None` when the line is skipped: it
/// needs a channel id, a URL, an upload date that parses and an item id,
/// and its channel must be registered. A listed item is neither requested
/// nor downloaded, and its upload date is only an estimate.
pub open spec fn listing_row(
    fields: Option<Seq<Option<Seq<char>>>>,
    domain: Seq<char>,
    channels: Seq<ChannelRow>,
    now: u64,
) -> Option<VideoView> {
    match fields {
        Some(f) => if f[0] is Some && f[2] is Some && f[3] is Some && f[5] is Some && upload_date_of(
            f[3]->0,
        ) is Some && channel_for(channels, domain, f[0]->0) is Some {
            let t = upload_date_of(f[3]->0)->0;
            Some(
                VideoView {
                    channel: channel_for(channels, domain, f[0]->0),
                    domain,
                    url: f[2]->0,
                    title: f[4],
                    video_id: f[5]->0,
                    is_requested: false,
                    is_downloaded: false,
                    release_date: None,
                    release_estimate: Some(CalendarDate { year: t.0 as i32, month: t.1 as u32, day: t.2 as u32 }),
                    updated_at: now,
                },
            )
        } else {
            None
        },
        None => None,
    }
}

/// The rows that the lines of a listing give, in order.
pub open spec fn listing_rows(
    lines: Seq<Option<Seq<Option<Seq<char>>>>>,
    domain: Seq<char>,
    channels: Seq<ChannelRow>,
    now: u64,
) -> Seq<VideoView>
    decreases lines.len(),
{
    if lines.len() == 0 {
        seq![]
    } else {
        let init = listing_rows(lines.drop_last(), domain, channels, now);
        match listing_row(lines.last(), domain, channels, now) {
            Some(v) => init.push(v),
            None => init,
        }
    }
}

/// Whether no line of a non-empty listing could be read.
pub open spec fn unreadable(lines: Seq<Option<Seq<Option<Seq<char>>>>>) -> bool {
    lines.len() > 0 && forall|i: int| 0 <= i < lines.len() ==> (#[trigger] lines[i]) is None
}

fn listing_video(rec: &ListingRecord, domain: &String, channels: &ChannelTable, now: u64) -> (r: Option<VideoRow>)
    requires
        channels.wf(),
    ensures
        match r {
            Some(v) => listing_row(Some(rec.fields()), domain@, channels.rows@, now) == Some(v@),
            None => listing_row(Some(rec.fields()), domain@, channels.rows@, now) is None,
        },
{
    let cid = match &rec.channel_id {
        Some(c) => c,
        None => {
            return None;
        },
    };
    let url = match &rec.url {
        Some(u) => u,
        None => {
            return None;
        },
    };
    let date = match &rec.upload_date {
        Some(d) => match parse_upload_date(d.as_str()) {
            Some(x) => x,
            None => {
                return None;
            },
        },
        None => {
            return None;
        },
    };
    let vid = match &rec.video_id {
        Some(v) => v,
        None => {
            return None;
        },
    };
    let channel = match channels.find(domain, cid) {
        Some(c) => c,
        None => {
            return None;
        },
    };
    let title = match &rec.title {
        Some(t) => Some(t.clone()),
        None => None,
    };
    Some(
        VideoRow {
            channel: Some(channel),
            domain: domain.clone(),
            url: url.clone(),
            title,
            video_id: vid.clone(),
            is_requested: false,
            is_downloaded: false,
            release_date: None,
            release_estimate: Some(date),
            updated_at: now,
        },
    )
}

/// Stores what a listing run printed: each readable line of a registered
/// channel with a valid upload date is written to the video table, the
/// other lines are skipped. The run fails only when the tool failed, its
/// output was not text, or no line at all could be read.
pub fn ingest_listing(
    task_id: isize,
    domain: &String,
    listing: &ToolOutput,
    channels: &ChannelTable,
    videos: &mut VideoTable,
    now: u64,
) -> (r: TaskResult)
    requires
        channels.wf(),
        old(videos).wf(),
    ensures
        final(videos).wf(),
        output_text(*listing) is None ==> r == TaskResult::Failure(task_id, ERR_LISTING_FAILED)
            && final(videos).view_rows() == old(videos).view_rows(),
        output_text(*listing) matches Some(text) ==> if unreadable(listing_spec(text)) {
            r == TaskResult::Failure(task_id, ERR_LISTING_FAILED) && final(videos).view_rows() == old(videos).view_rows()
        } else {
            r == TaskResult::Success(task_id) && final(videos).view_rows() == upserted_all(
                old(videos).view_rows(),
                listing_rows(listing_spec(text), domain@, channels.rows@, now),
            )
        },
        final(videos).view_rows().len() >= old(videos).view_rows().len(),
        forall|i: int|
            0 <= i < old(videos).view_rows().len() ==> only_stamp_moved(
                old(videos).view_rows()[i],
                #[trigger] final(videos).view_rows()[i],
            ),
{
    let ghost rows0 = videos.view_rows();
    assert forall|i: int| 0 <= i < rows0.len() implies only_stamp_moved(rows0[i], #[trigger] rows0[i]) by {
        assert(refreshed(rows0[i], rows0[i]) =~= rows0[i]);
    }
    let text = match listing {
        ToolOutput::Finished(Some(t)) => t,
        _ => {
            return TaskResult::Failure(task_id, ERR_LISTING_FAILED);
        },
    };
    let records = decode_listing(text.as_str());
    let ghost lines = listing_spec(text@);
    let mut any_read = false;
    let mut i: usize = 0;
    while i < records.len()
        invariant
            i <= records@.len(),
            channels.wf(),
            videos.wf(),
            records@.map_values(|x: Option<ListingRecord>| listing_view(x)) == lines,
            any_read == exists|k: int| 0 <= k < i && (#[trigger] lines[k]) is Some,
            videos.view_rows() == upserted_all(
                old(videos).view_rows(),
                listing_rows(lines.take(i as int), domain@, channels.rows@, now),
            ),
        decreases records@.len() - i,
    {
        let ghost t = lines.take(i + 1);
        assert(t.drop_last() =~= lines.take(i as int));
        assert(lines[i as int] == listing_view(records@[i as int]));
        let ghost before = listing_rows(lines.take(i as int), domain@, channels.rows@, now);
        match &records[i] {
            Some(rec) => {
                any_read = true;
                match listing_video(rec, domain, channels, now) {
                    Some(v) => {
                        let ghost vv = v@;
                        videos.upsert(v);
                        assert(listing_rows(t, domain@, channels.rows@, now) == before.push(vv));
                        assert(before.push(vv).drop_last() =~= before);
                    },
                    None => {},
                }
            },
            None => {},
        }
        i = i + 1;
    }
    assert(lines.take(i as int) =~= lines);
    if !any_read && records.len() > 0 {
        assert(unreadable(lines));
        // Nothing was written: every line was unreadable.
        assert(listing_rows(lines, domain@, channels.rows@, now) =~= Seq::<VideoView>::empty()) by {
            lemma_unreadable_rows(lines, domain@, channels.rows@, now);
        }
        return TaskResult::Failure(task_id, ERR_LISTING_FAILED);
    }
    proof {
        lemma_listing_only_refreshes(rows0, lines, domain@, channels.rows@, now);
    }
    TaskResult::Success(task_id)
}

proof fn lemma_unreadable_rows(lines: Seq<Option<Seq<Option<Seq<char>>>>>, domain: Seq<char>, channels: Seq<ChannelRow>, now: u64)
    requires
        forall|i: int| 0 <= i < lines.len() ==> (#[trigger] lines[i]) is None,
    ensures
        listing_rows(lines, domain, channels, now) == Seq::<VideoView>::empty(),
    decreases lines.len(),
{
    if lines.len() > 0 {
        let init = lines.drop_last();
        assert forall|i: int| 0 <= i < init.len() implies (#[trigger] init[i]) is None by {
            assert(init[i] == lines[i]);
        }
        lemma_unreadable_rows(init, domain, channels, now);
        assert(lines.last() is None);
    }
}

proof fn lemma_listing_items(lines: Seq<Option<Seq<Option<Seq<char>>>>>, domain: Seq<char>, channels: Seq<ChannelRow>, t1: u64, t2: u64)
    ensures
        same_items(listing_rows(lines, domain, channels, t1), listing_rows(lines, domain, channels, t2)),
    decreases lines.len(),
{
    if lines.len() > 0 {
        lemma_listing_items(lines.drop_last(), domain, channels, t1, t2);
        let a = listing_rows(lines, domain, channels, t1);
        let b = listing_rows(lines, domain, channels, t2);
        let a0 = listing_rows(lines.drop_last(), domain, channels, t1);
        let b0 = listing_rows(lines.drop_last(), domain, channels, t2);
        if listing_row(lines.last(), domain, channels, t1) is Some {
            assert forall|k: int| 0 <= k < a.len() implies same_key(#[trigger] a[k], b[k]) by {
                if k < a0.len() {
                    assert(a[k] == a0[k] && b[k] == b0[k]);
                }
            }
        } else {
            assert(a == a0 && b == b0);
        }
    }
}

proof fn lemma_listing_rows_not_downloaded(lines: Seq<Option<Seq<Option<Seq<char>>>>>, domain: Seq<char>, channels: Seq<ChannelRow>, now: u64)
    ensures
        forall|k: int| 0 <= k < listing_rows(lines, domain, channels, now).len() ==> !(#[trigger] listing_rows(lines, domain, channels, now)[k]).is_downloaded,
    decreases lines.len(),
{
    if lines.len() > 0 {
        lemma_listing_rows_not_downloaded(lines.drop_last(), domain, channels, now);
        let a = listing_rows(lines, domain, channels, now);
        let a0 = listing_rows(lines.drop_last(), domain, channels, now);
        assert forall|k: int| 0 <= k < a.len() implies !(#[trigger] a[k]).is_downloaded by {
            if k < a0.len() {
                assert(a[k] == a0[k]);
            }
        }
    }
}

/// A listing never changes a known video but for its timestamp: its flags,
/// dates, title and channel stay as they were, whatever the listing says.
pub proof fn lemma_listing_only_refreshes(
    rows: Seq<VideoView>,
    lines: Seq<Option<Seq<Option<Seq<char>>>>>,
    domain: Seq<char>,
    channels: Seq<ChannelRow>,
    now: u64,
)
    requires
        keys_unique(rows),
    ensures
        upserted_all(rows, listing_rows(lines, domain, channels, now)).len() >= rows.len(),
        forall|i: int|
            0 <= i < rows.len() ==> only_stamp_moved(
                rows[i],
                #[trigger] upserted_all(rows, listing_rows(lines, domain, channels, now))[i],
            ),
{
    lemma_listing_rows_not_downloaded(lines, domain, channels, now);
    lemma_listing_writes_only_refresh(rows, listing_rows(lines, domain, channels, now));
}

/// Listing the same channel output again, at any later time, adds no video
/// row and changes no row but for its timestamp: the items are keyed by
/// domain and item id, and a known item is only refreshed.
pub proof fn lemma_fetch_rerun_is_idempotent(
    rows: Seq<VideoView>,
    lines: Seq<Option<Seq<Option<Seq<char>>>>>,
    domain: Seq<char>,
    channels: Seq<ChannelRow>,
    t1: u64,
    t2: u64,
)
    requires
        keys_unique(rows),
    ensures
        ({
            let once = upserted_all(rows, listing_rows(lines, domain, channels, t1));
            let twice = upserted_all(once, listing_rows(lines, domain, channels, t2));
            &&& twice.len() == once.len()
            &&& keys_unique(twice)
            &&& forall|i: int| 0 <= i < once.len() ==> only_stamp_moved(once[i], #[trigger] twice[i])
        }),
{
    lemma_listing_items(lines, domain, channels, t1, t2);
    lemma_rerun_adds_no_rows(rows, listing_rows(lines, domain, channels, t1), listing_rows(lines, domain, channels, t2));
    lemma_writes_never_downgrade(rows, listing_rows(lines, domain, channels, t1));
    lemma_listing_only_refreshes(upserted_all(rows, listing_rows(lines, domain, channels, t1)), lines, domain, channels, t2);
}

/// The URLs whose listings the recurring channel refresh runs: the videos
/// page of each registered channel.
pub fn refresh_urls(channels: &ChannelTable) -> (r: Vec<String>)
    ensures
        r@.len() == channels.rows@.len(),
        forall|i: int| 0 <= i < r@.len() ==> (#[trigger] r@[i])@ == channels.rows@[i].url@ + "/videos"@,
{
    let mut r: Vec<String> = Vec::new();
    let mut i: usize = 0;
    while i < channels.rows.len()
        invariant
            i <= channels.rows@.len(),
            r@.len() == i,
            forall|k: int| 0 <= k < i ==> (#[trigger] r@[k])@ == channels.rows@[k].url@ + "/videos"@,
        decreases channels.rows@.len() - i,
    {
        let mut u = chars_of(channels.rows[i].url.as_str());
        push_str_chars(&mut u, "/videos");
        r.push(string_of(&u));
        i = i + 1;
    }
    r
}

} // verus!
