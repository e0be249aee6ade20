//! The VIDEO-DOWNLOAD worker's decisions: what to ask the tool, where the
//! files go, and what is recorded once the download has run.

use vstd::prelude::*;
use crate::channels::{channel_for, ChannelTable};
use crate::dates::{parse_upload_date, upload_date_of, CalendarDate};
use crate::dispatch::TaskResult;
use crate::domain::{joined_domain, registrable_domain};
use crate::protocol::{decode_filename_fields, filename_record, opt_view};
use crate::relocate::components;
use crate::text::{chars_of, find_from, first_from, push_str_chars, slice_of, string_of};
use crate::videos::{upserted, VideoRow, VideoTable, VideoView};
use crate::worker::{
    output_text, TaskDownloadData, ToolOutput, ERR_DOWNLOAD_FAILED, ERR_MALFORMED_PAYLOAD,
    ERR_NO_DOMAIN, ERR_RESOLVE_FAILED, ERR_RESOLVE_OUTPUT,
};

verus! {

/// The query marker that starts a playlist reference in a video URL.
pub open spec fn playlist_marker() -> Seq<char> {
    seq!['&', 'l', 'i', 's', 't']
}

/// `url` without its playlist reference: the part before the first `&list`.
pub open spec fn without_playlist(url: Seq<char>) -> Seq<char> {
    let k = first_from(url, playlist_marker(), 0);
    if k < 0 {
        url
    } else {
        url.subrange(0, k)
    }
}

/// Cuts the playlist reference off a video URL.
pub fn strip_playlist(url: &str) -> (r: String)
    ensures
        r@ == without_playlist(url@),
{
    let u = chars_of(url);
    let marker = vec!['&', 'l', 'i', 's', 't'];
    assert(marker@ =~= playlist_marker());
    match find_from(&u, &marker, 0) {
        Some(k) => {
            proof {
                crate::text::lemma_first_from_bounds(u@, marker@, 0);
            }
            string_of(&slice_of(&u, 0, k))
        },
        None => string_of(&u),
    }
}

/// What a download starts from: the video URL, its domain, and the URL to
/// resolve filename fields with.
pub struct DownloadStart {
    pub url: String,
    pub domain: String,
    pub resolve_url: String,
}

/// Checks a download payload and the domain found for its URL.
pub fn start_download_in(task_id: isize, payload: Option<TaskDownloadData>, domain: Option<String>) -> (r: Result<DownloadStart, TaskResult>)
    ensures
        payload is None ==> r == Err::<DownloadStart, TaskResult>(TaskResult::Failure(task_id, ERR_MALFORMED_PAYLOAD)),
        payload is Some && domain is None ==> r == Err::<DownloadStart, TaskResult>(TaskResult::Failure(task_id, ERR_NO_DOMAIN)),
        payload is Some && domain is Some ==> (r matches Ok(s) && s.url@ == payload->0.url@ && s.domain@ == domain->0@
            && s.resolve_url@ == without_playlist(payload->0.url@)),
{
    match payload {
        None => Err(TaskResult::Failure(task_id, ERR_MALFORMED_PAYLOAD)),
        Some(p) => match domain {
            None => Err(TaskResult::Failure(task_id, ERR_NO_DOMAIN)),
            Some(d) => {
                let resolve_url = strip_playlist(p.url.as_str());
                Ok(DownloadStart { url: p.url, domain: d, resolve_url })
            },
        },
    }
}

/// Starts a download: reads the payload and finds the URL's domain.
pub fn start_download(task_id: isize, payload: Option<TaskDownloadData>) -> (r: Result<DownloadStart, TaskResult>)
    ensures
        payload is None ==> r == Err::<DownloadStart, TaskResult>(TaskResult::Failure(task_id, ERR_MALFORMED_PAYLOAD)),
        payload is Some ==> r is Ok || r == Err::<DownloadStart, TaskResult>(TaskResult::Failure(task_id, ERR_NO_DOMAIN)),
        r matches Ok(s) ==> (s.url@ == payload->0.url@ && s.resolve_url@ == without_playlist(payload->0.url@)
            && exists|l: Seq<char>, x: Seq<char>| s.domain@ == joined_domain(l, x)),
{
    match payload {
        None => Err(TaskResult::Failure(task_id, ERR_MALFORMED_PAYLOAD)),
        Some(p) => {
            let domain = registrable_domain(p.url.as_str());
            let ghost d = domain;
            let r = start_download_in(task_id, Some(p), domain);
            proof {
                if r is Ok {
                    assert(r->Ok_0.domain@ == d->0@);
                }
            }
            r
        },
    }
}

/// Whether some part is present.
pub open spec fn any_present(parts: Seq<Option<Seq<char>>>) -> bool {
    exists|i: int| 0 <= i < parts.len() && (#[trigger] parts[i]) is Some
}

/// The separator between the parts of a filename.
pub open spec fn part_separator() -> Seq<char> {
    seq![' ', '-', ' ']
}

/// The present parts, joined by ` - `.
pub open spec fn joined_parts(parts: Seq<Option<Seq<char>>>) -> Seq<char>
    decreases parts.len(),
{
    if parts.len() == 0 {
        seq![]
    } else {
        let init = joined_parts(parts.drop_last());
        match parts.last() {
            None => init,
            Some(p) => if any_present(parts.drop_last()) {
                init + part_separator() + p
            } else {
                p
            },
        }
    }
}

proof fn lemma_none_present(parts: Seq<Option<Seq<char>>>)
    requires
        !any_present(parts),
    ensures
        joined_parts(parts) == Seq::<char>::empty(),
    decreases parts.len(),
{
    if parts.len() > 0 {
        assert(parts.last() is None) by {
            if parts.last() is Some {
                assert(parts[parts.len() - 1] is Some);
            }
        }
        assert(!any_present(parts.drop_last())) by {
            if any_present(parts.drop_last()) {
                let k = choose|k: int| 0 <= k < parts.drop_last().len() && (#[trigger] parts.drop_last()[k]) is Some;
                assert(parts[k] is Some);
            }
        }
        lemma_none_present(parts.drop_last());
    }
}

/// The first four characters of an upload date: its year.
pub open spec fn year_of(date: Option<Seq<char>>) -> Option<Seq<char>> {
    match date {
        Some(d) => if d.len() >= 4 {
            Some(d.subrange(0, 4))
        } else {
            None
        },
        None => None,
    }
}

/// The directory name for items without a year.
pub open spec fn no_year_dir() -> Seq<char> {
    seq!['o', 't', 'h', 'e', 'r']
}

/// The destination under the media root: domain, channel name when known,
/// and year or `other`.
pub open spec fn destination_of(domain: Seq<char>, channel: Option<Seq<char>>, year: Option<Seq<char>>) -> Seq<Seq<char>> {
    let head = match channel {
        Some(c) => seq![domain, c],
        None => seq![domain],
    };
    match year {
        Some(y) => head.push(y),
        None => head.push(no_year_dir()),
    }
}

/// The output template the tool downloads with, by whether the channel
/// name and the year are known.
pub open spec fn template_for(has_channel: bool, has_year: bool) -> Seq<char> {
    if has_channel && has_year {
        "%(channel)s - %(upload_date)s - %(title)s - %(id)s.%(ext)s"@
    } else if has_channel {
        "%(channel)s - %(title)s - %(id)s.%(ext)s"@
    } else if has_year {
        "%(upload_date)s - %(title)s - %(id)s.%(ext)s"@
    } else {
        "%(title)s - %(id)s.%(ext)s"@
    }
}

/// The date an upload-date field names, as a date.
pub open spec fn field_date(f: Option<Seq<char>>) -> Option<CalendarDate> {
    match f {
        Some(d) => match upload_date_of(d) {
            Some(t) => Some(CalendarDate { year: t.0 as i32, month: t.1 as u32, day: t.2 as u32 }),
            None => None,
        },
        None => None,
    }
}

/// The row recorded for a downloaded video: requested and downloaded, with
/// its upload date as both release date and estimate.
pub open spec fn downloaded_video(
    fields: Seq<Option<Seq<char>>>,
    domain: Seq<char>,
    url: Seq<char>,
    channels: Seq<crate::channels::ChannelRow>,
    now: u64,
) -> Option<VideoView> {
    match fields[4] {
        Some(vid) => Some(
            VideoView {
                channel: match fields[0] {
                    Some(cid) => channel_for(channels, domain, cid),
                    None => None,
                },
                domain,
                url,
                title: fields[3],
                video_id: vid,
                is_requested: true,
                is_downloaded: true,
                release_date: field_date(fields[2]),
                release_estimate: field_date(fields[2]),
                updated_at: now,
            },
        ),
        None => None,
    }
}

/// What the download needs: the filename prefix of its files, the path
/// the tool writes to, the destination components under the media root,
/// and the row to record once it has run.
pub struct DownloadPlan {
    pub filename_prefix: String,
    pub output_path: String,
    pub destination: Vec<String>,
    pub video: Option<VideoRow>,
}

/// The view of an optional row.
pub open spec fn opt_row(v: Option<VideoRow>) -> Option<VideoView> {
    match v {
        Some(r) => Some(r@),
        None => None,
    }
}

fn clone_opt(o: &Option<String>) -> (r: Option<String>)
    ensures
        opt_view(r) == opt_view(*o),
{
    match o {
        Some(s) => Some(s.clone()),
        None => None,
    }
}

fn join_present(parts: &Vec<Option<String>>) -> (r: String)
    ensures
        r@ == joined_parts(parts@.map_values(|o: Option<String>| opt_view(o))),
{
    let ghost pv = parts@.map_values(|o: Option<String>| opt_view(o));
    let mut out: Vec<char> = Vec::new();
    let mut any = false;
    let mut i: usize = 0;
    while i < parts.len()
        invariant
            i <= parts.len(),
            pv == parts@.map_values(|o: Option<String>| opt_view(o)),
            out@ == joined_parts(pv.take(i as int)),
            any == any_present(pv.take(i as int)),
        decreases parts.len() - i,
    {
        let ghost t = pv.take(i + 1);
        assert(t.drop_last() =~= pv.take(i as int));
        assert(t.last() == opt_view(parts@[i as int]));
        match &parts[i] {
            None => {
                assert(any_present(t) == any_present(pv.take(i as int))) by {
                    if any_present(t) {
                        let k = choose|k: int| 0 <= k < t.len() && (#[trigger] t[k]) is Some;
                        assert(k < i);
                        assert(pv.take(i as int)[k] == t[k]);
                    }
                    if any_present(pv.take(i as int)) {
                        let k = choose|k: int| 0 <= k < i && (#[trigger] pv.take(i as int)[k]) is Some;
                        assert(t[k] == pv.take(i as int)[k]);
                    }
                }
                assert(joined_parts(t) == joined_parts(pv.take(i as int)));
            },
            Some(p) => {
                let ghost before = out@;
                let ghost was_any = any;
                if any {
                    push_str_chars(&mut out, " - ");
                    proof {
                        reveal_strlit(" - ");
                    }
                    assert(" - "@ =~= part_separator());
                }
                let ghost mid = out@;
                assert(was_any ==> mid == before + part_separator());
                assert(!was_any ==> mid == before);
                push_str_chars(&mut out, p.as_str());
                any = true;
                assert(t[i as int] is Some);
                assert(t.last() == Some(p@));
                proof {
                    if any_present(pv.take(i as int)) {
                        assert(joined_parts(t) == joined_parts(pv.take(i as int)) + part_separator() + p@);
                    } else {
                        lemma_none_present(pv.take(i as int));
                        assert(joined_parts(t) == p@);
                    }
                    assert(out@ =~= joined_parts(t));
                }
            },
        }
        i = i + 1;
    }
    assert(pv.take(i as int) =~= pv);
    string_of(&out)
}

fn year_prefix(date: &Option<String>) -> (r: Option<String>)
    ensures
        opt_view(r) == year_of(opt_view(*date)),
{
    match date {
        Some(d) => {
            let c = chars_of(d.as_str());
            if c.len() >= 4 {
                Some(string_of(&slice_of(&c, 0, 4)))
            } else {
                None
            }
        },
        None => None,
    }
}

fn template(has_channel: bool, has_year: bool) -> (r: &'static str)
    ensures
        r@ == template_for(has_channel, has_year),
{
    if has_channel && has_year {
        "%(channel)s - %(upload_date)s - %(title)s - %(id)s.%(ext)s"
    } else if has_channel {
        "%(channel)s - %(title)s - %(id)s.%(ext)s"
    } else if has_year {
        "%(upload_date)s - %(title)s - %(id)s.%(ext)s"
    } else {
        "%(title)s - %(id)s.%(ext)s"
    }
}


/// The filename prefix of the files of a download: channel name, upload
/// date, title and item id, those present, joined by ` - `.
pub open spec fn filename_prefix_of(fields: Seq<Option<Seq<char>>>) -> Seq<char> {
    joined_parts(seq![fields[1], fields[2], fields[3], fields[4]])
}

/// The fields a filename-resolution run gave, when it succeeded with a
/// readable record.
pub open spec fn resolved_fields(resolved: ToolOutput) -> Option<Seq<Option<Seq<char>>>> {
    match output_text(resolved) {
        Some(text) => filename_record(text),
        None => None,
    }
}

/// Whether `p` is the plan for a download with resolved fields `f`.
pub open spec fn plan_follows(
    p: DownloadPlan,
    f: Seq<Option<Seq<char>>>,
    start: &DownloadStart,
    scratch: Seq<char>,
    channels: Seq<crate::channels::ChannelRow>,
    now: u64,
) -> bool {
    &&& p.filename_prefix@ == filename_prefix_of(f)
    &&& p.output_path@ == scratch + seq!['/'] + template_for(f[1] is Some, year_of(f[2]) is Some)
    &&& components(p.destination@) == destination_of(start.domain@, f[1], year_of(f[2]))
    &&& opt_row(p.video) == downloaded_video(f, start.domain@, start.url@, channels, now)
}

/// Plans a download from the output of the filename-resolution run.
pub fn plan_download(
    task_id: isize,
    start: &DownloadStart,
    resolved: ToolOutput,
    scratch: &str,
    channels: &ChannelTable,
    now: u64,
) -> (r: Result<DownloadPlan, TaskResult>)
    requires
        channels.wf(),
    ensures
        !(resolved is Finished) ==> r == Err::<DownloadPlan, TaskResult>(TaskResult::Failure(task_id, ERR_RESOLVE_FAILED)),
        resolved is Finished && (output_text(resolved) is None || filename_record(output_text(resolved)->0) is None)
            ==> r == Err::<DownloadPlan, TaskResult>(TaskResult::Failure(task_id, ERR_RESOLVE_OUTPUT)),
        resolved_fields(resolved) matches Some(f) ==> (r matches Ok(p) && plan_follows(
            p,
            f,
            start,
            scratch@,
            channels.rows@,
            now,
        )),
{
    let text = match resolved {
        ToolOutput::Finished(Some(t)) => t,
        ToolOutput::Finished(None) => {
            return Err(TaskResult::Failure(task_id, ERR_RESOLVE_OUTPUT));
        },
        _ => {
            return Err(TaskResult::Failure(task_id, ERR_RESOLVE_FAILED));
        },
    };
    let f = match decode_filename_fields(text.as_str()) {
        None => {
            return Err(TaskResult::Failure(task_id, ERR_RESOLVE_OUTPUT));
        },
        Some(f) => f,
    };
    let ghost fv = f.fields();
    let parts = vec![
        clone_opt(&f.channel_name),
        clone_opt(&f.upload_date),
        clone_opt(&f.title),
        clone_opt(&f.video_id),
    ];
    assert(parts@.map_values(|o: Option<String>| opt_view(o)) =~= seq![fv[1], fv[2], fv[3], fv[4]]);
    let filename_prefix = join_present(&parts);
    let year = year_prefix(&f.upload_date);
    let tmpl = template(f.channel_name.is_some(), year.is_some());
    let mut path = chars_of(scratch);
    path.push('/');
    push_str_chars(&mut path, tmpl);
    let output_path = string_of(&path);
    let mut destination: Vec<String> = Vec::new();
    destination.push(start.domain.clone());
    match &f.channel_name {
        Some(c) => {
            destination.push(c.clone());
        },
        None => {},
    }
    match year {
        Some(y) => {
            destination.push(y);
        },
        None => {
            let other = vec!['o', 't', 'h', 'e', 'r'];
            assert(other@ =~= no_year_dir());
            destination.push(string_of(&other));
        },
    }
    assert(components(destination@) =~= destination_of(start.domain@, fv[1], year_of(fv[2])));
    let date = match &f.upload_date {
        Some(d) => parse_upload_date(d.as_str()),
        None => None,
    };
    assert(date == field_date(fv[2]));
    let channel = match &f.channel_id {
        Some(cid) => channels.find(&start.domain, cid),
        None => None,
    };
    let video = match f.video_id {
        Some(vid) => Some(
            VideoRow {
                channel,
                domain: start.domain.clone(),
                url: start.url.clone(),
                title: f.title,
                video_id: vid,
                is_requested: true,
                is_downloaded: true,
                release_date: date,
                release_estimate: date,
                updated_at: now,
            },
        ),
        None => None,
    };
    let plan = DownloadPlan { filename_prefix, output_path, destination, video };
    assert(resolved_fields(resolved) == Some(fv));
    assert(plan.filename_prefix@ == filename_prefix_of(fv));
    assert(plan.output_path@ =~= scratch@ + seq!['/'] + template_for(fv[1] is Some, year_of(fv[2]) is Some));
    assert(opt_row(plan.video) == downloaded_video(fv, start.domain@, start.url@, channels.rows@, now));
    Ok(plan)
}

/// Ends a download once the tool has run: a failed run reports its error
/// and records nothing; a successful one records the planned row.
pub fn finish_download(task_id: isize, plan: DownloadPlan, download: &ToolOutput, videos: &mut VideoTable) -> (r: TaskResult)
    requires
        old(videos).wf(),
    ensures
        final(videos).wf(),
        !(*download is Finished) ==> r == TaskResult::Failure(task_id, ERR_DOWNLOAD_FAILED)
            && final(videos).view_rows() == old(videos).view_rows(),
        *download is Finished ==> r == TaskResult::Success(task_id) && final(videos).view_rows() == match opt_row(plan.video) {
            Some(v) => upserted(old(videos).view_rows(), v),
            None => old(videos).view_rows(),
        },
{
    if !download.succeeded() {
        return TaskResult::Failure(task_id, ERR_DOWNLOAD_FAILED);
    }
    match plan.video {
        Some(v) => {
            videos.upsert(v);
        },
        None => {},
    }
    TaskResult::Success(task_id)
}

} // verus!
