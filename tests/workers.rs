use tubarr::channel_tasks::{
    ingest_listing, refresh_urls, register_channel, start_channel_add, start_channel_add_in,
    start_channel_fetch, start_channel_fetch_in, ChannelAddStart,
};
use tubarr::channels::{ChannelConflict, ChannelTable};
use tubarr::dates::{parse_upload_date, CalendarDate};
use tubarr::dispatch::{Dispatcher, TaskResult};
use tubarr::domain::{domain_from_parts, registrable_domain};
use tubarr::download::{finish_download, plan_download, start_download, start_download_in, strip_playlist};
use tubarr::queue::{TaskQueue, TaskState};
use tubarr::videos::{VideoRow, VideoTable};
use tubarr::worker::{
    TaskChannelAddData, TaskChannelFetchData, TaskDownloadData, ToolOutput, ERR_CHANNEL_EXISTS,
    ERR_CHANNEL_LOOKUP, ERR_DOWNLOAD_FAILED, ERR_LISTING_FAILED, ERR_MALFORMED_PAYLOAD, ERR_NO_DOMAIN,
    ERR_RESOLVE_FAILED, ERR_RESOLVE_OUTPUT, ERR_UNSUPPORTED_DOMAIN,
};

fn s(x: &str) -> String {
    x.to_string()
}

fn text(x: &str) -> ToolOutput {
    ToolOutput::Finished(Some(s(x)))
}

fn youtube_channels() -> ChannelTable {
    let mut t = ChannelTable::new();
    t.insert(
        s("youtube.com"),
        s("youtube.com/channel/UC123"),
        s("UC123"),
        s("Example Channel"),
        s("example-channel"),
    )
    .unwrap();
    t
}

#[test]
fn registrable_domain_of_video_urls() {
    assert_eq!(registrable_domain("https://youtube.com/watch?v=abc123"), Some(s("youtube.com")));
    assert_eq!(registrable_domain("https://www.youtube.com/watch?v=abc123"), Some(s("youtube.com")));
    assert_eq!(registrable_domain("https://forums.bbc.co.uk/x"), Some(s("bbc.co.uk")));
    assert_eq!(domain_from_parts(Some((Some(s("vimeo")), Some(s("com"))))), Some(s("vimeo.com")));
    assert_eq!(domain_from_parts(Some((Some(s("vimeo")), None))), None);
    assert_eq!(domain_from_parts(None), None);
}

#[test]
fn upload_dates_parse_as_calendar_dates() {
    assert_eq!(parse_upload_date("20230115"), Some(CalendarDate { year: 2023, month: 1, day: 15 }));
    assert_eq!(parse_upload_date("notadate"), None);
    assert_eq!(parse_upload_date("20230230"), None);
    assert_eq!(parse_upload_date("NA"), None);
}

#[test]
fn playlist_reference_is_cut() {
    assert_eq!(strip_playlist("https://youtube.com/watch?v=abc&list=PL1&index=2"), "https://youtube.com/watch?v=abc");
    assert_eq!(strip_playlist("https://youtube.com/watch?v=abc"), "https://youtube.com/watch?v=abc");
}

#[test]
fn download_scenario_records_video_and_finishes_done() {
    let mut d = Dispatcher::new(TaskQueue::new(), 3, 0);
    let payload = s("{\"url\":\"https://youtube.com/watch?v=abc123\"}");
    let id = d.enqueue(s("VIDEO-DOWNLOAD"), payload, 0);
    let launched = d.tick(1);
    assert_eq!(launched[0].task_id, id);

    let data = TaskDownloadData { url: s("https://youtube.com/watch?v=abc123") };
    let start = start_download(id, Some(data)).ok().unwrap();
    assert_eq!(start.domain, "youtube.com");
    assert_eq!(start.resolve_url, "https://youtube.com/watch?v=abc123");

    let channels = youtube_channels();
    let resolved = text("UC123 SPLITATTHISPOINT Example Channel SPLITATTHISPOINT 20230115 SPLITATTHISPOINT Test Video SPLITATTHISPOINT abc123\n");
    let plan = plan_download(id, &start, resolved, "/tmp/scratch", &channels, 7).ok().unwrap();
    assert_eq!(plan.destination, vec![s("youtube.com"), s("Example Channel"), s("2023")]);
    assert_eq!(plan.filename_prefix, "Example Channel - 20230115 - Test Video - abc123");
    assert_eq!(plan.output_path, "/tmp/scratch/%(channel)s - %(upload_date)s - %(title)s - %(id)s.%(ext)s");

    let mut videos = VideoTable::new();
    let result = finish_download(id, plan, &ToolOutput::Finished(None), &mut videos);
    assert_eq!(result, TaskResult::Success(id));
    assert_eq!(videos.rows.len(), 1);
    let v = &videos.rows[0];
    assert_eq!(v.domain, "youtube.com");
    assert_eq!(v.video_id, "abc123");
    assert!(v.is_requested && v.is_downloaded);
    assert_eq!(v.channel, Some(1));
    assert_eq!(v.title, Some(s("Test Video")));
    let date = Some(CalendarDate { year: 2023, month: 1, day: 15 });
    assert_eq!((v.release_date, v.release_estimate), (date, date));

    assert!(d.complete(result, 8));
    assert_eq!(d.queue.state_of(id), Some(TaskState::Done));
}

#[test]
fn download_without_channel_or_date_uses_other() {
    let start = start_download_in(1, Some(TaskDownloadData { url: s("u") }), Some(s("example.org"))).ok().unwrap();
    let resolved = text("NA SPLITATTHISPOINT NA SPLITATTHISPOINT NA SPLITATTHISPOINT Clip SPLITATTHISPOINT x9");
    let plan = plan_download(1, &start, resolved, "/s", &ChannelTable::new(), 0).ok().unwrap();
    assert_eq!(plan.destination, vec![s("example.org"), s("other")]);
    assert_eq!(plan.filename_prefix, "Clip - x9");
    assert_eq!(plan.output_path, "/s/%(title)s - %(id)s.%(ext)s");
    let v = plan.video.unwrap();
    assert_eq!(v.channel, None);
    assert_eq!(v.release_date, None);
}

#[test]
fn download_errors_have_distinct_codes() {
    assert_eq!(start_download(4, None).err(), Some(TaskResult::Failure(4, ERR_MALFORMED_PAYLOAD)));
    let no_domain = start_download_in(4, Some(TaskDownloadData { url: s("x") }), None);
    assert_eq!(no_domain.err(), Some(TaskResult::Failure(4, ERR_NO_DOMAIN)));
    let start = start_download_in(4, Some(TaskDownloadData { url: s("u") }), Some(s("youtube.com"))).ok().unwrap();
    let ch = ChannelTable::new();
    assert_eq!(plan_download(4, &start, ToolOutput::NotRun, "/s", &ch, 0).err(), Some(TaskResult::Failure(4, ERR_RESOLVE_FAILED)));
    assert_eq!(plan_download(4, &start, ToolOutput::Failed, "/s", &ch, 0).err(), Some(TaskResult::Failure(4, ERR_RESOLVE_FAILED)));
    assert_eq!(plan_download(4, &start, ToolOutput::Finished(None), "/s", &ch, 0).err(), Some(TaskResult::Failure(4, ERR_RESOLVE_OUTPUT)));
    assert_eq!(plan_download(4, &start, text("a SPLITATTHISPOINT b"), "/s", &ch, 0).err(), Some(TaskResult::Failure(4, ERR_RESOLVE_OUTPUT)));
    let plan = plan_download(4, &start, text("a SPLITATTHISPOINT b SPLITATTHISPOINT 2020 SPLITATTHISPOINT t SPLITATTHISPOINT i"), "/s", &ch, 0).ok().unwrap();
    let mut videos = VideoTable::new();
    assert_eq!(finish_download(4, plan, &ToolOutput::Failed, &mut videos), TaskResult::Failure(4, ERR_DOWNLOAD_FAILED));
    assert!(videos.rows.is_empty());
}

#[test]
fn channel_add_rejects_unsupported_domain() {
    let mut d = Dispatcher::new(TaskQueue::new(), 3, 0);
    let id = d.enqueue(s("CHANNEL-ADD"), s("{\"url\":\"https://vimeo.com/somechannel\"}"), 0);
    d.tick(1);
    let channels = ChannelTable::new();
    let r = start_channel_add(id, Some(TaskChannelAddData { url: s("https://vimeo.com/somechannel") }));
    let outcome = r.err().unwrap();
    assert_eq!(outcome, TaskResult::Failure(id, ERR_UNSUPPORTED_DOMAIN));
    assert!(d.complete(outcome, 2));
    assert_eq!(d.queue.state_of(id), Some(TaskState::Error));
    assert!(channels.rows.is_empty());
    assert_eq!(start_channel_add(id, None).err(), Some(TaskResult::Failure(id, ERR_MALFORMED_PAYLOAD)));
}

#[test]
fn channel_add_registers_normalized_channel() {
    let start = start_channel_add(3, Some(TaskChannelAddData { url: s("https://www.youtube.com/@bobs") })).ok().unwrap();
    assert_eq!(start.domain, "youtube.com");
    let mut channels = ChannelTable::new();
    let r = register_channel(3, &start, &text("UCbob\n"), &text("  Bob's  \"Cool\"\tShow \n"), &mut channels);
    assert_eq!(r, TaskResult::Success(3));
    let row = &channels.rows[0];
    assert_eq!(row.url, "youtube.com/channel/UCbob");
    assert_eq!(row.channel_id, "UCbob");
    assert_eq!(row.channel_name, "Bob's  \"Cool\"\tShow");
    assert_eq!(row.normalized_name, "bobs-cool-show");
    // same source id again
    let again = register_channel(4, &start, &text("UCbob"), &text("Other"), &mut channels);
    assert_eq!(again, TaskResult::Failure(4, ERR_CHANNEL_EXISTS));
    // same normalized name under another id
    let clash = register_channel(5, &start, &text("UCzzz"), &text("BOBS COOL SHOW"), &mut channels);
    assert_eq!(clash, TaskResult::Failure(5, ERR_CHANNEL_EXISTS));
    assert_eq!(channels.rows.len(), 1);
}

#[test]
fn channel_add_lookup_failures() {
    let start = start_channel_add_in(6, Some(TaskChannelAddData { url: s("u") }), Some(s("youtube.com"))).ok().unwrap();
    let mut channels = ChannelTable::new();
    assert_eq!(register_channel(6, &start, &ToolOutput::Failed, &text("n"), &mut channels), TaskResult::Failure(6, ERR_CHANNEL_LOOKUP));
    assert_eq!(register_channel(6, &start, &text("NA"), &text("n"), &mut channels), TaskResult::Failure(6, ERR_CHANNEL_LOOKUP));
    assert_eq!(register_channel(6, &start, &text("id"), &text("  "), &mut channels), TaskResult::Failure(6, ERR_CHANNEL_LOOKUP));
    let other = ChannelAddStart { url: s("u"), domain: s("youtube.com") };
    assert_eq!(register_channel(6, &other, &text("id"), &text("Name"), &mut channels), TaskResult::Success(6));
}

#[test]
fn channel_table_reports_conflicts() {
    let mut t = youtube_channels();
    let dup = t.insert(s("youtube.com"), s("u"), s("UC123"), s("x"), s("x"));
    assert_eq!(dup, Err(ChannelConflict::DuplicateSourceId));
    let name = t.insert(s("youtube.com"), s("u"), s("UC9"), s("x"), s("example-channel"));
    assert_eq!(name, Err(ChannelConflict::DuplicateName));
    assert_eq!(t.insert(s("vimeo.com"), s("u"), s("UC123"), s("x"), s("example-channel")), Ok(2));
    assert_eq!(t.find(&s("youtube.com"), &s("UC123")), Some(1));
    assert_eq!(t.find(&s("youtube.com"), &s("UC9")), None);
}

#[test]
fn channel_fetch_start_builds_videos_url() {
    let data = TaskChannelFetchData { domain: s("youtube.com"), channel_id: s("UC123") };
    let start = start_channel_fetch(2, Some(data)).ok().unwrap();
    assert_eq!(start.videos_url, "https://www.youtube.com/channel/UC123/videos");
    let other = TaskChannelFetchData { domain: s("vimeo.com"), channel_id: s("x") };
    assert_eq!(start_channel_fetch(2, Some(other)).err(), Some(TaskResult::Failure(2, ERR_UNSUPPORTED_DOMAIN)));
    let none = start_channel_fetch_in(2, Some(TaskChannelFetchData { domain: s("d"), channel_id: s("x") }), None);
    assert_eq!(none.err(), Some(TaskResult::Failure(2, ERR_UNSUPPORTED_DOMAIN)));
    assert_eq!(start_channel_fetch(2, None).err(), Some(TaskResult::Failure(2, ERR_MALFORMED_PAYLOAD)));
}

const LISTING: &str = "UC123 SPLITATTHISPOINT Example Channel SPLITATTHISPOINT https://www.youtube.com/watch?v=v1 SPLITATTHISPOINT 20240102 SPLITATTHISPOINT First SPLITATTHISPOINT v1
UC123 SPLITATTHISPOINT Example Channel SPLITATTHISPOINT https://www.youtube.com/watch?v=v2 SPLITATTHISPOINT notadate SPLITATTHISPOINT Second SPLITATTHISPOINT v2
UCnope SPLITATTHISPOINT Stranger SPLITATTHISPOINT https://www.youtube.com/watch?v=v3 SPLITATTHISPOINT 20240103 SPLITATTHISPOINT Third SPLITATTHISPOINT v3
broken line
";

#[test]
fn fetch_skips_bad_date_and_unknown_channel() {
    let channels = youtube_channels();
    let mut videos = VideoTable::new();
    let r = ingest_listing(9, &s("youtube.com"), &text(LISTING), &channels, &mut videos, 100);
    assert_eq!(r, TaskResult::Success(9));
    assert_eq!(videos.rows.len(), 1);
    let v = &videos.rows[0];
    assert_eq!(v.video_id, "v1");
    assert_eq!(v.url, "https://www.youtube.com/watch?v=v1");
    assert_eq!(v.release_date, None);
    assert_eq!(v.release_estimate, Some(CalendarDate { year: 2024, month: 1, day: 2 }));
    assert!(!v.is_requested && !v.is_downloaded);
}

#[test]
fn fetch_with_only_bad_date_row_is_done() {
    let channels = youtube_channels();
    let mut videos = VideoTable::new();
    let line = "UC123 SPLITATTHISPOINT Example Channel SPLITATTHISPOINT https://y/v SPLITATTHISPOINT notadate SPLITATTHISPOINT T SPLITATTHISPOINT v9\n";
    let r = ingest_listing(9, &s("youtube.com"), &text(line), &channels, &mut videos, 100);
    assert_eq!(r, TaskResult::Success(9));
    assert!(videos.rows.is_empty());
}

#[test]
fn fetch_rerun_adds_no_rows_and_keeps_flags() {
    let channels = youtube_channels();
    let mut videos = VideoTable::new();
    videos.upsert(VideoRow {
        channel: Some(1),
        domain: s("youtube.com"),
        url: s("https://www.youtube.com/watch?v=v1"),
        title: Some(s("First")),
        video_id: s("v1"),
        is_requested: true,
        is_downloaded: true,
        release_date: Some(CalendarDate { year: 2024, month: 1, day: 1 }),
        release_estimate: None,
        updated_at: 1,
    });
    ingest_listing(9, &s("youtube.com"), &text(LISTING), &channels, &mut videos, 100);
    ingest_listing(10, &s("youtube.com"), &text(LISTING), &channels, &mut videos, 200);
    assert_eq!(videos.rows.len(), 1);
    let v = &videos.rows[0];
    assert!(v.is_requested && v.is_downloaded);
    assert_eq!(v.release_date, Some(CalendarDate { year: 2024, month: 1, day: 1 }));
    assert_eq!(v.release_estimate, None);
    assert_eq!(v.updated_at, 200);
}

#[test]
fn listing_a_known_video_only_moves_its_stamp() {
    let channels = youtube_channels();
    let mut videos = VideoTable::new();
    videos.upsert(VideoRow {
        channel: None,
        domain: s("youtube.com"),
        url: s("https://www.youtube.com/watch?v=v1"),
        title: None,
        video_id: s("v1"),
        is_requested: false,
        is_downloaded: false,
        release_date: None,
        release_estimate: None,
        updated_at: 1,
    });
    ingest_listing(9, &s("youtube.com"), &text(LISTING), &channels, &mut videos, 100);
    let v = &videos.rows[0];
    assert_eq!((v.channel, v.title.clone(), v.release_estimate), (None, None, None));
    assert_eq!(v.updated_at, 100);
}

#[test]
fn download_fills_in_a_listed_video() {
    let channels = youtube_channels();
    let mut videos = VideoTable::new();
    let listing = "UC123 SPLITATTHISPOINT Example Channel SPLITATTHISPOINT https://www.youtube.com/watch?v=abc123 SPLITATTHISPOINT 20230110 SPLITATTHISPOINT Test Video SPLITATTHISPOINT abc123\n";
    ingest_listing(1, &s("youtube.com"), &text(listing), &channels, &mut videos, 50);
    let start = start_download_in(2, Some(TaskDownloadData { url: s("https://youtube.com/watch?v=abc123") }), Some(s("youtube.com"))).ok().unwrap();
    let resolved = text("UC123 SPLITATTHISPOINT Example Channel SPLITATTHISPOINT 20230115 SPLITATTHISPOINT Test Video SPLITATTHISPOINT abc123");
    let plan = plan_download(2, &start, resolved, "/s", &channels, 60).ok().unwrap();
    assert_eq!(finish_download(2, plan, &ToolOutput::Finished(None), &mut videos), TaskResult::Success(2));
    assert_eq!(videos.rows.len(), 1);
    let v = &videos.rows[0];
    assert!(v.is_requested && v.is_downloaded);
    assert_eq!(v.release_date, Some(CalendarDate { year: 2023, month: 1, day: 15 }));
    assert_eq!(v.release_estimate, Some(CalendarDate { year: 2023, month: 1, day: 10 }));
    assert_eq!(v.updated_at, 60);
}

#[test]
fn fetch_failures() {
    let channels = youtube_channels();
    let mut videos = VideoTable::new();
    let d = s("youtube.com");
    assert_eq!(ingest_listing(1, &d, &ToolOutput::NotRun, &channels, &mut videos, 0), TaskResult::Failure(1, ERR_LISTING_FAILED));
    assert_eq!(ingest_listing(1, &d, &ToolOutput::Finished(None), &channels, &mut videos, 0), TaskResult::Failure(1, ERR_LISTING_FAILED));
    assert_eq!(ingest_listing(1, &d, &text("junk\nmore junk\n"), &channels, &mut videos, 0), TaskResult::Failure(1, ERR_LISTING_FAILED));
    assert_eq!(ingest_listing(1, &d, &text(""), &channels, &mut videos, 0), TaskResult::Success(1));
}

#[test]
fn refresh_lists_each_channel() {
    let mut channels = youtube_channels();
    channels.insert(s("youtube.com"), s("youtube.com/channel/UC2"), s("UC2"), s("B"), s("b")).unwrap();
    assert_eq!(refresh_urls(&channels), vec![s("youtube.com/channel/UC123/videos"), s("youtube.com/channel/UC2/videos")]);
}
