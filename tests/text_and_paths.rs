use tubarr::folders::{system_configuration, AppDetails, ConfigError};
use tubarr::names::normalize_channel_name;
use tubarr::pages::{render_page, TMPL_1, TMPL_3};
use tubarr::protocol::{decode_field, decode_filename_fields, decode_listing};
use tubarr::relocate::{may_delete, selects_file};
use tubarr::settings::{parse_u32, MissingSetting, RunConfig, DEFAULT_RETRY_LIMIT};
use tubarr::text::{lines_of, split_on, trim};

fn chars(x: &str) -> Vec<char> {
    x.chars().collect()
}

fn s(x: &str) -> String {
    x.to_string()
}

#[test]
fn trim_removes_unicode_whitespace() {
    assert_eq!(trim(&chars(" \t a b \u{3000}\n")), chars("a b"));
    assert_eq!(trim(&chars("   ")), chars(""));
}

#[test]
fn split_on_token_keeps_empty_pieces() {
    let parts = split_on(&chars("aXYbXYXYc"), &chars("XY"));
    assert_eq!(parts, vec![chars("a"), chars("b"), chars(""), chars("c")]);
    assert_eq!(split_on(&chars(""), &chars("XY")), vec![chars("")]);
    assert_eq!(split_on(&chars("XXY"), &chars("XY")), vec![chars("X"), chars("")]);
}

#[test]
fn lines_drop_final_empty_piece() {
    assert_eq!(lines_of(&chars("a\nb\n")), vec![chars("a"), chars("b")]);
    assert_eq!(lines_of(&chars("a\n\nb")), vec![chars("a"), chars(""), chars("b")]);
    assert_eq!(lines_of(&chars("")), Vec::<Vec<char>>::new());
}

#[test]
fn na_field_is_absent() {
    assert_eq!(decode_field(&chars("  NA ")), None);
    assert_eq!(decode_field(&chars(" NAB ")), Some(s("NAB")));
    assert_eq!(decode_field(&chars("")), Some(s("")));
}

#[test]
fn filename_record_needs_five_fields() {
    let f = decode_filename_fields(" c SPLITATTHISPOINT NA SPLITATTHISPOINT 2021 SPLITATTHISPOINT t SPLITATTHISPOINT id \n").unwrap();
    assert_eq!(f.channel_id, Some(s("c")));
    assert_eq!(f.channel_name, None);
    assert_eq!(f.upload_date, Some(s("2021")));
    assert_eq!(f.video_id, Some(s("id")));
    assert!(decode_filename_fields("a SPLITATTHISPOINT b").is_none());
    assert!(decode_filename_fields("a SPLITATTHISPOINT b SPLITATTHISPOINT c SPLITATTHISPOINT d SPLITATTHISPOINT e SPLITATTHISPOINT f").is_none());
}

#[test]
fn listing_lines_decode_one_by_one() {
    let recs = decode_listing("a SPLITATTHISPOINT b SPLITATTHISPOINT c SPLITATTHISPOINT d SPLITATTHISPOINT e SPLITATTHISPOINT f\r\nbad\n");
    assert_eq!(recs.len(), 2);
    let r = recs[0].as_ref().unwrap();
    assert_eq!(r.video_id, Some(s("f")));
    assert_eq!(r.url, Some(s("c")));
    assert!(recs[1].is_none());
}

#[test]
fn channel_names_normalize() {
    assert_eq!(normalize_channel_name("Example Channel"), "example-channel");
    assert_eq!(normalize_channel_name("It's \"The\"   Show"), "its-the-show");
    assert_eq!(normalize_channel_name("ÄÖ Tube"), "äö-tube");
}

#[test]
fn relocation_selects_prefixed_files() {
    assert!(selects_file(true, "Chan - 2023 - T - id.mp4", "Chan - 2023 - T - id"));
    assert!(!selects_file(false, "Chan - 2023 - T - id.mp4", "Chan - 2023 - T - id"));
    assert!(!selects_file(true, "Other.mp4", "Chan"));
    assert!(!selects_file(true, "Ch", "Chan"));
}

#[test]
fn relocation_never_deletes_outside_scratch() {
    let scratch = vec![s("/"), s("tmp"), s("scratch")];
    let inside = Some(vec![s("/"), s("tmp"), s("scratch"), s("a.mp4")]);
    let outside = Some(vec![s("/"), s("home"), s("user"), s("a.mp4")]);
    let sibling = Some(vec![s("/"), s("tmp"), s("scratch2"), s("a.mp4")]);
    assert!(may_delete(true, &inside, &scratch));
    assert!(!may_delete(false, &inside, &scratch));
    assert!(!may_delete(true, &outside, &scratch));
    assert!(!may_delete(true, &sibling, &scratch));
    assert!(!may_delete(true, &None, &scratch));
}

#[test]
fn settings_read_from_pairs() {
    let pairs = vec![
        (s("path_temp"), s("/tmp/t")),
        (s("path_media"), s("/media")),
        (s("sub_lang"), s("en,fi")),
        (s("retry_limit"), s("5")),
        (s("path_temp"), s("/ignored")),
    ];
    let c = RunConfig::from_entries(&pairs).ok().unwrap();
    assert_eq!(c.path_temp, "/tmp/t");
    assert_eq!(c.sub_lang, "en,fi");
    assert_eq!(c.retry_limit, 5);
    let missing = vec![(s("path_temp"), s("/t")), (s("sub_lang"), s("en"))];
    assert_eq!(RunConfig::from_entries(&missing).err(), Some(MissingSetting::PathMedia));
    assert_eq!(RunConfig::from_entries(&vec![]).err(), Some(MissingSetting::PathTemp));
    let no_lang = vec![(s("path_temp"), s("/t")), (s("path_media"), s("/m"))];
    assert_eq!(RunConfig::from_entries(&no_lang).err(), Some(MissingSetting::SubLang));
    let no_limit = vec![(s("path_temp"), s("/t")), (s("path_media"), s("/m")), (s("sub_lang"), s("en")), (s("retry_limit"), s("x"))];
    assert_eq!(RunConfig::from_entries(&no_limit).ok().unwrap().retry_limit, DEFAULT_RETRY_LIMIT);
}

#[test]
fn decimal_numbers_parse() {
    assert_eq!(parse_u32("4294967295"), Some(u32::MAX));
    assert_eq!(parse_u32("4294967296"), None);
    assert_eq!(parse_u32("007"), Some(7));
    assert_eq!(parse_u32(""), None);
    assert_eq!(parse_u32("-1"), None);
}

#[test]
fn configuration_path_on_linux_only() {
    let app = AppDetails { name: s("tubarr"), organization: s("amnis"), tld: s("fi") };
    assert_eq!(system_configuration(&app, "linux").ok(), Some(s("/etc/tubarr")));
    assert_eq!(system_configuration(&app, "macos").err(), Some(ConfigError::UnsupportedPlatform));
    assert_eq!(ConfigError::UnsupportedPlatform.message(), "Unsupported platform for system configuration path");
}

#[test]
fn page_frame_wraps_head_and_body() {
    let page = render_page("<meta>", "<p>hi</p>");
    assert!(page.starts_with(TMPL_1));
    assert!(page.ends_with(TMPL_3));
    assert!(page.contains("<meta>"));
    let body_at = page.find("<p>hi</p>").unwrap();
    assert!(page.find("<main class=\"content\">").unwrap() < body_at);
}
