use podinator::date::{format_minute, Date};
use podinator::errors::DownloadError;
use podinator::pod::{DownloadState, Episode, Podcast};

fn date(year: u32, month: u32, day: u32, hour: u32, minute: u32) -> Date {
    Date { year, month, day, hour, minute, second: 0 }
}

#[test]
fn file_name_is_deterministic() {
    // Title "Foo", published 2020-01-02T03:04Z, media ".../episode7.mp3".
    let e = Episode::new(
        "Episode 7",
        "https://example.com/audio/episode7.mp3",
        date(2020, 1, 2, 3, 4),
    );
    assert_eq!(e.file_name("Foo").unwrap(), "Foo_2020-01-02T03:04_episode7.mp3");
}

#[test]
fn file_name_needs_a_path_separator() {
    let e = Episode::new("E", "no-slashes-here", date(2020, 1, 2, 3, 4));
    assert_eq!(
        e.file_name("Foo"),
        Err(DownloadError::MalformedUrl(String::from("no-slashes-here")))
    );
}

#[test]
fn file_name_takes_the_final_segment() {
    let e = Episode::new("E", "https://example.com/a/b/c.ogg", date(1999, 12, 31, 23, 59));
    assert_eq!(e.file_name("X").unwrap(), "X_1999-12-31T23:59_c.ogg");
}

#[test]
fn format_minute_zero_pads_every_field() {
    assert_eq!(format_minute(&date(999, 3, 4, 5, 6)), "0999-03-04T05:06");
    assert_eq!(format_minute(&date(2020, 11, 22, 13, 59)), "2020-11-22T13:59");
    assert_eq!(format_minute(&Date::epoch()), "1970-01-01T00:00");
}

#[test]
fn download_is_planned_once_and_recorded() {
    let mut e = Episode::new("E", "https://example.com/a/ep.mp3", date(2020, 1, 2, 3, 4));
    assert_eq!(e.downloaded(), None);
    assert_eq!(e.local_file_name(), None);
    let plan = e.download_plan("Show").unwrap();
    assert_eq!(plan, Some(String::from("Show_2020-01-02T03:04_ep.mp3")));
    e.record_download(plan.unwrap());
    assert!(e.downloaded().is_some());
    assert_eq!(e.local_file_name(), Some(String::from("Show_2020-01-02T03:04_ep.mp3")));
    // The second call asks for no transfer and still succeeds.
    assert_eq!(e.download_plan("Show"), Ok(None));
}

#[test]
fn download_marks_come_and_go_together() {
    let mut e = Episode::new("E", "https://example.com/a/ep.mp3", date(2020, 1, 2, 3, 4));
    assert_eq!(e.downloaded().is_some(), e.local_file_name().is_some());
    e.record_download(String::from("f"));
    assert_eq!(e.downloaded().is_some(), e.local_file_name().is_some());
    let stored = Episode::from_parts(
        String::from("E"),
        String::from("https://example.com/a/ep.mp3"),
        date(2020, 1, 2, 3, 4),
        DownloadState::Downloaded { at: date(2021, 2, 3, 4, 5), local_file_name: String::from("f") },
        None,
    );
    assert_eq!(stored.downloaded().is_some(), stored.local_file_name().is_some());
}

#[test]
fn episode_listing_line() {
    let e = Episode::from_parts(
        String::from("Tale"),
        String::from("https://example.com/a/t.mp3"),
        date(2020, 1, 2, 3, 4),
        DownloadState::Downloaded {
            at: date(2021, 2, 3, 4, 5),
            local_file_name: String::from("f"),
        },
        None,
    );
    assert_eq!(e.display_line(), "    Tale\n2020-01-02T03:04\t2021-02-03T04:05\t\n");
}

#[test]
fn podcast_listing_block() {
    let e = Episode::new("Tale", "https://example.com/a/t.mp3", date(2020, 1, 2, 3, 4));
    let p = Podcast::from_parts(
        String::from("Show"),
        String::from("https://example.com/feed.xml"),
        vec![e],
        date(2022, 5, 6, 7, 8),
    );
    assert_eq!(
        p.display_string(),
        "Show\nhttps://example.com/feed.xml 2022-05-06T07:08\n    Tale\n2020-01-02T03:04\t\t\n"
    );
}

#[test]
fn new_podcast_starts_at_the_epoch() {
    let p = Podcast::new(" ", "https://example.com/feed.xml");
    assert_eq!(p.last_checked(), Date::epoch());
    assert!(p.episodes().is_empty());
    assert_eq!(p.title(), " ");
}

#[test]
fn clear_episodes_returns_only_stored_files() {
    let e1 = Episode::new("A", "https://example.com/a.mp3", date(2020, 1, 1, 0, 0));
    let e2 = Episode::from_parts(
        String::from("B"),
        String::from("https://example.com/b.mp3"),
        date(2020, 1, 1, 0, 0),
        DownloadState::Downloaded { at: date(2020, 2, 2, 0, 0), local_file_name: String::from("b") },
        None,
    );
    let e3 = Episode::from_parts(
        String::from("C"),
        String::from("https://example.com/c.mp3"),
        date(2020, 1, 1, 0, 0),
        DownloadState::Downloaded { at: date(2020, 3, 3, 0, 0), local_file_name: String::from("c") },
        None,
    );
    let mut p = Podcast::from_parts(
        String::from("S"),
        String::from("https://example.com/feed.xml"),
        vec![e1, e2, e3],
        Date::epoch(),
    );
    let files = p.clear_episodes();
    assert_eq!(files, vec![String::from("b"), String::from("c")]);
    assert!(p.episodes().is_empty());
}
