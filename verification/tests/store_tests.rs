use podinator::database::Database;
use podinator::date::Date;
use podinator::errors::DecodeError;
use podinator::pod::{DownloadState, Episode, Podcast};

fn sample_date(minute: u32) -> Date {
    Date { year: 2020, month: 1, day: 2, hour: 3, minute, second: 5 }
}

fn sample_database() -> Database {
    let e1 = Episode::new(
        "First episode",
        "https://example.com/media/first.mp3",
        sample_date(4),
    );
    let e2 = Episode::from_parts(
        String::from("Second & best"),
        String::from("https://example.com/media/second.mp3"),
        sample_date(7),
        DownloadState::Downloaded {
            at: sample_date(9),
            local_file_name: String::from("Show_2020-01-02T03:07_second.mp3"),
        },
        Some(sample_date(11)),
    );
    let p1 = Podcast::from_parts(
        String::from("Show"),
        String::from("https://example.com/feed.xml"),
        vec![e1, e2],
        sample_date(1),
    );
    let p2 = Podcast::new(" ", "https://example.org/other.xml");
    Database::from_podcasts(vec![p1, p2])
}

#[test]
fn round_trip_reproduces_the_store() {
    let db = sample_database();
    let bytes = db.to_bytes();
    let back = Database::from_bytes(&bytes).unwrap();
    assert_eq!(back, db);
}

#[test]
fn round_trip_of_empty_store() {
    let db = Database::new();
    let back = Database::from_bytes(&db.to_bytes()).unwrap();
    assert_eq!(back, db);
    assert_eq!(back.len(), 0);
}

#[test]
fn round_trip_with_unicode_titles() {
    let e = Episode::new("Épisode – ünïcødé ✓", "https://example.com/a/b.mp3", sample_date(0));
    let p = Podcast::from_parts(
        String::from("Pöddåst"),
        String::from("https://example.com/feed.xml"),
        vec![e],
        Date { year: 1970, month: 1, day: 1, hour: 0, minute: 0, second: 0 },
    );
    let db = Database::from_podcasts(vec![p]);
    let back = Database::from_bytes(&db.to_bytes()).unwrap();
    assert_eq!(back, db);
}

#[test]
fn empty_bytes_fail_to_decode() {
    assert_eq!(Database::from_bytes(&Vec::new()), Err(DecodeError::Malformed));
}

#[test]
fn truncated_bytes_fail_to_decode() {
    let db = sample_database();
    let mut bytes = db.to_bytes();
    bytes.truncate(bytes.len() - 1);
    assert_eq!(Database::from_bytes(&bytes), Err(DecodeError::Malformed));
}

#[test]
fn decoding_is_not_the_identity_on_its_input() {
    // The store survives the trip as a value, not as raw bytes.
    let db = sample_database();
    let bytes = db.to_bytes();
    let back = Database::from_bytes(&bytes).unwrap();
    assert_eq!(back.podcast(0).title(), "Show");
    assert_eq!(
        back.podcast(0).episodes()[1].local_file_name(),
        Some(String::from("Show_2020-01-02T03:07_second.mp3"))
    );
    assert_eq!(back.podcast(0).episodes()[1].listened(), Some(sample_date(11)));
}

#[test]
fn adding_the_same_url_twice_keeps_two_entries() {
    // Store-level adds never dedup by URL: two adds of one URL are two
    // independent podcasts.
    let mut db = Database::new();
    db.add("https://example.com/feed.xml");
    db.add("https://example.com/feed.xml");
    assert_eq!(db.len(), 2);
    assert_eq!(db.podcast(0).url(), "https://example.com/feed.xml");
    assert_eq!(db.podcast(1).url(), "https://example.com/feed.xml");
    assert_eq!(db.podcast(0).title(), " ");
    assert_eq!(db.podcast(1).title(), " ");
}

#[test]
fn clear_all_episodes_empties_and_reports_stored_files() {
    let mut db = sample_database();
    let files = db.clear_all_episodes();
    assert_eq!(files, vec![String::from("Show_2020-01-02T03:07_second.mp3")]);
    assert_eq!(db.len(), 2);
    assert!(db.podcast(0).episodes().is_empty());
    assert!(db.podcast(1).episodes().is_empty());
    assert_eq!(db.podcast(0).title(), "Show");
    assert_eq!(db.podcast(0).url(), "https://example.com/feed.xml");
}
