//! Text at the boundaries: decimal identifiers, flat path strings, the
//! persisted row shapes, video URLs and duration text, and the clock.

use joinsound::clock::{now_timestamp, set_last_played_now};
use joinsound::models::{new_join_sound, to_join_sound, JoinSounds};
use joinsound::numbers::{parse_u64, u64_to_string};
use joinsound::paths::StoredPath;
use joinsound::registry::{JoinSound, SoundRegistry};
use joinsound::render::{parse_path, render_path};
use joinsound::store::{BlobStore, StorageBackend};
use joinsound::youtube::{parse_clock_duration, shorts_to_real_url};

#[test]
fn decimal_identifiers_round_trip() {
    for n in [0u64, 1, 9, 10, 1234567890, u64::MAX] {
        let s = u64_to_string(n);
        assert_eq!(parse_u64(s.as_str()), Some(n));
    }
    assert_eq!(u64_to_string(0), "0");
    assert_eq!(u64_to_string(18446744073709551615), "18446744073709551615");
}

#[test]
fn identifier_parsing_is_strict() {
    assert_eq!(parse_u64("007"), Some(7));
    assert_eq!(parse_u64(""), None);
    assert_eq!(parse_u64("12a"), None);
    assert_eq!(parse_u64("-5"), None);
    assert_eq!(parse_u64("18446744073709551615"), Some(u64::MAX));
    assert_eq!(parse_u64("18446744073709551616"), None);
}

#[test]
fn paths_render_to_the_media_layout() {
    let global = StoredPath {
        user_id: 7,
        community_id: None,
        file_name: "clip.mp3".to_string(),
    };
    assert_eq!(render_path(&global), "media/7/clip.mp3");
    let local = StoredPath {
        user_id: 7,
        community_id: Some(42),
        file_name: "clip.mp3".to_string(),
    };
    assert_eq!(render_path(&local), "media/7/42/clip.mp3");
}

#[test]
fn paths_round_trip_through_their_string_form() {
    for p in [
        StoredPath { user_id: 7, community_id: None, file_name: "clip.mp3".to_string() },
        StoredPath { user_id: 7, community_id: Some(42), file_name: "a.b.c".to_string() },
        StoredPath { user_id: u64::MAX, community_id: Some(0), file_name: "7".to_string() },
    ] {
        let rendered = render_path(&p);
        let parsed = parse_path(rendered.as_str()).expect("a rendered path must parse");
        assert!(parsed.same_path(&p));
    }
}

#[test]
fn malformed_path_strings_are_rejected() {
    for s in [
        "",
        "media/",
        "media/7",
        "media/7/",
        "media/abc/file.mp3",
        "media/7/abc/file.mp3",
        "media/7/42/",
        "media/7/42/a/b.mp3",
        "elsewhere/7/file.mp3",
    ] {
        assert!(parse_path(s).is_none(), "{s:?} must not parse");
    }
    // a numeric file name in the three-segment form is a global sound
    let p = parse_path("media/7/42").unwrap();
    assert_eq!(p.community_id, None);
    assert_eq!(p.file_name, "42");
}

#[test]
fn persisted_rows_read_back_into_registry_rows() {
    let rec = JoinSounds {
        id: 1,
        discord_id: Some("7".to_string()),
        guild_id: Some("42".to_string()),
        file_path: Some("media/7/42/clip.mp3".to_string()),
        last_played: Some(1234),
    };
    let row = to_join_sound(&rec).unwrap();
    assert_eq!(row.user_id, 7);
    assert_eq!(row.community_id, Some(42));
    assert_eq!(row.last_played, Some(1234));
    let p = row.file_path.unwrap();
    assert_eq!(p.file_name, "clip.mp3");
    assert_eq!(p.user_id, 7);
}

#[test]
fn unreadable_rows_are_dropped_or_lose_their_media() {
    let no_user = JoinSounds {
        id: 1,
        discord_id: None,
        guild_id: None,
        file_path: Some("media/7/clip.mp3".to_string()),
        last_played: None,
    };
    assert!(to_join_sound(&no_user).is_none());
    let bad_guild = JoinSounds {
        id: 2,
        discord_id: Some("7".to_string()),
        guild_id: Some("not-a-number".to_string()),
        file_path: None,
        last_played: None,
    };
    assert!(to_join_sound(&bad_guild).is_none());
    let bad_path = JoinSounds {
        id: 3,
        discord_id: Some("7".to_string()),
        guild_id: None,
        file_path: Some("not-a-path".to_string()),
        last_played: Some(-5),
    };
    let row = to_join_sound(&bad_path).unwrap();
    assert!(row.file_path.is_none());
    assert!(row.last_played.is_none(), "a pre-epoch timestamp means nothing");
}

#[test]
fn registry_rows_write_back_as_persistable_payloads() {
    let row = JoinSound {
        user_id: 7,
        community_id: Some(42),
        file_path: Some(StoredPath {
            user_id: 7,
            community_id: Some(42),
            file_name: "clip.mp3".to_string(),
        }),
        last_played: None,
    };
    let w = new_join_sound(&row).unwrap();
    assert_eq!(w.discord_id, "7");
    assert_eq!(w.guild_id.as_deref(), Some("42"));
    assert_eq!(w.file_path, "media/7/42/clip.mp3");
    let pathless = JoinSound { user_id: 7, community_id: None, file_path: None, last_played: None };
    assert!(new_join_sound(&pathless).is_none());
}

#[test]
fn shorts_urls_become_watch_urls() {
    assert_eq!(
        shorts_to_real_url("https://www.youtube.com/shorts/dQw4w9WgXcQ".to_string()),
        "https://www.youtube.com/watch?v=dQw4w9WgXcQ"
    );
    assert_eq!(
        shorts_to_real_url("dQw4w9WgXcQ".to_string()),
        "https://www.youtube.com/watch?v=dQw4w9WgXcQ"
    );
}

#[test]
fn duration_text_reads_as_seconds() {
    assert_eq!(parse_clock_duration("90"), Some(90));
    assert_eq!(parse_clock_duration("1:30"), Some(90));
    assert_eq!(parse_clock_duration("1:01:05"), Some(3665));
    assert_eq!(parse_clock_duration("0:05"), Some(5));
    assert_eq!(parse_clock_duration(""), None);
    assert_eq!(parse_clock_duration("x:30"), None);
    assert_eq!(parse_clock_duration("1:2:3:4"), None);
}

#[test]
fn moving_between_backends_keeps_every_blob() {
    let mut store = BlobStore::new(StorageBackend::FileSystem);
    let a = StoredPath { user_id: 7, community_id: None, file_name: "a.mp3".to_string() };
    let b = StoredPath { user_id: 7, community_id: Some(42), file_name: "b.mp3".to_string() };
    store.put(&a, vec![1]).unwrap();
    store.put(&b, vec![2]).unwrap();
    assert!(store.user_directory_exists(7));
    store.relocate(StorageBackend::ObjectStore);
    assert!(!store.user_directory_exists(7), "the object store has no directories");
    assert_eq!(store.get(&a).unwrap(), &vec![1u8]);
    assert_eq!(store.get(&b).unwrap(), &vec![2u8]);
    store.relocate(StorageBackend::FileSystem);
    assert!(store.user_directory_exists(7));
    assert_eq!(store.get(&b).unwrap(), &vec![2u8]);
}

#[test]
fn the_clock_stamps_rows_with_the_present() {
    let mut reg = SoundRegistry::new();
    reg.create_or_replace(
        7,
        None,
        StoredPath { user_id: 7, community_id: None, file_name: "clip.mp3".to_string() },
    );
    let before = now_timestamp();
    let used = set_last_played_now(&mut reg, 7, None);
    assert!(used >= before);
    assert_eq!(reg.get_last_played(7, None), Some(used));
    assert!(before > 1_600_000_000, "the clock reads a present-day instant");
}
