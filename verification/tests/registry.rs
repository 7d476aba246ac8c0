//! Resolution precedence, the cooldown arithmetic, and removal.

use joinsound::backend::{
    get_sound, get_sound_path, remove_all_sounds, remove_sound, update_sound, upload_sound,
};
use joinsound::cooldown::{cooldown_active, more_recent, COOLDOWN_SECONDS};
use joinsound::ingest::AttachmentMeta;
use joinsound::registry::{JoinSound, SoundRegistry};
use joinsound::store::{BlobStore, StorageBackend};

fn audio(name: &str) -> AttachmentMeta {
    AttachmentMeta {
        file_name: name.to_string(),
        content_type: Some("audio/ogg".to_string()),
    }
}

fn seeded() -> (SoundRegistry, BlobStore) {
    (SoundRegistry::new(), BlobStore::new(StorageBackend::FileSystem))
}

#[test]
fn local_sound_beats_global() {
    let (mut reg, mut store) = seeded();
    let global = upload_sound(
        &mut reg, &mut store, 7, None, &audio("global.mp3"), Some(5), vec![1], None,
    )
    .unwrap();
    let local = upload_sound(
        &mut reg, &mut store, 7, Some(42), &audio("local.mp3"), Some(5), vec![2], None,
    )
    .unwrap();
    let resolved = reg.resolve_path(7, 42).unwrap();
    assert!(resolved.same_path(&local));
    assert!(!resolved.same_path(&global));
}

#[test]
fn global_sound_covers_every_community() {
    let (mut reg, mut store) = seeded();
    let global = upload_sound(
        &mut reg, &mut store, 7, None, &audio("global.mp3"), Some(5), vec![1], None,
    )
    .unwrap();
    for community in [1u64, 42, 999] {
        let resolved = reg.resolve_path(7, community).unwrap();
        assert!(resolved.same_path(&global));
    }
}

#[test]
fn nothing_to_resolve_fails() {
    let reg = SoundRegistry::new();
    assert!(reg.resolve_path(7, 42).is_err());
    assert!(!reg.has_any_sound(7));
    assert!(!reg.has_sound(7, None));
}

#[test]
fn more_recent_picks_the_later_instant() {
    assert_eq!(more_recent(Some(10), Some(20)), Some(20));
    assert_eq!(more_recent(Some(30), Some(20)), Some(30));
    assert_eq!(more_recent(Some(10), None), Some(10));
    assert_eq!(more_recent(None, Some(20)), Some(20));
    assert_eq!(more_recent(None, None), None);
}

#[test]
fn cooldown_window_is_thirty_seconds() {
    assert_eq!(COOLDOWN_SECONDS, 30);
    assert!(cooldown_active(Some(100), 129));
    assert!(!cooldown_active(Some(100), 130));
    assert!(cooldown_active(Some(200), 100), "a future instant blocks");
    assert!(!cooldown_active(None, 0));
}

#[test]
fn effective_last_played_is_the_max_of_both_scopes() {
    let (mut reg, mut store) = seeded();
    upload_sound(&mut reg, &mut store, 7, None, &audio("g.mp3"), Some(5), vec![1], None).unwrap();
    upload_sound(&mut reg, &mut store, 7, Some(42), &audio("l.mp3"), Some(5), vec![2], None)
        .unwrap();
    reg.set_last_played(7, None, 1000);
    reg.set_last_played(7, Some(42), 400);
    assert_eq!(reg.get_last_played(7, None), Some(1000));
    assert_eq!(reg.get_last_played(7, Some(42)), Some(400));
    assert_eq!(reg.resolve_last_played(7, 42), Some(1000));
}

#[test]
fn record_play_hits_the_selected_row_only() {
    let (mut reg, mut store) = seeded();
    upload_sound(&mut reg, &mut store, 7, None, &audio("g.mp3"), Some(5), vec![1], None).unwrap();
    upload_sound(&mut reg, &mut store, 7, Some(42), &audio("l.mp3"), Some(5), vec![2], None)
        .unwrap();
    reg.record_play(7, 42, 500);
    assert_eq!(reg.get_last_played(7, Some(42)), Some(500));
    assert_eq!(reg.get_last_played(7, None), None);
}

#[test]
fn timestamps_never_move_backwards() {
    let (mut reg, mut store) = seeded();
    upload_sound(&mut reg, &mut store, 7, None, &audio("g.mp3"), Some(5), vec![1], None).unwrap();
    reg.set_last_played(7, None, 1000);
    reg.set_last_played(7, None, 400);
    assert_eq!(reg.get_last_played(7, None), Some(1000));
}

#[test]
fn get_sound_resolves_and_records() {
    let (mut reg, mut store) = seeded();
    let p = upload_sound(&mut reg, &mut store, 7, None, &audio("g.mp3"), Some(5), vec![1], None)
        .unwrap();
    let got = get_sound(&mut reg, 7, 42, 777).unwrap();
    assert!(got.same_path(&p));
    assert_eq!(reg.get_last_played(7, None), Some(777));
}

#[test]
fn get_sound_path_is_per_scope() {
    let (mut reg, mut store) = seeded();
    let global = upload_sound(
        &mut reg, &mut store, 7, None, &audio("g.mp3"), Some(5), vec![1], None,
    )
    .unwrap();
    assert!(get_sound_path(&reg, 7, None).unwrap().same_path(&global));
    assert!(get_sound_path(&reg, 7, Some(42)).is_err());
}

#[test]
fn replacing_a_sound_keeps_its_timestamp_and_cleans_the_old_blob() {
    let (mut reg, mut store) = seeded();
    let first = upload_sound(
        &mut reg, &mut store, 7, None, &audio("one.mp3"), Some(5), vec![1], None,
    )
    .unwrap();
    reg.set_last_played(7, None, 321);
    let (second, cleanup) = update_sound(
        &mut reg, &mut store, 7, None, &audio("two.mp3"), Some(5), vec![2], None,
    )
    .unwrap();
    assert!(cleanup.is_none());
    assert_eq!(reg.get_last_played(7, None), Some(321));
    assert!(reg.resolve_path(7, 1).unwrap().same_path(&second));
    assert!(store.get(&first).is_err(), "old blob must be gone");
    assert_eq!(store.get(&second).unwrap(), &vec![2u8]);
}

#[test]
fn replacement_reports_an_already_missing_old_blob() {
    let (mut reg, mut store) = seeded();
    let first = upload_sound(
        &mut reg, &mut store, 7, None, &audio("one.mp3"), Some(5), vec![1], None,
    )
    .unwrap();
    store.delete(&first).unwrap();
    let (second, cleanup) = update_sound(
        &mut reg, &mut store, 7, None, &audio("two.mp3"), Some(5), vec![2], None,
    )
    .unwrap();
    assert_eq!(cleanup, Some(joinsound::errors::StorageError::NotFound));
    assert!(reg.resolve_path(7, 1).unwrap().same_path(&second));
    assert_eq!(store.get(&second).unwrap(), &vec![2u8]);
}

#[test]
fn removal_clears_row_and_blob() {
    let (mut reg, mut store) = seeded();
    let p = upload_sound(
        &mut reg, &mut store, 7, Some(42), &audio("l.mp3"), Some(5), vec![1], None,
    )
    .unwrap();
    remove_sound(&mut reg, &mut store, 7, Some(42)).unwrap();
    assert!(reg.resolve_path(7, 42).is_err());
    assert!(store.get(&p).is_err());
    assert!(
        !store.user_directory_exists(7),
        "the last sound's empty directories must be removed"
    );
}

#[test]
fn removal_keeps_other_scopes() {
    let (mut reg, mut store) = seeded();
    upload_sound(&mut reg, &mut store, 7, None, &audio("g.mp3"), Some(5), vec![1], None).unwrap();
    let local = upload_sound(
        &mut reg, &mut store, 7, Some(42), &audio("l.mp3"), Some(5), vec![2], None,
    )
    .unwrap();
    remove_sound(&mut reg, &mut store, 7, None).unwrap();
    assert!(reg.resolve_path(7, 42).unwrap().same_path(&local));
    assert!(store.user_directory_exists(7));
}

#[test]
fn purge_removes_every_scope() {
    let (mut reg, mut store) = seeded();
    upload_sound(&mut reg, &mut store, 7, None, &audio("g.mp3"), Some(5), vec![1], None).unwrap();
    upload_sound(&mut reg, &mut store, 7, Some(1), &audio("a.mp3"), Some(5), vec![2], None)
        .unwrap();
    upload_sound(&mut reg, &mut store, 7, Some(2), &audio("b.mp3"), Some(5), vec![3], None)
        .unwrap();
    upload_sound(&mut reg, &mut store, 8, None, &audio("o.mp3"), Some(5), vec![4], None).unwrap();
    remove_all_sounds(&mut reg, &mut store, 7).unwrap();
    assert!(!reg.has_any_sound(7));
    assert!(reg.resolve_path(7, 1).is_err());
    assert!(!store.user_directory_exists(7));
    assert!(reg.has_any_sound(8), "other users keep their sounds");
    assert!(store.user_directory_exists(8));
}

#[test]
fn vanished_blob_still_removes_the_row_but_fails_loudly() {
    let (mut reg, mut store) = seeded();
    let p = upload_sound(
        &mut reg, &mut store, 7, None, &audio("g.mp3"), Some(5), vec![1], None,
    )
    .unwrap();
    store.delete(&p).unwrap();
    let r = remove_sound(&mut reg, &mut store, 7, None);
    assert_eq!(
        r.unwrap_err(),
        joinsound::errors::RemoveError::Blob(joinsound::errors::StorageError::NotFound)
    );
    assert!(
        !reg.has_sound(7, None),
        "registry consistency comes first: the row is gone regardless"
    );
}

#[test]
fn loading_rows_keeps_the_first_of_duplicate_keys() {
    let rows = vec![
        JoinSound {
            user_id: 7,
            community_id: None,
            file_path: Some(joinsound::paths::StoredPath {
                user_id: 7,
                community_id: None,
                file_name: "first.mp3".to_string(),
            }),
            last_played: Some(10),
        },
        JoinSound {
            user_id: 7,
            community_id: None,
            file_path: Some(joinsound::paths::StoredPath {
                user_id: 7,
                community_id: None,
                file_name: "second.mp3".to_string(),
            }),
            last_played: Some(20),
        },
    ];
    let reg = SoundRegistry::from_rows(rows);
    let p = reg.resolve_path(7, 1).unwrap();
    assert_eq!(p.file_name, "first.mp3");
    assert_eq!(reg.get_last_played(7, None), Some(10));
}

#[test]
fn pathless_rows_are_invisible_to_resolution() {
    let rows = vec![JoinSound {
        user_id: 7,
        community_id: None,
        file_path: None,
        last_played: Some(10),
    }];
    let reg = SoundRegistry::from_rows(rows);
    assert!(!reg.has_sound(7, None));
    assert!(!reg.has_any_sound(7));
    assert!(reg.resolve_path(7, 1).is_err());
    assert_eq!(reg.get_last_played(7, None), Some(10));
}
