//! The playback orchestrator: the end-to-end join scenarios, the cooldown
//! in action, and the idempotent connect.

use joinsound::backend::upload_sound;
use joinsound::ingest::AttachmentMeta;
use joinsound::orchestrator::{JoinEvent, JoinOutcome, PlaybackOrchestrator, SessionState};
use joinsound::registry::SoundRegistry;
use joinsound::store::{BlobStore, StorageBackend};

fn audio(name: &str) -> AttachmentMeta {
    AttachmentMeta {
        file_name: name.to_string(),
        content_type: Some("audio/mpeg".to_string()),
    }
}

fn entry(user_id: u64, community_id: u64, channel_id: u64) -> JoinEvent {
    JoinEvent {
        user_id,
        community_id,
        channel_id: Some(channel_id),
        entered: true,
    }
}

#[test]
fn global_sound_plays_once_then_disconnects() {
    let mut reg = SoundRegistry::new();
    let mut store = BlobStore::new(StorageBackend::FileSystem);
    let mut orch = PlaybackOrchestrator::new();
    let clip = vec![7u8; 32];
    let uploaded = upload_sound(
        &mut reg,
        &mut store,
        7,
        None,
        &audio("tada.mp3"),
        Some(10),
        clip.clone(),
        None,
    )
    .unwrap();

    let outcome = orch.on_join_event(&mut reg, &entry(7, 42, 5), 1000);
    match outcome {
        JoinOutcome::Play { connect_to, path } => {
            assert_eq!(connect_to, Some(5), "a first join opens the connection");
            assert!(path.same_path(&uploaded));
            assert_eq!(store.get(&path).unwrap(), &clip);
        }
        other => panic!("expected a playback, got {:?}", other),
    }
    assert_eq!(orch.current_state(42), SessionState::PlayingTrack);

    orch.on_track_end(42);
    assert_eq!(orch.current_state(42), SessionState::Disconnected);
}

#[test]
fn local_sound_plays_instead_of_global() {
    let mut reg = SoundRegistry::new();
    let mut store = BlobStore::new(StorageBackend::FileSystem);
    let mut orch = PlaybackOrchestrator::new();
    upload_sound(&mut reg, &mut store, 7, None, &audio("global.mp3"), Some(5), vec![1], None)
        .unwrap();
    let local = upload_sound(
        &mut reg,
        &mut store,
        7,
        Some(42),
        &audio("local.mp3"),
        Some(5),
        vec![2],
        None,
    )
    .unwrap();

    let outcome = orch.on_join_event(&mut reg, &entry(7, 42, 5), 1000);
    match outcome {
        JoinOutcome::Play { path, .. } => {
            assert!(path.same_path(&local));
            assert_eq!(path.file_name, "local.mp3");
        }
        other => panic!("expected a playback, got {:?}", other),
    }
}

#[test]
fn a_recent_play_silences_every_community() {
    let mut reg = SoundRegistry::new();
    let mut store = BlobStore::new(StorageBackend::FileSystem);
    let mut orch = PlaybackOrchestrator::new();
    upload_sound(&mut reg, &mut store, 7, None, &audio("g.mp3"), Some(5), vec![1], None).unwrap();

    let first = orch.on_join_event(&mut reg, &entry(7, 1, 5), 1000);
    assert!(matches!(first, JoinOutcome::Play { .. }));
    orch.on_track_end(1);

    let second = orch.on_join_event(&mut reg, &entry(7, 2, 6), 1010);
    assert!(matches!(second, JoinOutcome::OnCooldown));

    let third = orch.on_join_event(&mut reg, &entry(7, 2, 6), 1030);
    assert!(matches!(third, JoinOutcome::Play { .. }), "the window is exactly thirty seconds");
}

#[test]
fn a_recent_local_play_silences_its_own_community() {
    let mut reg = SoundRegistry::new();
    let mut store = BlobStore::new(StorageBackend::FileSystem);
    let mut orch = PlaybackOrchestrator::new();
    upload_sound(&mut reg, &mut store, 7, Some(42), &audio("l.mp3"), Some(5), vec![1], None)
        .unwrap();

    let first = orch.on_join_event(&mut reg, &entry(7, 42, 5), 1000);
    assert!(matches!(first, JoinOutcome::Play { .. }));
    orch.on_track_end(42);

    let again = orch.on_join_event(&mut reg, &entry(7, 42, 5), 1015);
    assert!(matches!(again, JoinOutcome::OnCooldown));
}

#[test]
fn a_local_play_does_not_silence_a_community_with_its_own_sound() {
    // The cooldown counts a community's local timestamp and the global one.
    // A playback recorded on another community's local row is outside both,
    // so a community with its own sound still plays.
    let mut reg = SoundRegistry::new();
    let mut store = BlobStore::new(StorageBackend::FileSystem);
    let mut orch = PlaybackOrchestrator::new();
    upload_sound(&mut reg, &mut store, 7, Some(1), &audio("a.mp3"), Some(5), vec![1], None)
        .unwrap();
    upload_sound(&mut reg, &mut store, 7, Some(2), &audio("b.mp3"), Some(5), vec![2], None)
        .unwrap();

    assert!(matches!(orch.on_join_event(&mut reg, &entry(7, 1, 5), 1000), JoinOutcome::Play { .. }));
    orch.on_track_end(1);
    assert!(matches!(orch.on_join_event(&mut reg, &entry(7, 2, 6), 1010), JoinOutcome::Play { .. }));
}

#[test]
fn no_second_join_while_connected() {
    let mut reg = SoundRegistry::new();
    let mut store = BlobStore::new(StorageBackend::FileSystem);
    let mut orch = PlaybackOrchestrator::new();
    upload_sound(&mut reg, &mut store, 7, None, &audio("g.mp3"), Some(5), vec![1], None).unwrap();
    upload_sound(&mut reg, &mut store, 8, None, &audio("h.mp3"), Some(5), vec![2], None).unwrap();

    let first = orch.on_join_event(&mut reg, &entry(7, 42, 5), 1000);
    match first {
        JoinOutcome::Play { connect_to, .. } => assert_eq!(connect_to, Some(5)),
        other => panic!("expected a playback, got {:?}", other),
    }

    // another user enters the same community while the session is live
    let second = orch.on_join_event(&mut reg, &entry(8, 42, 5), 1100);
    match second {
        JoinOutcome::Play { connect_to, .. } => {
            assert_eq!(connect_to, None, "the live session is reused, never joined again");
        }
        other => panic!("expected a playback, got {:?}", other),
    }
}

#[test]
fn moving_between_channels_is_not_an_entry() {
    let mut reg = SoundRegistry::new();
    let mut store = BlobStore::new(StorageBackend::FileSystem);
    let mut orch = PlaybackOrchestrator::new();
    upload_sound(&mut reg, &mut store, 7, None, &audio("g.mp3"), Some(5), vec![1], None).unwrap();

    let moved = JoinEvent {
        user_id: 7,
        community_id: 42,
        channel_id: Some(5),
        entered: false,
    };
    assert!(matches!(orch.on_join_event(&mut reg, &moved, 1000), JoinOutcome::NotAnEntry));
    assert_eq!(reg.get_last_played(7, None), None, "a non-entry records nothing");
}

#[test]
fn no_sound_is_a_no_op() {
    let mut reg = SoundRegistry::new();
    let mut orch = PlaybackOrchestrator::new();
    assert!(matches!(orch.on_join_event(&mut reg, &entry(7, 42, 5), 1000), JoinOutcome::NoSound));
    assert_eq!(orch.current_state(42), SessionState::Disconnected);
}

#[test]
fn unknown_channel_aborts_without_state_change() {
    let mut reg = SoundRegistry::new();
    let mut store = BlobStore::new(StorageBackend::FileSystem);
    let mut orch = PlaybackOrchestrator::new();
    upload_sound(&mut reg, &mut store, 7, None, &audio("g.mp3"), Some(5), vec![1], None).unwrap();

    let no_channel = JoinEvent {
        user_id: 7,
        community_id: 42,
        channel_id: None,
        entered: true,
    };
    assert!(matches!(orch.on_join_event(&mut reg, &no_channel, 1000), JoinOutcome::NoChannel));
    assert_eq!(orch.current_state(42), SessionState::Disconnected);
    assert_eq!(reg.get_last_played(7, None), None, "an aborted join records nothing");
}

#[test]
fn failed_playback_still_disconnects() {
    let mut reg = SoundRegistry::new();
    let mut store = BlobStore::new(StorageBackend::FileSystem);
    let mut orch = PlaybackOrchestrator::new();
    upload_sound(&mut reg, &mut store, 7, None, &audio("g.mp3"), Some(5), vec![1], None).unwrap();

    let outcome = orch.on_join_event(&mut reg, &entry(7, 42, 5), 1000);
    assert!(matches!(outcome, JoinOutcome::Play { .. }));
    // the blob turns out to be unreadable: the session must not stay open
    orch.on_play_failed(42);
    assert_eq!(orch.current_state(42), SessionState::Disconnected);
}

#[test]
fn communities_are_independent() {
    let mut reg = SoundRegistry::new();
    let mut store = BlobStore::new(StorageBackend::FileSystem);
    let mut orch = PlaybackOrchestrator::new();
    upload_sound(&mut reg, &mut store, 7, Some(1), &audio("a.mp3"), Some(5), vec![1], None)
        .unwrap();
    upload_sound(&mut reg, &mut store, 8, Some(2), &audio("b.mp3"), Some(5), vec![2], None)
        .unwrap();

    assert!(matches!(orch.on_join_event(&mut reg, &entry(7, 1, 5), 1000), JoinOutcome::Play { .. }));
    assert!(matches!(orch.on_join_event(&mut reg, &entry(8, 2, 6), 1000), JoinOutcome::Play { .. }));
    assert_eq!(orch.current_state(1), SessionState::PlayingTrack);
    assert_eq!(orch.current_state(2), SessionState::PlayingTrack);
    orch.on_track_end(1);
    assert_eq!(orch.current_state(1), SessionState::Disconnected);
    assert_eq!(orch.current_state(2), SessionState::PlayingTrack);
}
