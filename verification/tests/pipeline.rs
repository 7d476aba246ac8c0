//! Ingestion and storage: validation, the duration ceiling, transcoding,
//! and the committed blob round-tripping through the store.

use joinsound::backend::{remove_sound, upload_sound};
use joinsound::errors::{IngestError, RemoveError, StorageError};
use joinsound::ingest::{
    audio_file_name, duration_allowed, ingest, media_kind, parse_probe_seconds,
    validate_attachment, AttachmentMeta, MediaKind,
};
use joinsound::registry::SoundRegistry;
use joinsound::store::{BlobStore, ReadPlan, StorageBackend};

fn audio_attachment(name: &str) -> AttachmentMeta {
    AttachmentMeta {
        file_name: name.to_string(),
        content_type: Some("audio/mpeg".to_string()),
    }
}

fn video_attachment(name: &str) -> AttachmentMeta {
    AttachmentMeta {
        file_name: name.to_string(),
        content_type: Some("video/mp4".to_string()),
    }
}

#[test]
fn audio_upload_round_trips_bytes() {
    let mut reg = SoundRegistry::new();
    let mut store = BlobStore::new(StorageBackend::FileSystem);
    let bytes = vec![1u8, 2, 3, 4, 5];
    let path = upload_sound(
        &mut reg,
        &mut store,
        7,
        None,
        &audio_attachment("clip.mp3"),
        Some(10),
        bytes.clone(),
        None,
    )
    .expect("valid audio under the ceiling must ingest");
    assert_eq!(path.user_id, 7);
    assert_eq!(path.community_id, None);
    assert_eq!(path.file_name, "clip.mp3");
    let resolved = reg.resolve_path(7, 42).expect("global sound must resolve");
    assert!(resolved.same_path(&path));
    let stored = store.get(&resolved).expect("blob must be there");
    assert_eq!(stored, &bytes);
}

#[test]
fn video_upload_stores_transcoded_audio_under_mp3_name() {
    let mut reg = SoundRegistry::new();
    let mut store = BlobStore::new(StorageBackend::FileSystem);
    let transcoded = vec![9u8, 9, 9];
    let path = upload_sound(
        &mut reg,
        &mut store,
        7,
        Some(42),
        &video_attachment("movie.mp4"),
        Some(12),
        vec![0u8; 64],
        Some(transcoded.clone()),
    )
    .expect("valid video under the ceiling must ingest");
    assert_eq!(path.file_name, "movie.mp3");
    let stored = store.get(&path).expect("blob must be there");
    assert_eq!(stored, &transcoded);
    assert!(!stored.is_empty());
}

#[test]
fn too_long_attachment_commits_no_blob() {
    let mut reg = SoundRegistry::new();
    let mut store = BlobStore::new(StorageBackend::FileSystem);
    let r = upload_sound(
        &mut reg,
        &mut store,
        7,
        None,
        &audio_attachment("clip.mp3"),
        Some(16),
        vec![1u8, 2, 3],
        None,
    );
    assert_eq!(r.unwrap_err(), IngestError::TooLong);
    assert!(!reg.has_any_sound(7));
    assert!(reg.resolve_path(7, 42).is_err());
}

#[test]
fn failed_probe_counts_as_unbounded_and_rejects() {
    let mut store = BlobStore::new(StorageBackend::FileSystem);
    let r = ingest(
        &mut store,
        7,
        None,
        &audio_attachment("clip.mp3"),
        None,
        vec![1u8],
        None,
    );
    assert_eq!(r.unwrap_err(), IngestError::TooLong);
}

#[test]
fn unsupported_media_type_rejected() {
    let mut store = BlobStore::new(StorageBackend::FileSystem);
    let image = AttachmentMeta {
        file_name: "pic.png".to_string(),
        content_type: Some("image/png".to_string()),
    };
    let r = ingest(&mut store, 7, None, &image, Some(3), vec![1u8], None);
    assert_eq!(r.unwrap_err(), IngestError::UnsupportedType);
}

#[test]
fn missing_media_type_rejected() {
    let mut store = BlobStore::new(StorageBackend::FileSystem);
    let unknown = AttachmentMeta {
        file_name: "what".to_string(),
        content_type: None,
    };
    assert!(!validate_attachment(&unknown));
    let r = ingest(&mut store, 7, None, &unknown, Some(3), vec![1u8], None);
    assert_eq!(r.unwrap_err(), IngestError::UnsupportedType);
}

#[test]
fn video_without_transcoder_output_fails() {
    let mut store = BlobStore::new(StorageBackend::FileSystem);
    let r = ingest(
        &mut store,
        7,
        None,
        &video_attachment("movie.mp4"),
        Some(3),
        vec![1u8],
        None,
    );
    assert_eq!(r.unwrap_err(), IngestError::TranscodeFailed);
    let r2 = ingest(
        &mut store,
        7,
        None,
        &video_attachment("movie.mp4"),
        Some(3),
        vec![1u8],
        Some(vec![]),
    );
    assert_eq!(r2.unwrap_err(), IngestError::TranscodeFailed);
}

#[test]
fn media_kind_reads_top_level_token() {
    assert_eq!(media_kind(&audio_attachment("a")), Some(MediaKind::Audio));
    assert_eq!(media_kind(&video_attachment("a")), Some(MediaKind::Video));
    let bare = AttachmentMeta {
        file_name: "a".to_string(),
        content_type: Some("audio".to_string()),
    };
    assert_eq!(media_kind(&bare), Some(MediaKind::Audio));
    let odd = AttachmentMeta {
        file_name: "a".to_string(),
        content_type: Some("audio2/mpeg".to_string()),
    };
    assert_eq!(media_kind(&odd), None);
}

#[test]
fn duration_ceiling_is_fifteen_seconds() {
    assert!(duration_allowed(Some(15)));
    assert!(duration_allowed(Some(0)));
    assert!(!duration_allowed(Some(16)));
    assert!(!duration_allowed(None));
}

#[test]
fn probe_output_parses_and_rounds() {
    assert_eq!(parse_probe_seconds("12.7"), Some(13));
    assert_eq!(parse_probe_seconds("14.49"), Some(14));
    assert_eq!(parse_probe_seconds("15.5"), Some(16));
    assert_eq!(parse_probe_seconds("15.0"), Some(15));
    assert_eq!(parse_probe_seconds("12."), Some(12));
    assert_eq!(parse_probe_seconds("12"), Some(12));
    assert_eq!(parse_probe_seconds("abc"), None);
    assert_eq!(parse_probe_seconds(""), None);
    assert_eq!(parse_probe_seconds("1.2.3"), None);
    assert_eq!(parse_probe_seconds(".5"), None);
}

#[test]
fn video_file_names_gain_mp3_extension() {
    assert_eq!(audio_file_name("movie.mp4"), "movie.mp3");
    assert_eq!(audio_file_name("archive.tar.gz"), "archive.tar.mp3");
    assert_eq!(audio_file_name("noext"), "noext.mp3");
}

#[test]
fn object_store_blob_needs_materializing() {
    let mut reg = SoundRegistry::new();
    let mut store = BlobStore::new(StorageBackend::ObjectStore);
    let path = upload_sound(
        &mut reg,
        &mut store,
        7,
        None,
        &audio_attachment("clip.mp3"),
        Some(5),
        vec![1u8],
        None,
    )
    .unwrap();
    assert_eq!(
        store.resolve_local_readable(&path),
        Ok(ReadPlan::MaterializeToScratch)
    );
    let mut fs_store = BlobStore::new(StorageBackend::FileSystem);
    let mut fs_reg = SoundRegistry::new();
    let fs_path = upload_sound(
        &mut fs_reg,
        &mut fs_store,
        7,
        None,
        &audio_attachment("clip.mp3"),
        Some(5),
        vec![1u8],
        None,
    )
    .unwrap();
    assert_eq!(
        fs_store.resolve_local_readable(&fs_path),
        Ok(ReadPlan::Direct)
    );
}

#[test]
fn missing_blob_reports_not_found() {
    let store = BlobStore::new(StorageBackend::FileSystem);
    let ghost_path = joinsound::paths::StoredPath {
        user_id: 1,
        community_id: None,
        file_name: "nothing.mp3".to_string(),
    };
    assert_eq!(store.get(&ghost_path), Err(StorageError::NotFound));
    assert_eq!(
        store.resolve_local_readable(&ghost_path),
        Err(StorageError::NotFound)
    );
}

#[test]
fn removing_missing_sound_reports_state_error() {
    let mut reg = SoundRegistry::new();
    let mut store = BlobStore::new(StorageBackend::FileSystem);
    let r = remove_sound(&mut reg, &mut store, 7, None);
    assert_eq!(r.unwrap_err(), RemoveError::NoSuchSound);
}
