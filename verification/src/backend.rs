//! The operations the command layer calls: upload or update a sound (the
//! full ingestion pipeline followed by the registry upsert), look a sound up,
//! and remove one sound or all of a user's sounds together with their
//! backing media. The registry and the store are injected; their state is
//! what every contract here speaks about.

use vstd::prelude::*;

use crate::errors::{IngestError, NotFoundError, RemoveError, StorageError};
use crate::ingest::{ingest, spec_dest_file_name, spec_ingest_kind, spec_ingest_outcome, spec_ingested_bytes, AttachmentMeta};
use crate::paths::{PathKey, StoredPath};
use crate::registry::{spec_recorded, spec_selected_scope, spec_stored_path, ScopeKey, SoundRecord, SoundRegistry};
use crate::store::{spec_dir_occupied, spec_dirs_after_put, BlobStore, MediaDir};

verus! {

/// Upload a new join sound: ingest the attachment and record the committed
/// path on the `(user, community)` row, creating or replacing it. A prior
/// blob of that row is not touched; `update_sound` is the operation that
/// also cleans the old blob up.
pub fn upload_sound(
    reg: &mut SoundRegistry,
    store: &mut BlobStore,
    user_id: u64,
    community_id: Option<u64>,
    attachment: &AttachmentMeta,
    probed_seconds: Option<u64>,
    downloaded: Vec<u8>,
    transcoded: Option<Vec<u8>>,
) -> (r: Result<StoredPath, IngestError>)
    requires
        old(reg).wf(),
        old(store).wf(),
        attachment.wf(),
    ensures
        final(reg).wf(),
        final(store).wf(),
        final(store).mode() == old(store).mode(),
        ({
            let ct = attachment.spec_content_type();
            match r {
                Err(e) => {
                    &&& spec_ingest_outcome(ct, probed_seconds, transcoded) == Some(e)
                    &&& *final(store) == *old(store)
                    &&& *final(reg) == *old(reg)
                },
                Ok(p) => {
                    &&& spec_ingest_outcome(ct, probed_seconds, transcoded) is None
                    &&& p.wf()
                    &&& p@ == (
                        user_id,
                        community_id,
                        spec_dest_file_name(spec_ingest_kind(ct), attachment.file_name@),
                    )
                    &&& final(store).contents() == old(store).contents().insert(
                        p@,
                        spec_ingested_bytes(spec_ingest_kind(ct), downloaded@, transcoded),
                    )
                    &&& final(store).dir_set() =~= spec_dirs_after_put(
                        old(store).dir_set(),
                        old(store).mode(),
                        p@,
                    )
                    &&& final(reg).table() == old(reg).table().insert(
                        (user_id, community_id),
                        SoundRecord {
                            path: Some(p@),
                            last_played: crate::registry::spec_last_played(
                                old(reg).table(),
                                user_id,
                                community_id,
                            ),
                        },
                    )
                },
            }
        }),
{
    let path = match ingest(
        store,
        user_id,
        community_id,
        attachment,
        probed_seconds,
        downloaded,
        transcoded,
    ) {
        Ok(p) => p,
        Err(e) => {
            return Err(e);
        },
    };
    let recorded = path.clone();
    reg.create_or_replace(user_id, community_id, recorded);
    Ok(path)
}

/// Replace a user's join sound: ingest the new attachment, record its path
/// on the row, and only then delete the previous blob, so there is never a
/// window with no playable sound. A failure to delete the stale blob is
/// reported but does not undo the update.
pub fn update_sound(
    reg: &mut SoundRegistry,
    store: &mut BlobStore,
    user_id: u64,
    community_id: Option<u64>,
    attachment: &AttachmentMeta,
    probed_seconds: Option<u64>,
    downloaded: Vec<u8>,
    transcoded: Option<Vec<u8>>,
) -> (r: Result<(StoredPath, Option<StorageError>), IngestError>)
    requires
        old(reg).wf(),
        old(store).wf(),
        attachment.wf(),
    ensures
        final(reg).wf(),
        final(store).wf(),
        final(store).mode() == old(store).mode(),
        ({
            let ct = attachment.spec_content_type();
            match r {
                Err(e) => {
                    &&& spec_ingest_outcome(ct, probed_seconds, transcoded) == Some(e)
                    &&& *final(store) == *old(store)
                    &&& *final(reg) == *old(reg)
                },
                Ok(pair) => {
                    let p = pair.0;
                    let cleanup = pair.1;
                    let committed = old(store).contents().insert(
                        p@,
                        spec_ingested_bytes(spec_ingest_kind(ct), downloaded@, transcoded),
                    );
                    &&& spec_ingest_outcome(ct, probed_seconds, transcoded) is None
                    &&& p.wf()
                    &&& p@ == (
                        user_id,
                        community_id,
                        spec_dest_file_name(spec_ingest_kind(ct), attachment.file_name@),
                    )
                    &&& final(reg).table() == old(reg).table().insert(
                        (user_id, community_id),
                        SoundRecord {
                            path: Some(p@),
                            last_played: crate::registry::spec_last_played(
                                old(reg).table(),
                                user_id,
                                community_id,
                            ),
                        },
                    )
                    &&& match spec_stored_path(old(reg).table(), user_id, community_id) {
                        Some(q) => if q == p@ {
                            final(store).contents() == committed && cleanup is None
                        } else if committed.dom().contains(q) {
                            final(store).contents() == committed.remove(q) && cleanup is None
                        } else {
                            final(store).contents() == committed && cleanup == Some(
                                StorageError::NotFound,
                            )
                        },
                        None => final(store).contents() == committed && cleanup is None,
                    }
                },
            }
        }),
{
    let prior = reg.path_at(user_id, community_id);
    let path = match ingest(
        store,
        user_id,
        community_id,
        attachment,
        probed_seconds,
        downloaded,
        transcoded,
    ) {
        Ok(p) => p,
        Err(e) => {
            return Err(e);
        },
    };
    let recorded = path.clone();
    reg.create_or_replace(user_id, community_id, recorded);
    let cleanup: Option<StorageError> = match prior {
        Some(q) => {
            if q.same_path(&path) {
                None
            } else {
                match store.delete(&q) {
                    Ok(()) => None,
                    Err(e) => Some(e),
                }
            }
        },
        None => None,
    };
    Ok((path, cleanup))
}

/// Look up the path that plays for `user_id` entering `community_id` and
/// record the playback at `now` on the selected row: the resolution step the
/// orchestrator performs.
pub fn get_sound(
    reg: &mut SoundRegistry,
    user_id: u64,
    community_id: u64,
    now: u64,
) -> (r: Result<StoredPath, NotFoundError>)
    requires
        old(reg).wf(),
    ensures
        final(reg).wf(),
        final(reg).table() == spec_recorded(old(reg).table(), user_id, community_id, now),
        match spec_selected_scope(old(reg).table(), user_id, community_id) {
            Some(scope) => r matches Ok(p) && Some(p@) == old(reg).table()[(user_id, scope)].path,
            None => r is Err && *final(reg) == *old(reg),
        },
{
    let resolved = reg.resolve_path(user_id, community_id);
    match resolved {
        Ok(p) => {
            reg.record_play(user_id, community_id, now);
            Ok(p)
        },
        Err(e) => Err(e),
    }
}

/// Look up the sound stored at exactly this scope — the user's community
/// sound, or with `None` their global one — without touching timestamps.
pub fn get_sound_path(
    reg: &SoundRegistry,
    user_id: u64,
    scope: Option<u64>,
) -> (r: Result<StoredPath, NotFoundError>)
    requires
        reg.wf(),
    ensures
        match r {
            Ok(p) => spec_stored_path(reg.table(), user_id, scope) == Some(p@),
            Err(_) => spec_stored_path(reg.table(), user_id, scope) is None,
        },
{
    match reg.path_at(user_id, scope) {
        Some(p) => Ok(p),
        None => Err(NotFoundError),
    }
}

/// Remove the sound at one scope: delete the backing blob first, then the
/// row. The row goes away even when the blob could not be deleted; that
/// failure is reported loudly. Removing a scope that holds no sound fails
/// and changes nothing.
pub fn remove_sound(
    reg: &mut SoundRegistry,
    store: &mut BlobStore,
    user_id: u64,
    scope: Option<u64>,
) -> (r: Result<(), RemoveError>)
    requires
        old(reg).wf(),
        old(store).wf(),
    ensures
        final(reg).wf(),
        final(store).wf(),
        final(store).mode() == old(store).mode(),
        match spec_stored_path(old(reg).table(), user_id, scope) {
            None => {
                &&& r == Err::<(), RemoveError>(RemoveError::NoSuchSound)
                &&& *final(reg) == *old(reg)
                &&& *final(store) == *old(store)
            },
            Some(q) => {
                &&& final(reg).table() == old(reg).table().remove((user_id, scope))
                &&& if old(store).contents().dom().contains(q) {
                    &&& r is Ok
                    &&& final(store).contents() == old(store).contents().remove(q)
                    &&& final(store).dir_set() =~= Set::new(
                        |d: MediaDir|
                            old(store).dir_set().contains(d) && spec_dir_occupied(
                                final(store).contents(),
                                d,
                            ),
                    )
                } else {
                    &&& r == Err::<(), RemoveError>(RemoveError::Blob(StorageError::NotFound))
                    &&& *final(store) == *old(store)
                }
            },
        },
{
    let q = match reg.path_at(user_id, scope) {
        Some(q) => q,
        None => {
            return Err(RemoveError::NoSuchSound);
        },
    };
    let deleted = store.delete(&q);
    reg.remove_row(user_id, scope);
    match deleted {
        Ok(()) => Ok(()),
        Err(e) => Err(RemoveError::Blob(e)),
    }
}

/// Upload-then-resolve round trip: after a successful upload has recorded
/// path `p` with bytes `b` on the `(user, scope)` row, resolution for the
/// matching community — the community itself for a local upload; any
/// community the user has no local sound in, for a global one — returns `p`,
/// and the blob stored at `p` is exactly `b`: for an audio attachment, the
/// bytes that came in.
pub proof fn lemma_upload_round_trip(
    t: Map<ScopeKey, SoundRecord>,
    c: Map<PathKey, Seq<u8>>,
    user_id: u64,
    community_id: u64,
    scope: Option<u64>,
    p: PathKey,
    b: Seq<u8>,
)
    requires
        scope == Some(community_id) || scope is None,
        scope is None ==> !crate::registry::spec_visible(t, user_id, Some(community_id)),
    ensures
        crate::registry::spec_resolved_path(
            t.insert(
                (user_id, scope),
                SoundRecord {
                    path: Some(p),
                    last_played: crate::registry::spec_last_played(t, user_id, scope),
                },
            ),
            user_id,
            community_id,
        ) == Some(p),
        c.insert(p, b)[p] == b,
{
}

/// The paths of every sound a user has, across all scopes.
pub open spec fn spec_user_sound_paths(t: Map<ScopeKey, SoundRecord>, user_id: u64) -> Set<PathKey> {
    Set::new(
        |q: PathKey|
            exists|scope: Option<u64>| #[trigger] spec_stored_path(t, user_id, scope) == Some(q),
    )
}

/// The paths stored at the given scopes of one user.
pub open spec fn spec_paths_of(
    t: Map<ScopeKey, SoundRecord>,
    user_id: u64,
    scopes: Seq<Option<u64>>,
) -> Set<PathKey> {
    Set::new(
        |q: PathKey|
            exists|j: int|
                0 <= j < scopes.len() && spec_stored_path(t, user_id, #[trigger] scopes[j])
                    == Some(q),
    )
}

/// The registry keys of one user at the given scopes.
pub open spec fn spec_scope_keys(user_id: u64, scopes: Seq<Option<u64>>) -> Set<ScopeKey> {
    Set::new(|k: ScopeKey| k.0 == user_id && scopes.contains(k.1))
}

/// The healthy state a bulk removal relies on to go through cleanly: every
/// sound of the user has its blob in the store, and no two rows share one.
pub open spec fn spec_user_blobs_intact(
    t: Map<ScopeKey, SoundRecord>,
    c: Map<PathKey, Seq<u8>>,
    user_id: u64,
) -> bool {
    &&& forall|scope: Option<u64>|
        match #[trigger] spec_stored_path(t, user_id, scope) {
            Some(q) => c.dom().contains(q),
            None => true,
        }
    &&& forall|s1: Option<u64>, s2: Option<u64>|
        #![trigger spec_stored_path(t, user_id, s1), spec_stored_path(t, user_id, s2)]
        s1 != s2 && spec_stored_path(t, user_id, s1) is Some ==> spec_stored_path(t, user_id, s1)
            != spec_stored_path(t, user_id, s2)
}

/// Remove every sound of one user: each row goes away together with its
/// backing blob. Registry consistency comes first — rows are removed even
/// when a blob cannot be deleted; the first such failure is reported after
/// the sweep finishes. When every blob is in place and unshared, the sweep
/// succeeds.
pub fn remove_all_sounds(reg: &mut SoundRegistry, store: &mut BlobStore, user_id: u64) -> (r:
    Result<(), RemoveError>)
    requires
        old(reg).wf(),
        old(store).wf(),
    ensures
        final(reg).wf(),
        final(store).wf(),
        final(store).mode() == old(store).mode(),
        final(reg).table() =~= old(reg).table().remove_keys(
            (Set::new(|k: ScopeKey| k.0 == user_id)),
        ),
        final(store).contents() =~= old(store).contents().remove_keys(
            spec_user_sound_paths(old(reg).table(), user_id),
        ),
        r is Err ==> r matches Err(RemoveError::Blob(_)),
        spec_user_blobs_intact(old(reg).table(), old(store).contents(), user_id) ==> r is Ok,
{
    let ghost told = reg.table();
    let ghost cold = store.contents();
    let scopes = reg.scopes_for_user(user_id);
    let n = scopes.len();
    let mut i: usize = 0;
    let mut failure: Option<StorageError> = None;
    proof {
        assert(scopes@.take(0) =~= Seq::<Option<u64>>::empty());
        assert(reg.table() =~= told.remove_keys(spec_scope_keys(user_id, scopes@.take(0))));
        assert(store.contents() =~= cold.remove_keys(spec_paths_of(told, user_id, scopes@.take(0))));
    }
    while i < n
        invariant
            reg.wf(),
            store.wf(),
            store.mode() == old(store).mode(),
            told == old(reg).table(),
            cold == old(store).contents(),
            n == scopes@.len(),
            i <= n,
            forall|scope: Option<u64>|
                #[trigger] scopes@.contains(scope) <==> told.dom().contains((user_id, scope)),
            forall|a: int, b: int| 0 <= a < b < n ==> scopes@[a] != scopes@[b],
            reg.table() =~= told.remove_keys(spec_scope_keys(user_id, scopes@.take(i as int))),
            store.contents() =~= cold.remove_keys(
                spec_paths_of(told, user_id, scopes@.take(i as int)),
            ),
            spec_user_blobs_intact(told, cold, user_id) ==> failure is None,
        decreases n - i,
    {
        let scope = scopes[i];
        let ghost processed = scopes@.take(i as int);
        proof {
            if processed.contains(scope) {
                let j = choose|j: int| 0 <= j < i && scopes@.take(i as int)[j] == scope;
                assert(scopes@[j] == scopes@[i as int]);
                assert(false);
            }
            assert(!spec_scope_keys(user_id, processed).contains((user_id, scope)));
            assert(spec_stored_path(reg.table(), user_id, scope) == spec_stored_path(
                told,
                user_id,
                scope,
            ));
        }
        let ghost reg0 = reg.table();
        let ghost store0 = store.contents();
        match reg.path_at(user_id, scope) {
            Some(q) => {
                let deleted = store.delete(&q);
                match deleted {
                    Ok(()) => {},
                    Err(e) => {
                        proof {
                            // a healthy state never reaches this arm: the
                            // blob exists and no processed scope shared it
                            if spec_user_blobs_intact(told, cold, user_id) {
                                assert(cold.dom().contains(q@));
                                if spec_paths_of(told, user_id, processed).contains(q@) {
                                    let j = choose|j: int|
                                        0 <= j < processed.len() && spec_stored_path(
                                            told,
                                            user_id,
                                            processed[j],
                                        ) == Some(q@);
                                    assert(processed[j] == scopes@[j]);
                                    assert(scopes@[j] != scope);
                                    assert(false);
                                }
                                assert(store0.dom().contains(q@));
                                assert(false);
                            }
                        }
                        if failure.is_none() {
                            failure = Some(e);
                        }
                    },
                }
                reg.remove_row(user_id, scope);
            },
            None => {
                reg.remove_row(user_id, scope);
            },
        }
        i = i + 1;
        proof {
            let done = scopes@.take(i as int);
            assert(done.drop_last() =~= processed);
            assert(done.last() == scope);
            assert forall|x: Option<u64>| #[trigger] done.contains(x) <==> (processed.contains(x)
                || x == scope) by {
                if done.contains(x) {
                    let j = choose|j: int| 0 <= j < done.len() && done[j] == x;
                    if j < processed.len() {
                        assert(processed[j] == x);
                    }
                } else {
                    if processed.contains(x) {
                        let j = choose|j: int| 0 <= j < processed.len() && processed[j] == x;
                        assert(done[j] == x);
                    }
                    if x == scope {
                        assert(done[i - 1] == x);
                    }
                }
            }
            assert(reg.table() =~= told.remove_keys(spec_scope_keys(user_id, done)));
            assert forall|p: PathKey| #[trigger] spec_paths_of(told, user_id, done).contains(p)
                <==> (spec_paths_of(told, user_id, processed).contains(p) || spec_stored_path(
                told,
                user_id,
                scope,
            ) == Some(p)) by {
                if spec_paths_of(told, user_id, done).contains(p) {
                    let j = choose|j: int|
                        0 <= j < done.len() && spec_stored_path(told, user_id, done[j]) == Some(p);
                    if j < processed.len() {
                        assert(spec_stored_path(told, user_id, processed[j]) == Some(p));
                    } else {
                        assert(done[j] == scope);
                    }
                } else {
                    if spec_paths_of(told, user_id, processed).contains(p) {
                        let j = choose|j: int|
                            0 <= j < processed.len() && spec_stored_path(
                                told,
                                user_id,
                                processed[j],
                            ) == Some(p);
                        assert(spec_stored_path(told, user_id, done[j]) == Some(p));
                    }
                    if spec_stored_path(told, user_id, scope) == Some(p) {
                        assert(spec_stored_path(told, user_id, done[i - 1]) == Some(p));
                    }
                }
            }
            assert(store.contents() =~= cold.remove_keys(spec_paths_of(told, user_id, done)));
        }
    }
    proof {
        assert(scopes@.take(n as int) =~= scopes@);
        assert forall|k: ScopeKey|
            #[trigger] reg.table().dom().contains(k) <==> (told.dom().contains(k) && !(k.0
                == user_id)) by {
            if told.dom().contains(k) && k.0 == user_id {
                assert(scopes@.contains(k.1));
                assert(spec_scope_keys(user_id, scopes@).contains(k));
            }
        }
        assert(reg.table() =~= told.remove_keys((Set::new(|k: ScopeKey| k.0 == user_id))));
        assert forall|q: PathKey| #[trigger] spec_user_sound_paths(told, user_id).contains(q)
            <==> spec_paths_of(told, user_id, scopes@).contains(q) by {
            if spec_user_sound_paths(told, user_id).contains(q) {
                let scope = choose|scope: Option<u64>|
                    spec_stored_path(told, user_id, scope) == Some(q);
                assert(told.dom().contains((user_id, scope)));
                assert(scopes@.contains(scope));
                let j = choose|j: int| 0 <= j < scopes@.len() && scopes@[j] == scope;
                assert(spec_stored_path(told, user_id, scopes@[j]) == Some(q));
            }
            if spec_paths_of(told, user_id, scopes@).contains(q) {
                let j = choose|j: int|
                    0 <= j < scopes@.len() && spec_stored_path(told, user_id, scopes@[j]) == Some(
                        q,
                    );
            }
        }
        assert(store.contents() =~= cold.remove_keys(spec_user_sound_paths(told, user_id)));
    }
    match failure {
        None => Ok(()),
        Some(e) => Err(RemoveError::Blob(e)),
    }
}

} // verus!
