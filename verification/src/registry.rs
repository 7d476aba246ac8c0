//! The sound registry: the mapping from a user and an optional community to
//! that user's stored sound and its last-playback timestamp. A key with
//! `None` for the community is the user's global sound. Resolution gives the
//! community-scoped entry precedence over the global one; for the cooldown,
//! the more recent of the two timestamps governs.

use vstd::prelude::*;

use crate::cooldown::{more_recent, spec_more_recent};
use crate::errors::NotFoundError;
use crate::paths::{PathKey, StoredPath};

verus! {

/// One persisted row: at most one exists per `(user_id, community_id)` pair.
/// A row whose `file_path` is `None` carries no media and is invisible to
/// resolution.
#[derive(Debug)]
pub struct JoinSound {
    pub user_id: u64,
    pub community_id: Option<u64>,
    pub file_path: Option<StoredPath>,
    pub last_played: Option<u64>,
}

/// The key of a row: the user and the scope (`None` = the global sound).
pub type ScopeKey = (u64, Option<u64>);

/// Mathematical form of one row's payload.
pub struct SoundRecord {
    pub path: Option<PathKey>,
    pub last_played: Option<u64>,
}

pub open spec fn spec_key(r: JoinSound) -> ScopeKey {
    (r.user_id, r.community_id)
}

pub open spec fn spec_record(r: JoinSound) -> SoundRecord {
    SoundRecord {
        path: match r.file_path {
            Some(p) => Some(p@),
            None => None,
        },
        last_played: r.last_played,
    }
}

/// The table a sequence of rows denotes; later rows would win, but the
/// registry keeps its keys unique, so the order never matters.
pub open spec fn spec_table_of(rows: Seq<JoinSound>) -> Map<ScopeKey, SoundRecord>
    decreases rows.len(),
{
    if rows.len() == 0 {
        Map::empty()
    } else {
        spec_table_of(rows.drop_last()).insert(spec_key(rows.last()), spec_record(rows.last()))
    }
}

/// A scope is visible to resolution when its row exists and carries media.
pub open spec fn spec_visible(t: Map<ScopeKey, SoundRecord>, user_id: u64, scope: Option<u64>) -> bool {
    t.dom().contains((user_id, scope)) && t[(user_id, scope)].path is Some
}

/// The last-played timestamp recorded at one scope, if the row exists.
pub open spec fn spec_last_played(t: Map<ScopeKey, SoundRecord>, user_id: u64, scope: Option<u64>) -> Option<u64> {
    if t.dom().contains((user_id, scope)) {
        t[(user_id, scope)].last_played
    } else {
        None
    }
}

/// The instant that governs the cooldown for a user entering a community:
/// the more recent of the local and the global timestamp.
pub open spec fn spec_effective_last_played(t: Map<ScopeKey, SoundRecord>, user_id: u64, community_id: u64) -> Option<u64> {
    spec_more_recent(
        spec_last_played(t, user_id, Some(community_id)),
        spec_last_played(t, user_id, None),
    )
}

/// The scope resolution selects: the community-scoped row when it is visible,
/// else the global row when that is visible, else none.
pub open spec fn spec_selected_scope(t: Map<ScopeKey, SoundRecord>, user_id: u64, community_id: u64) -> Option<Option<u64>> {
    if spec_visible(t, user_id, Some(community_id)) {
        Some(Some(community_id))
    } else if spec_visible(t, user_id, None) {
        Some(None)
    } else {
        None
    }
}

/// The media path stored at exactly one scope, if its row exists and
/// carries media.
pub open spec fn spec_stored_path(t: Map<ScopeKey, SoundRecord>, user_id: u64, scope: Option<u64>) -> Option<PathKey> {
    if t.dom().contains((user_id, scope)) {
        t[(user_id, scope)].path
    } else {
        None
    }
}

/// The path resolution returns for a user entering a community, if any.
pub open spec fn spec_resolved_path(t: Map<ScopeKey, SoundRecord>, user_id: u64, community_id: u64) -> Option<PathKey> {
    match spec_selected_scope(t, user_id, community_id) {
        Some(scope) => t[(user_id, scope)].path,
        None => None,
    }
}

/// A timestamp bumped by a playback at `now`: never goes backwards.
pub open spec fn spec_bumped(prev: Option<u64>, now: u64) -> u64 {
    match prev {
        Some(t) => if t >= now { t } else { now },
        None => now,
    }
}

/// The table after a playback at `now` is recorded on the row resolution
/// selects for this user and community; without a selectable row nothing
/// changes.
pub open spec fn spec_recorded(t: Map<ScopeKey, SoundRecord>, user_id: u64, community_id: u64, now: u64) -> Map<ScopeKey, SoundRecord> {
    match spec_selected_scope(t, user_id, community_id) {
        Some(scope) => t.insert(
            (user_id, scope),
            SoundRecord {
                path: t[(user_id, scope)].path,
                last_played: Some(spec_bumped(t[(user_id, scope)].last_played, now)),
            },
        ),
        None => t,
    }
}

/// The persistent registry of join sounds.
pub struct SoundRegistry {
    rows: Vec<JoinSound>,
}

impl SoundRegistry {
    /// The mapping this registry denotes.
    pub closed spec fn table(self) -> Map<ScopeKey, SoundRecord> {
        spec_table_of(self.rows@)
    }

    /// Well-formed: at most one row per `(user, scope)` pair.
    pub closed spec fn wf(self) -> bool {
        forall|i: int, j: int|
            0 <= i < j < self.rows@.len() ==> spec_key(self.rows@[i]) != spec_key(self.rows@[j])
    }

    pub fn new() -> (r: SoundRegistry)
        ensures
            r.wf(),
            r.table() == Map::<ScopeKey, SoundRecord>::empty(),
    {
        SoundRegistry { rows: Vec::new() }
    }

    /// The index of the row for `(user_id, scope)`, if one exists.
    fn find_index(&self, user_id: u64, scope: Option<u64>) -> (r: Option<usize>)
        ensures
            match r {
                Some(i) => i < self.rows@.len() && spec_key(self.rows@[i as int]) == (user_id, scope),
                None => forall|i: int|
                    0 <= i < self.rows@.len() ==> spec_key(self.rows@[i]) != (user_id, scope),
            },
    {
        let n = self.rows.len();
        for i in 0..n
            invariant
                n == self.rows@.len(),
                forall|j: int| 0 <= j < i ==> spec_key(self.rows@[j]) != (user_id, scope),
        {
            let row = &self.rows[i];
            let scope_matches = match (row.community_id, scope) {
                (Some(a), Some(b)) => a == b,
                (None, None) => true,
                _ => false,
            };
            if row.user_id == user_id && scope_matches {
                return Some(i);
            }
        }
        None
    }

    /// Whether the user has a sound at exactly this scope (a row with media).
    pub fn has_sound(&self, user_id: u64, scope: Option<u64>) -> (r: bool)
        requires
            self.wf(),
        ensures
            r == spec_visible(self.table(), user_id, scope),
    {
        proof {
            lemma_table_complete(self.rows@, (user_id, scope));
        }
        match self.find_index(user_id, scope) {
            Some(i) => {
                proof {
                    lemma_table_at(self.rows@, i as int);
                }
                self.rows[i].file_path.is_some()
            },
            None => false,
        }
    }

    /// Whether the user has a sound at any scope.
    pub fn has_any_sound(&self, user_id: u64) -> (r: bool)
        requires
            self.wf(),
        ensures
            r == exists|scope: Option<u64>| spec_visible(self.table(), user_id, scope),
    {
        let n = self.rows.len();
        for i in 0..n
            invariant
                self.wf(),
                n == self.rows@.len(),
                forall|j: int|
                    0 <= j < i ==> !(self.rows@[j].user_id == user_id
                        && self.rows@[j].file_path is Some),
        {
            let row = &self.rows[i];
            if row.user_id == user_id && row.file_path.is_some() {
                proof {
                    lemma_table_at(self.rows@, i as int);
                    assert(spec_visible(self.table(), user_id, row.community_id));
                }
                return true;
            }
        }
        proof {
            assert forall|scope: Option<u64>| !spec_visible(self.table(), user_id, scope) by {
                lemma_table_complete(self.rows@, (user_id, scope));
                if self.table().dom().contains((user_id, scope)) {
                    let i = choose|i: int|
                        0 <= i < self.rows@.len() && spec_key(self.rows@[i]) == (user_id, scope);
                    lemma_table_at(self.rows@, i);
                }
            }
        }
        false
    }

    /// The path that plays for `user_id` entering `community_id`: the
    /// community-scoped sound when present, else the global one.
    pub fn resolve_path(&self, user_id: u64, community_id: u64) -> (r: Result<StoredPath, NotFoundError>)
        requires
            self.wf(),
        ensures
            match r {
                Ok(p) => spec_resolved_path(self.table(), user_id, community_id) == Some(p@),
                Err(_) => spec_resolved_path(self.table(), user_id, community_id) is None,
            },
    {
        proof {
            lemma_table_complete(self.rows@, (user_id, Some(community_id)));
            lemma_table_complete(self.rows@, (user_id, None));
        }
        match self.find_index(user_id, Some(community_id)) {
            Some(i) => {
                proof {
                    lemma_table_at(self.rows@, i as int);
                }
                match &self.rows[i].file_path {
                    Some(p) => {
                        return Ok(p.clone());
                    },
                    None => {},
                }
            },
            None => {
                proof {
                    lemma_table_absent(self.rows@, (user_id, Some(community_id)));
                }
            },
        }
        match self.find_index(user_id, None) {
            Some(i) => {
                proof {
                    lemma_table_at(self.rows@, i as int);
                }
                match &self.rows[i].file_path {
                    Some(p) => Ok(p.clone()),
                    None => Err(NotFoundError),
                }
            },
            None => {
                proof {
                    lemma_table_absent(self.rows@, (user_id, None));
                }
                Err(NotFoundError)
            },
        }
    }

    /// The media path stored at exactly this scope, if any.
    pub fn path_at(&self, user_id: u64, scope: Option<u64>) -> (r: Option<StoredPath>)
        requires
            self.wf(),
        ensures
            match r {
                Some(p) => spec_stored_path(self.table(), user_id, scope) == Some(p@),
                None => spec_stored_path(self.table(), user_id, scope) is None,
            },
    {
        proof {
            lemma_table_complete(self.rows@, (user_id, scope));
        }
        match self.find_index(user_id, scope) {
            Some(i) => {
                proof {
                    lemma_table_at(self.rows@, i as int);
                }
                match &self.rows[i].file_path {
                    Some(p) => Some(p.clone()),
                    None => None,
                }
            },
            None => {
                proof {
                    lemma_table_absent(self.rows@, (user_id, scope));
                }
                None
            },
        }
    }

    /// The last-played timestamp recorded at exactly this scope.
    pub fn get_last_played(&self, user_id: u64, scope: Option<u64>) -> (r: Option<u64>)
        requires
            self.wf(),
        ensures
            r == spec_last_played(self.table(), user_id, scope),
    {
        proof {
            lemma_table_complete(self.rows@, (user_id, scope));
        }
        match self.find_index(user_id, scope) {
            Some(i) => {
                proof {
                    lemma_table_at(self.rows@, i as int);
                }
                self.rows[i].last_played
            },
            None => None,
        }
    }

    /// The instant that governs the cooldown: the more recent of the user's
    /// local and global timestamps.
    pub fn resolve_last_played(&self, user_id: u64, community_id: u64) -> (r: Option<u64>)
        requires
            self.wf(),
        ensures
            r == spec_effective_last_played(self.table(), user_id, community_id),
    {
        more_recent(
            self.get_last_played(user_id, Some(community_id)),
            self.get_last_played(user_id, None),
        )
    }

    /// Record a playback at `now` on the row at exactly this scope; the
    /// timestamp never moves backwards. A missing row is left missing:
    /// playback never creates rows.
    pub fn set_last_played(&mut self, user_id: u64, scope: Option<u64>, now: u64)
        requires
            old(self).wf(),
        ensures
            final(self).wf(),
            if old(self).table().dom().contains((user_id, scope)) {
                final(self).table() == old(self).table().insert(
                    (user_id, scope),
                    SoundRecord {
                        path: old(self).table()[(user_id, scope)].path,
                        last_played: Some(
                            spec_bumped(old(self).table()[(user_id, scope)].last_played, now),
                        ),
                    },
                )
            } else {
                final(self).table() == old(self).table()
            },
    {
        proof {
            lemma_table_complete(self.rows@, (user_id, scope));
        }
        match self.find_index(user_id, scope) {
            Some(i) => {
                proof {
                    lemma_table_at(self.rows@, i as int);
                }
                let ghost rows0 = self.rows@;
                let row = &mut self.rows[i];
                let bumped: u64 = match row.last_played {
                    Some(t) => if t >= now { t } else { now },
                    None => now,
                };
                row.last_played = Some(bumped);
                proof {
                    assert(self.rows@ == rows0.update(
                        i as int,
                        JoinSound { last_played: Some(bumped), ..rows0[i as int] },
                    ));
                    lemma_table_update(
                        rows0,
                        i as int,
                        JoinSound { last_played: Some(bumped), ..rows0[i as int] },
                    );
                }
            },
            None => {},
        }
    }

    /// Record a playback at `now` on the row resolution selected for this
    /// user and community, if resolution selects one.
    pub fn record_play(&mut self, user_id: u64, community_id: u64, now: u64)
        requires
            old(self).wf(),
        ensures
            final(self).wf(),
            final(self).table() == spec_recorded(old(self).table(), user_id, community_id, now),
    {
        if self.has_sound(user_id, Some(community_id)) {
            self.set_last_played(user_id, Some(community_id), now);
        } else if self.has_sound(user_id, None) {
            self.set_last_played(user_id, None, now);
        }
    }

    /// Create the row for `(user_id, scope)` or replace its media in place.
    /// The last-played timestamp of an existing row is preserved.
    pub fn create_or_replace(&mut self, user_id: u64, scope: Option<u64>, path: StoredPath)
        requires
            old(self).wf(),
        ensures
            final(self).wf(),
            final(self).table() == old(self).table().insert(
                (user_id, scope),
                SoundRecord {
                    path: Some(path@),
                    last_played: spec_last_played(old(self).table(), user_id, scope),
                },
            ),
    {
        proof {
            lemma_table_complete(self.rows@, (user_id, scope));
        }
        match self.find_index(user_id, scope) {
            Some(i) => {
                proof {
                    lemma_table_at(self.rows@, i as int);
                }
                let ghost rows0 = self.rows@;
                let ghost p = path@;
                let row = &mut self.rows[i];
                row.file_path = Some(path);
                proof {
                    assert(self.rows@ == rows0.update(
                        i as int,
                        JoinSound { file_path: self.rows@[i as int].file_path, ..rows0[i as int] },
                    ));
                    lemma_table_update(rows0, i as int, self.rows@[i as int]);
                }
            },
            None => {
                let ghost rows0 = self.rows@;
                self.rows.push(JoinSound {
                    user_id,
                    community_id: scope,
                    file_path: Some(path),
                    last_played: None,
                });
                proof {
                    assert(self.rows@.drop_last() == rows0);
                }
            },
        }
    }

    /// Remove the row for `(user_id, scope)`; reports whether one existed.
    pub fn remove_row(&mut self, user_id: u64, scope: Option<u64>) -> (r: bool)
        requires
            old(self).wf(),
        ensures
            final(self).wf(),
            final(self).table() == old(self).table().remove((user_id, scope)),
            r == old(self).table().dom().contains((user_id, scope)),
    {
        proof {
            lemma_table_complete(self.rows@, (user_id, scope));
        }
        match self.find_index(user_id, scope) {
            Some(i) => {
                proof {
                    lemma_table_remove(self.rows@, i as int);
                    lemma_table_at(self.rows@, i as int);
                }
                self.rows.remove(i);
                true
            },
            None => {
                proof {
                    lemma_table_absent(self.rows@, (user_id, scope));
                    assert(self.table().remove((user_id, scope)) =~= self.table());
                }
                false
            },
        }
    }

    /// The scopes at which this user has a row, each exactly once.
    pub fn scopes_for_user(&self, user_id: u64) -> (r: Vec<Option<u64>>)
        requires
            self.wf(),
        ensures
            forall|scope: Option<u64>|
                #[trigger] r@.contains(scope) <==> self.table().dom().contains((user_id, scope)),
            forall|i: int, j: int| 0 <= i < j < r@.len() ==> r@[i] != r@[j],
    {
        let mut out: Vec<Option<u64>> = Vec::new();
        let n = self.rows.len();
        for i in 0..n
            invariant
                self.wf(),
                n == self.rows@.len(),
                forall|scope: Option<u64>|
                    #[trigger] out@.contains(scope) <==> exists|j: int|
                        0 <= j < i && spec_key(self.rows@[j]) == (user_id, scope),
                forall|a: int, b: int| 0 <= a < b < out@.len() ==> out@[a] != out@[b],
        {
            let row = &self.rows[i];
            if row.user_id == user_id {
                let ghost out0 = out@;
                let ghost added = row.community_id;
                proof {
                    assert(spec_key(self.rows@[i as int]) == (user_id, added));
                    if out0.contains(added) {
                        let j = choose|j: int|
                            0 <= j < i && spec_key(self.rows@[j]) == (user_id, added);
                        assert(spec_key(self.rows@[j]) == spec_key(self.rows@[i as int]));
                        assert(false);
                    }
                }
                out.push(row.community_id);
                proof {
                    assert(out@ == out0.push(added));
                    assert forall|scope: Option<u64>| #[trigger] out@.contains(scope) implies (
                    out0.contains(scope) || scope == added) by {
                        let k = choose|k: int| 0 <= k < out@.len() && out@[k] == scope;
                        if k < out0.len() {
                            assert(out0[k] == scope);
                        }
                    }
                    assert forall|scope: Option<u64>| out0.contains(scope)
                        || scope == added implies #[trigger] out@.contains(scope) by {
                        if out0.contains(scope) {
                            let k = choose|k: int| 0 <= k < out0.len() && out0[k] == scope;
                            assert(out@[k] == scope);
                        } else {
                            assert(out@[out0.len() as int] == scope);
                        }
                    }
                    assert forall|a: int, b: int|
                        0 <= a < b < out@.len() implies out@[a] != out@[b] by {
                        if b == out@.len() - 1 {
                            assert(out@[a] == out0[a]);
                            assert(out0.contains(out0[a]));
                            assert(out@[b] == added);
                        }
                    }
                }
            }
        }
        proof {
            assert forall|scope: Option<u64>|
                #[trigger] out@.contains(scope) == self.table().dom().contains(
                    (user_id, scope),
                ) by {
                lemma_table_complete(self.rows@, (user_id, scope));
            }
        }
        out
    }

    /// The registry's rows, for persisting: every key exactly once, each
    /// with the record the registry holds for it.
    pub fn export_rows(&self) -> (r: Vec<JoinSound>)
        requires
            self.wf(),
        ensures
            forall|i: int|
                0 <= i < r@.len() ==> self.table().dom().contains(spec_key(#[trigger] r@[i]))
                    && self.table()[spec_key(r@[i])] == spec_record(r@[i]),
            forall|k: ScopeKey|
                #[trigger] self.table().dom().contains(k) ==> exists|i: int|
                    0 <= i < r@.len() && spec_key(r@[i]) == k,
    {
        let mut out: Vec<JoinSound> = Vec::new();
        let n = self.rows.len();
        for i in 0..n
            invariant
                self.wf(),
                n == self.rows@.len(),
                out@.len() == i,
                forall|j: int|
                    0 <= j < i ==> spec_key(#[trigger] out@[j]) == spec_key(self.rows@[j])
                        && spec_record(out@[j]) == spec_record(self.rows@[j]),
        {
            let row = &self.rows[i];
            let copied = JoinSound {
                user_id: row.user_id,
                community_id: row.community_id,
                file_path: match &row.file_path {
                    Some(p) => Some(p.clone()),
                    None => None,
                },
                last_played: row.last_played,
            };
            out.push(copied);
        }
        proof {
            assert forall|i: int|
                0 <= i < out@.len() implies self.table().dom().contains(
                spec_key(#[trigger] out@[i]),
            ) && self.table()[spec_key(out@[i])] == spec_record(out@[i]) by {
                lemma_table_at(self.rows@, i);
            }
            assert forall|k: ScopeKey| #[trigger] self.table().dom().contains(k) implies exists|
                i: int,
            | 0 <= i < out@.len() && spec_key(out@[i]) == k by {
                lemma_table_complete(self.rows@, k);
                let i = choose|i: int|
                    0 <= i < self.rows@.len() && spec_key(self.rows@[i]) == k;
                assert(spec_key(out@[i]) == k);
            }
        }
        out
    }

    /// Rebuild a registry from persisted rows. Should duplicates for one key
    /// have crept into storage, the first row wins and the rest are dropped,
    /// restoring the at-most-one-row invariant.
    pub fn from_rows(rows: Vec<JoinSound>) -> (r: SoundRegistry)
        ensures
            r.wf(),
            r.table() == spec_loaded(rows@),
    {
        let mut reg = SoundRegistry::new();
        let n = rows.len();
        let mut iter: usize = 0;
        let mut remaining = rows;
        let ghost all = remaining@;
        proof {
            assert(all.subrange(0, 0) =~= Seq::<JoinSound>::empty());
        }
        while iter < n
            invariant
                n == all.len(),
                iter <= n,
                remaining@ == all.subrange(iter as int, n as int),
                reg.wf(),
                reg.table() == spec_loaded(all.subrange(0, iter as int)),
            decreases n - iter,
        {
            let row = remaining.remove(0);
            proof {
                assert(row == all[iter as int]);
                assert(remaining@ =~= all.subrange(iter + 1 as int, n as int));
                assert(all.subrange(0, iter + 1 as int).drop_last() =~= all.subrange(
                    0,
                    iter as int,
                ));
                assert(all.subrange(0, iter + 1 as int).last() == all[iter as int]);
                lemma_table_complete(reg.rows@, spec_key(row));
            }
            match reg.find_index(row.user_id, row.community_id) {
                Some(_) => {},
                None => {
                    let ghost rows0 = reg.rows@;
                    proof {
                        lemma_table_absent(rows0, spec_key(row));
                    }
                    reg.rows.push(row);
                    proof {
                        assert(reg.rows@.drop_last() == rows0);
                    }
                },
            }
            iter = iter + 1;
        }
        proof {
            assert(all.subrange(0, n as int) =~= all);
        }
        reg
    }
}

/// The table a sequence of persisted rows loads to: the first row for each
/// key wins.
pub open spec fn spec_loaded(rows: Seq<JoinSound>) -> Map<ScopeKey, SoundRecord>
    decreases rows.len(),
{
    if rows.len() == 0 {
        Map::empty()
    } else {
        let t = spec_loaded(rows.drop_last());
        if t.dom().contains(spec_key(rows.last())) {
            t
        } else {
            t.insert(spec_key(rows.last()), spec_record(rows.last()))
        }
    }
}

/// Recording a playback touches timestamps only, and only forwards: no row
/// appears or disappears, no media changes, and no timestamp moves
/// backwards — the resolution step is the sole writer of `last_played`, and
/// it keeps it monotone.
pub proof fn lemma_record_play_monotone(
    t: Map<ScopeKey, SoundRecord>,
    user_id: u64,
    community_id: u64,
    now: u64,
)
    ensures
        ({
            let t2 = spec_recorded(t, user_id, community_id, now);
            &&& t2.dom() =~= t.dom()
            &&& forall|k: ScopeKey| #[trigger] t.dom().contains(k) ==> t2[k].path == t[k].path
            &&& forall|k: ScopeKey|
                #[trigger] t.dom().contains(k) ==> match (t[k].last_played, t2[k].last_played) {
                    (Some(a), Some(b)) => b >= a,
                    (Some(_), None) => false,
                    _ => true,
                }
        }),
{
}

/// Community-scoped entries take precedence: when a user's community row is
/// visible, resolution returns its path — never the global one — whatever
/// else the registry holds.
pub proof fn lemma_local_precedence(t: Map<ScopeKey, SoundRecord>, user_id: u64, community_id: u64)
    requires
        spec_visible(t, user_id, Some(community_id)),
    ensures
        spec_resolved_path(t, user_id, community_id) == t[(user_id, Some(community_id))].path,
{
}

/// A user with only a global sound: resolution for any community falls back
/// to the global path.
pub proof fn lemma_global_fallback(t: Map<ScopeKey, SoundRecord>, user_id: u64, community_id: u64)
    requires
        !spec_visible(t, user_id, Some(community_id)),
        spec_visible(t, user_id, None),
    ensures
        spec_resolved_path(t, user_id, community_id) == t[(user_id, None)].path,
{
}

/// After the row at one scope is removed, that scope holds nothing; and when
/// the user has no global sound, resolution for the removed community fails
/// altogether.
pub proof fn lemma_removed_not_resolvable(t: Map<ScopeKey, SoundRecord>, user_id: u64, community_id: u64)
    ensures
        spec_stored_path(t.remove((user_id, Some(community_id))), user_id, Some(community_id))
            is None,
        !spec_visible(t, user_id, None) ==> spec_resolved_path(
            t.remove((user_id, Some(community_id))),
            user_id,
            community_id,
        ) is None,
{
}

/// A key is in the table exactly when some row carries it.
proof fn lemma_table_complete(rows: Seq<JoinSound>, k: ScopeKey)
    ensures
        spec_table_of(rows).dom().contains(k) <==> exists|i: int|
            0 <= i < rows.len() && spec_key(rows[i]) == k,
    decreases rows.len(),
{
    if rows.len() > 0 {
        lemma_table_complete(rows.drop_last(), k);
        if spec_key(rows.last()) == k {
            assert(spec_key(rows[rows.len() - 1]) == k);
        } else if spec_table_of(rows).dom().contains(k) {
            let i = choose|i: int| 0 <= i < rows.len() - 1 && spec_key(rows.drop_last()[i]) == k;
            assert(spec_key(rows[i]) == k);
        } else if exists|i: int| 0 <= i < rows.len() && spec_key(rows[i]) == k {
            let i = choose|i: int| 0 <= i < rows.len() && spec_key(rows[i]) == k;
            assert(spec_key(rows.drop_last()[i]) == k);
        }
    }
}

/// With unique keys, the table maps each row's key to that row's record.
proof fn lemma_table_at(rows: Seq<JoinSound>, i: int)
    requires
        forall|a: int, b: int| 0 <= a < b < rows.len() ==> spec_key(rows[a]) != spec_key(rows[b]),
        0 <= i < rows.len(),
    ensures
        spec_table_of(rows).dom().contains(spec_key(rows[i])),
        spec_table_of(rows)[spec_key(rows[i])] == spec_record(rows[i]),
    decreases rows.len(),
{
    if i == rows.len() - 1 {
    } else {
        lemma_table_at(rows.drop_last(), i);
        assert(spec_key(rows[rows.len() - 1]) != spec_key(rows[i]));
    }
}

/// A key no row carries is not in the table.
proof fn lemma_table_absent(rows: Seq<JoinSound>, k: ScopeKey)
    requires
        forall|i: int| 0 <= i < rows.len() ==> spec_key(rows[i]) != k,
    ensures
        !spec_table_of(rows).dom().contains(k),
{
    lemma_table_complete(rows, k);
}

/// Replacing row `i` by a row with the same key updates the table at that key.
proof fn lemma_table_update(rows: Seq<JoinSound>, i: int, row: JoinSound)
    requires
        forall|a: int, b: int| 0 <= a < b < rows.len() ==> spec_key(rows[a]) != spec_key(rows[b]),
        0 <= i < rows.len(),
        spec_key(row) == spec_key(rows[i]),
    ensures
        spec_table_of(rows.update(i, row)) == spec_table_of(rows).insert(
            spec_key(row),
            spec_record(row),
        ),
    decreases rows.len(),
{
    let updated = rows.update(i, row);
    if i == rows.len() - 1 {
        assert(updated.drop_last() =~= rows.drop_last());
        assert(updated.last() == row);
        assert(spec_table_of(updated) =~= spec_table_of(rows).insert(
            spec_key(row),
            spec_record(row),
        ));
    } else {
        assert(updated.drop_last() =~= rows.drop_last().update(i, row));
        assert(updated.last() == rows.last());
        lemma_table_update(rows.drop_last(), i, row);
        assert(spec_key(rows.last()) != spec_key(row));
        assert(spec_table_of(updated) =~= spec_table_of(rows).insert(
            spec_key(row),
            spec_record(row),
        ));
    }
}

/// Removing row `i` removes exactly its key from the table.
proof fn lemma_table_remove(rows: Seq<JoinSound>, i: int)
    requires
        forall|a: int, b: int| 0 <= a < b < rows.len() ==> spec_key(rows[a]) != spec_key(rows[b]),
        0 <= i < rows.len(),
    ensures
        spec_table_of(rows.remove(i)) == spec_table_of(rows).remove(spec_key(rows[i])),
    decreases rows.len(),
{
    let shorter = rows.remove(i);
    if i == rows.len() - 1 {
        assert(shorter =~= rows.drop_last());
        lemma_table_complete(rows.drop_last(), spec_key(rows[i]));
        assert(!spec_table_of(rows.drop_last()).dom().contains(spec_key(rows[i])));
        assert(spec_table_of(shorter) =~= spec_table_of(rows).remove(spec_key(rows[i])));
    } else {
        assert(shorter.drop_last() =~= rows.drop_last().remove(i));
        assert(shorter.last() == rows.last());
        lemma_table_remove(rows.drop_last(), i);
        assert(spec_key(rows.last()) != spec_key(rows[i]));
        assert(spec_table_of(shorter) =~= spec_table_of(rows).remove(spec_key(rows[i])));
    }
}

} // verus!
