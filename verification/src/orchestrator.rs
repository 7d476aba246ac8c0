//! The playback orchestrator: one state machine per community voice session.
//! A join-session event runs through eligibility, the cooldown, and the
//! idempotent connect check, and either decides a playback — naming the
//! channel to join, if a connection must first be opened — or decides to do
//! nothing. The session plays exactly one track and always disconnects
//! afterwards, whatever became of the track.
//!
//! The voice library itself is outside work: the caller performs the join,
//! the playback and the leave that these decisions name, and feeds track
//! completion and failure back in.

use vstd::prelude::*;

use crate::cooldown::{cooldown_active, spec_cooldown_active};
use crate::paths::{PathKey, StoredPath};
use crate::registry::{
    spec_effective_last_played, spec_recorded, spec_selected_scope, ScopeKey, SoundRecord,
    SoundRegistry,
};

verus! {

/// The lifecycle of one community's voice session.
#[derive(Debug, PartialEq, Eq, Structural, Clone, Copy)]
pub enum SessionState {
    Disconnected,
    Connected,
    PlayingTrack,
}

/// A voice-state change, reduced to what the orchestrator reads: who entered
/// where. `entered` is the edge trigger — true only when the user had no
/// prior voice state, so moves between channels stay no-ops.
#[derive(Debug)]
pub struct JoinEvent {
    pub user_id: u64,
    pub community_id: u64,
    pub channel_id: Option<u64>,
    pub entered: bool,
}

/// What a join-session event decides (the mathematical form).
pub enum JoinDecision {
    /// The user only moved or left; not an entry.
    NotAnEntry,
    /// The user has no sound, neither local nor global.
    NoSound,
    /// A sound of this user played less than the cooldown ago.
    OnCooldown,
    /// A connection would be needed but no channel is known: abort, no-op.
    NoChannel,
    /// Play the sound at `path`; first join `connect_to` if one is named.
    Play { connect_to: Option<u64>, path: PathKey },
}

/// What a join-session event decides (carried back to the caller).
#[derive(Debug)]
pub enum JoinOutcome {
    NotAnEntry,
    NoSound,
    OnCooldown,
    NoChannel,
    Play { connect_to: Option<u64>, path: StoredPath },
}

pub open spec fn spec_outcome_view(o: JoinOutcome) -> JoinDecision {
    match o {
        JoinOutcome::NotAnEntry => JoinDecision::NotAnEntry,
        JoinOutcome::NoSound => JoinDecision::NoSound,
        JoinOutcome::OnCooldown => JoinDecision::OnCooldown,
        JoinOutcome::NoChannel => JoinDecision::NoChannel,
        JoinOutcome::Play { connect_to, path } => JoinDecision::Play {
            connect_to,
            path: path@,
        },
    }
}

/// The decision a join-session event leads to, given the community's session
/// state and the registry: eligibility first, then the cooldown, then the
/// check-then-join connect, then resolution.
pub open spec fn spec_join_decision(
    state: SessionState,
    t: Map<ScopeKey, SoundRecord>,
    ev: JoinEvent,
    now: u64,
) -> JoinDecision {
    if !ev.entered {
        JoinDecision::NotAnEntry
    } else if spec_selected_scope(t, ev.user_id, ev.community_id) is None {
        JoinDecision::NoSound
    } else if spec_cooldown_active(
        spec_effective_last_played(t, ev.user_id, ev.community_id),
        now,
    ) {
        JoinDecision::OnCooldown
    } else if state == SessionState::Disconnected && ev.channel_id is None {
        JoinDecision::NoChannel
    } else {
        JoinDecision::Play {
            connect_to: if state == SessionState::Disconnected {
                ev.channel_id
            } else {
                None
            },
            // a playback is only decided once a scope was selected, and a
            // selected scope always carries media; the fallback arms are
            // unreachable
            path: match spec_selected_scope(t, ev.user_id, ev.community_id) {
                Some(scope) => match t[(ev.user_id, scope)].path {
                    Some(p) => p,
                    None => (0, None, Seq::empty()),
                },
                None => (0, None, Seq::empty()),
            },
        }
    }
}

/// Idempotent connect: while a community's session is already connected or
/// playing, no join-session event ever decides a second join — a playback it
/// decides names no channel to connect to.
pub proof fn lemma_idempotent_connect(
    state: SessionState,
    t: Map<ScopeKey, SoundRecord>,
    ev: JoinEvent,
    now: u64,
)
    requires
        state != SessionState::Disconnected,
    ensures
        !(spec_join_decision(state, t, ev, now) matches JoinDecision::Play {
            connect_to: Some(_),
            ..
        }),
{
}

/// The cooldown blocks playback: while the instant that governs a user's
/// cooldown in a community is under thirty seconds old, no join-session
/// event for that user there decides a playback.
pub proof fn lemma_cooldown_blocks(
    state: SessionState,
    t: Map<ScopeKey, SoundRecord>,
    ev: JoinEvent,
    now: u64,
)
    requires
        spec_cooldown_active(spec_effective_last_played(t, ev.user_id, ev.community_id), now),
    ensures
        !(spec_join_decision(state, t, ev, now) matches JoinDecision::Play { .. }),
{
}

/// A recorded playback starts the cooldown. After a playback at `t0` is
/// recorded for a user in `played_in`, a join-session event within the
/// cooldown window decides no playback — in every community when the global
/// row took the record, and in `played_in` itself when its local row did.
/// (A playback recorded on one community's local row does not silence a
/// different community that has its own sound.)
pub proof fn lemma_record_play_blocks(
    state: SessionState,
    t: Map<ScopeKey, SoundRecord>,
    played_in: u64,
    t0: u64,
    ev: JoinEvent,
    now: u64,
)
    requires
        spec_selected_scope(t, ev.user_id, played_in) is Some,
        spec_selected_scope(t, ev.user_id, played_in) == Some(None::<u64>) || ev.community_id
            == played_in,
        now < t0 + crate::cooldown::COOLDOWN_SECONDS,
    ensures
        !(spec_join_decision(
            state,
            spec_recorded(t, ev.user_id, played_in, t0),
            ev,
            now,
        ) matches JoinDecision::Play { .. }),
{
    let scope = match spec_selected_scope(t, ev.user_id, played_in) {
        Some(s) => s,
        None => None,
    };
    let t2 = spec_recorded(t, ev.user_id, played_in, t0);
    assert(t2 == t.insert(
        (ev.user_id, scope),
        SoundRecord {
            path: t[(ev.user_id, scope)].path,
            last_played: Some(crate::registry::spec_bumped(t[(ev.user_id, scope)].last_played, t0)),
        },
    ));
    let bumped = crate::registry::spec_bumped(t[(ev.user_id, scope)].last_played, t0);
    assert(bumped >= t0);
    assert(crate::registry::spec_last_played(t2, ev.user_id, scope) == Some(bumped));
    let governing = spec_effective_last_played(t2, ev.user_id, ev.community_id);
    assert(governing matches Some(g) && g >= bumped);
    assert(spec_cooldown_active(governing, now));
    lemma_cooldown_blocks(state, t2, ev, now);
}

/// The per-community session states. A community without an entry is
/// disconnected.
pub struct PlaybackOrchestrator {
    sessions: Vec<(u64, SessionState)>,
}

impl PlaybackOrchestrator {
    /// The session state of one community.
    pub closed spec fn state_of(self, community_id: u64) -> SessionState {
        if exists|i: int| 0 <= i < self.sessions@.len() && self.sessions@[i].0 == community_id {
            self.sessions@[choose|i: int|
                0 <= i < self.sessions@.len() && self.sessions@[i].0 == community_id].1
        } else {
            SessionState::Disconnected
        }
    }

    /// At most one entry per community.
    pub closed spec fn wf(self) -> bool {
        forall|i: int, j: int|
            0 <= i < j < self.sessions@.len() ==> self.sessions@[i].0 != self.sessions@[j].0
    }

    pub fn new() -> (r: PlaybackOrchestrator)
        ensures
            r.wf(),
            forall|c: u64| r.state_of(c) == SessionState::Disconnected,
    {
        PlaybackOrchestrator { sessions: Vec::new() }
    }

    /// The index of a community's entry, if one exists.
    fn find_session(&self, community_id: u64) -> (r: Option<usize>)
        ensures
            match r {
                Some(i) => i < self.sessions@.len() && self.sessions@[i as int].0 == community_id,
                None => forall|i: int|
                    0 <= i < self.sessions@.len() ==> self.sessions@[i].0 != community_id,
            },
    {
        let n = self.sessions.len();
        for i in 0..n
            invariant
                n == self.sessions@.len(),
                forall|j: int| 0 <= j < i ==> self.sessions@[j].0 != community_id,
        {
            if self.sessions[i].0 == community_id {
                return Some(i);
            }
        }
        None
    }

    /// With unique keys, an entry's state is the community's state.
    proof fn lemma_state_at(self, i: int)
        requires
            self.wf(),
            0 <= i < self.sessions@.len(),
        ensures
            self.state_of(self.sessions@[i].0) == self.sessions@[i].1,
    {
        let c = self.sessions@[i].0;
        let j = choose|j: int| 0 <= j < self.sessions@.len() && self.sessions@[j].0 == c;
        assert(j == i);
    }

    /// The session state of one community.
    pub fn current_state(&self, community_id: u64) -> (r: SessionState)
        requires
            self.wf(),
        ensures
            r == self.state_of(community_id),
    {
        match self.find_session(community_id) {
            Some(i) => {
                proof {
                    self.lemma_state_at(i as int);
                }
                self.sessions[i].1
            },
            None => SessionState::Disconnected,
        }
    }

    /// Set one community's state, leaving every other community's alone.
    fn set_state(&mut self, community_id: u64, state: SessionState)
        requires
            old(self).wf(),
        ensures
            final(self).wf(),
            final(self).state_of(community_id) == state,
            forall|c: u64|
                c != community_id ==> final(self).state_of(c) == old(self).state_of(c),
    {
        match self.find_session(community_id) {
            Some(i) => {
                proof {
                    self.lemma_state_at(i as int);
                }
                let ghost sessions0 = self.sessions@;
                let entry = &mut self.sessions[i];
                entry.1 = state;
                proof {
                    assert(self.sessions@ == sessions0.update(
                        i as int,
                        (community_id, self.sessions@[i as int].1),
                    ));
                    self.lemma_state_at(i as int);
                    assert forall|c: u64|
                        c != community_id implies self.state_of(c) == old(self).state_of(c) by {
                        if exists|a: int|
                            0 <= a < sessions0.len() && sessions0[a].0 == c {
                            let a = choose|a: int|
                                0 <= a < sessions0.len() && sessions0[a].0 == c;
                            assert(self.sessions@[a].0 == c);
                            old(self).lemma_state_at(a);
                            self.lemma_state_at(a);
                        } else {
                            assert forall|a: int|
                                0 <= a < self.sessions@.len() implies self.sessions@[a].0
                                != c by {
                                assert(sessions0[a].0 == self.sessions@[a].0);
                            }
                        }
                    }
                }
            },
            None => {
                let ghost sessions0 = self.sessions@;
                self.sessions.push((community_id, state));
                proof {
                    let n = sessions0.len() as int;
                    assert(self.sessions@[n] == (community_id, state));
                    assert forall|a: int, b: int|
                        0 <= a < b < self.sessions@.len() implies self.sessions@[a].0
                        != self.sessions@[b].0 by {
                        if b == n {
                            assert(self.sessions@[a] == sessions0[a]);
                        }
                    }
                    self.lemma_state_at(n);
                    assert forall|c: u64|
                        c != community_id implies self.state_of(c) == old(self).state_of(c) by {
                        if exists|a: int|
                            0 <= a < sessions0.len() && sessions0[a].0 == c {
                            let a = choose|a: int|
                                0 <= a < sessions0.len() && sessions0[a].0 == c;
                            assert(self.sessions@[a].0 == c);
                            old(self).lemma_state_at(a);
                            self.lemma_state_at(a);
                        } else {
                            assert forall|a: int|
                                0 <= a < self.sessions@.len() implies self.sessions@[a].0
                                != c by {
                                if a < n {
                                    assert(sessions0[a].0 == self.sessions@[a].0);
                                }
                            }
                        }
                    }
                }
            },
        }
    }

    /// React to a join-session event: decide whether to play, record the
    /// playback on the registry when one is decided, and move the session to
    /// `PlayingTrack`. The caller performs the named join and the playback;
    /// everything else is a no-op that changes no state.
    pub fn on_join_event(
        &mut self,
        reg: &mut SoundRegistry,
        ev: &JoinEvent,
        now: u64,
    ) -> (r: JoinOutcome)
        requires
            old(self).wf(),
            old(reg).wf(),
        ensures
            final(self).wf(),
            final(reg).wf(),
            spec_outcome_view(r) == spec_join_decision(
                old(self).state_of(ev.community_id),
                old(reg).table(),
                *ev,
                now,
            ),
            match spec_join_decision(
                old(self).state_of(ev.community_id),
                old(reg).table(),
                *ev,
                now,
            ) {
                JoinDecision::Play { connect_to, path } => {
                    &&& final(self).state_of(ev.community_id) == SessionState::PlayingTrack
                    &&& forall|c: u64|
                        c != ev.community_id ==> final(self).state_of(c) == old(self).state_of(c)
                    &&& final(reg).table() == spec_recorded(
                        old(reg).table(),
                        ev.user_id,
                        ev.community_id,
                        now,
                    )
                },
                _ => *final(self) == *old(self) && *final(reg) == *old(reg),
            },
    {
        if !ev.entered {
            return JoinOutcome::NotAnEntry;
        }
        let has_local = reg.has_sound(ev.user_id, Some(ev.community_id));
        let has_global = reg.has_sound(ev.user_id, None);
        if !has_local && !has_global {
            return JoinOutcome::NoSound;
        }
        let last = reg.resolve_last_played(ev.user_id, ev.community_id);
        if cooldown_active(last, now) {
            return JoinOutcome::OnCooldown;
        }
        let state = self.current_state(ev.community_id);
        let need_connect = match state {
            SessionState::Disconnected => true,
            _ => false,
        };
        let connect_to: Option<u64> = if need_connect {
            match ev.channel_id {
                Some(channel) => Some(channel),
                None => {
                    return JoinOutcome::NoChannel;
                },
            }
        } else {
            None
        };
        let path = match reg.resolve_path(ev.user_id, ev.community_id) {
            Ok(p) => p,
            Err(_) => {
                proof {
                    assert(false);
                }
                return JoinOutcome::NoSound;
            },
        };
        reg.record_play(ev.user_id, ev.community_id, now);
        self.set_state(ev.community_id, SessionState::PlayingTrack);
        JoinOutcome::Play { connect_to, path }
    }

    /// The one-shot track finished, in whatever way: the session leaves the
    /// voice channel. The caller performs the leave this decides.
    pub fn on_track_end(&mut self, community_id: u64)
        requires
            old(self).wf(),
        ensures
            final(self).wf(),
            final(self).state_of(community_id) == SessionState::Disconnected,
            forall|c: u64| c != community_id ==> final(self).state_of(c) == old(self).state_of(c),
    {
        self.set_state(community_id, SessionState::Disconnected);
    }

    /// Playback could not start — the blob vanished, the track was refused —
    /// after a connection may already have been opened: the session still
    /// disconnects, so no idle connection is ever left behind. The caller
    /// performs the leave.
    pub fn on_play_failed(&mut self, community_id: u64)
        requires
            old(self).wf(),
        ensures
            final(self).wf(),
            final(self).state_of(community_id) == SessionState::Disconnected,
            forall|c: u64| c != community_id ==> final(self).state_of(c) == old(self).state_of(c),
    {
        self.set_state(community_id, SessionState::Disconnected);
    }
}

} // verus!
