//! The persisted row shapes, as the relational table stores them: numeric
//! identifiers in decimal string form, the path in its flat string form, all
//! of them nullable. Converting between these rows and the registry's is
//! verified against the parsers and renderers, so a registry loaded from
//! storage means exactly what the rows say.

use vstd::prelude::*;

use crate::numbers::{parse_u64, spec_dec_seq, spec_parse_u64, u64_to_string};
use crate::paths::PathKey;
use crate::registry::JoinSound;
use crate::render::{parse_path, render_path, spec_parse_path, spec_render_path};

verus! {

/// One row as read from the `joinsounds` table.
#[derive(Debug)]
pub struct JoinSounds {
    pub id: i32,
    pub discord_id: Option<String>,
    pub guild_id: Option<String>,
    pub file_path: Option<String>,
    pub last_played: Option<i64>,
}

/// The payload written for a new or replaced row.
#[derive(Debug)]
pub struct NewJoinSound {
    pub discord_id: String,
    pub guild_id: Option<String>,
    pub file_path: String,
}

pub open spec fn spec_opt_view(o: Option<String>) -> Option<Seq<char>> {
    match o {
        Some(s) => Some(s@),
        None => None,
    }
}

/// A persisted timestamp as the registry holds it: seconds since the epoch;
/// a negative value is meaningless and treated as absent.
pub open spec fn spec_timestamp_of(t: Option<i64>) -> Option<u64> {
    match t {
        Some(v) => if v >= 0 {
            Some(v as u64)
        } else {
            None
        },
        None => None,
    }
}

/// What a persisted row means: the user (whose identifier must be present
/// and numeric), the scope (numeric when present), the path its string
/// parses to (an unreadable or absent path means a row without media), and
/// the timestamp. A row without a readable user or scope means nothing.
pub open spec fn spec_row_meaning(
    discord_id: Option<Seq<char>>,
    guild_id: Option<Seq<char>>,
    file_path: Option<Seq<char>>,
    last_played: Option<i64>,
) -> Option<(u64, Option<u64>, Option<PathKey>, Option<u64>)> {
    match discord_id {
        None => None,
        Some(d) => match spec_parse_u64(d) {
            None => None,
            Some(user_id) => {
                let scope = match guild_id {
                    None => Some(None::<u64>),
                    Some(g) => match spec_parse_u64(g) {
                        None => None,
                        Some(c) => Some(Some(c)),
                    },
                };
                match scope {
                    None => None,
                    Some(community_id) => Some(
                        (
                            user_id,
                            community_id,
                            match file_path {
                                None => None,
                                Some(fp) => spec_parse_path(fp),
                            },
                            spec_timestamp_of(last_played),
                        ),
                    ),
                }
            },
        },
    }
}

/// Read one persisted row into a registry row. A row whose user or scope
/// cannot be read is dropped; one whose path string cannot be read keeps its
/// key but carries no media.
pub fn to_join_sound(rec: &JoinSounds) -> (r: Option<JoinSound>)
    ensures
        match r {
            Some(row) => spec_row_meaning(
                spec_opt_view(rec.discord_id),
                spec_opt_view(rec.guild_id),
                spec_opt_view(rec.file_path),
                rec.last_played,
            ) == Some(
                (
                    row.user_id,
                    row.community_id,
                    match row.file_path {
                        Some(p) => Some(p@),
                        None => None::<PathKey>,
                    },
                    row.last_played,
                ),
            ),
            None => spec_row_meaning(
                spec_opt_view(rec.discord_id),
                spec_opt_view(rec.guild_id),
                spec_opt_view(rec.file_path),
                rec.last_played,
            ) is None,
        },
{
    let user_id = match &rec.discord_id {
        Some(d) => match parse_u64(d.as_str()) {
            Some(u) => u,
            None => {
                return None;
            },
        },
        None => {
            return None;
        },
    };
    let community_id = match &rec.guild_id {
        Some(g) => match parse_u64(g.as_str()) {
            Some(c) => Some(c),
            None => {
                return None;
            },
        },
        None => None,
    };
    let file_path = match &rec.file_path {
        Some(fp) => parse_path(fp.as_str()),
        None => None,
    };
    let last_played = match rec.last_played {
        Some(v) => if v >= 0 {
            Some(v as u64)
        } else {
            None
        },
        None => None,
    };
    Some(JoinSound { user_id, community_id, file_path, last_played })
}

/// Write one registry row as a persistable payload; a row without media has
/// nothing to persist.
pub fn new_join_sound(row: &JoinSound) -> (r: Option<NewJoinSound>)
    ensures
        match r {
            Some(w) => {
                &&& row.file_path matches Some(p) && w.file_path@ == spec_render_path(p@)
                &&& w.discord_id@ == spec_dec_seq(row.user_id as nat)
                &&& match row.community_id {
                    Some(c) => w.guild_id matches Some(g) && g@ == spec_dec_seq(c as nat),
                    None => w.guild_id is None,
                }
            },
            None => row.file_path is None,
        },
{
    let path = match &row.file_path {
        Some(p) => p,
        None => {
            return None;
        },
    };
    let discord_id = u64_to_string(row.user_id);
    let guild_id = match row.community_id {
        Some(c) => Some(u64_to_string(c)),
        None => None,
    };
    let file_path = render_path(path);
    Some(NewJoinSound { discord_id, guild_id, file_path })
}

} // verus!
