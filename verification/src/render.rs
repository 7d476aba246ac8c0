//! The flat string form of a stored path — what the filesystem backend uses
//! below its media root, what the object store uses as the key, and what the
//! registry's persisted rows carry. Rendering and parsing are verified
//! inverses for every usable path.

use vstd::prelude::*;

use crate::ingest::{lemma_prefix_len_is, prefix_end, spec_prefix_len};
use crate::numbers::{
    lemma_dec_round_trip, lemma_dec_seq_digits, parse_u64, spec_dec_seq, spec_is_digit,
    u64_to_string,
};
use crate::paths::{PathKey, StoredPath};

verus! {

/// The string a stored path renders to:
/// `media/<user>/[<community>/]<file>`.
pub open spec fn spec_render_path(k: PathKey) -> Seq<char> {
    "media/"@ + spec_dec_seq(k.0 as nat) + "/"@ + (match k.1 {
        Some(c) => spec_dec_seq(c as nat) + "/"@,
        None => Seq::<char>::empty(),
    }) + k.2
}

/// Render a stored path to its flat string form.
pub fn render_path(p: &StoredPath) -> (r: String)
    ensures
        r@ == spec_render_path(p@),
{
    let mut out = String::from_str("media/");
    let user_digits = u64_to_string(p.user_id);
    out.append(user_digits.as_str());
    out.append("/");
    match p.community_id {
        Some(c) => {
            let community_digits = u64_to_string(c);
            out.append(community_digits.as_str());
            out.append("/");
        },
        None => {},
    }
    out.append(p.file_name.as_str());
    proof {
        assert(out@ =~= spec_render_path(p@));
    }
    out
}

/// What parsing a flat path string yields: the media-root segment, a numeric
/// user segment, an optional numeric community segment, and a non-empty file
/// name without further separators.
pub open spec fn spec_parse_path(s: Seq<char>) -> Option<PathKey> {
    if s.len() < 6 || s.take(6) != "media/"@ {
        None
    } else {
        let rest = s.skip(6);
        let p1 = spec_prefix_len(rest, '/');
        if p1 == rest.len() {
            None
        } else {
            match crate::numbers::spec_parse_u64(rest.take(p1)) {
                None => None,
                Some(user_id) => {
                    let rest2 = rest.skip(p1 + 1);
                    let p2 = spec_prefix_len(rest2, '/');
                    if p2 == rest2.len() {
                        if rest2.len() > 0 {
                            Some((user_id, None, rest2))
                        } else {
                            None
                        }
                    } else {
                        let name = rest2.skip(p2 + 1);
                        if spec_prefix_len(name, '/') == name.len() && name.len() > 0 {
                            match crate::numbers::spec_parse_u64(rest2.take(p2)) {
                                None => None,
                                Some(community_id) => Some((user_id, Some(community_id), name)),
                            }
                        } else {
                            None
                        }
                    }
                },
            }
        }
    }
}

/// Parse a flat path string back into a stored path.
pub fn parse_path(s: &str) -> (r: Option<StoredPath>)
    ensures
        match r {
            Some(p) => spec_parse_path(s@) == Some(p@) && p.wf(),
            None => spec_parse_path(s@) is None,
        },
{
    let n = s.unicode_len();
    if n < 6 {
        return None;
    }
    let head = s.substring_char(0, 6);
    proof {
        assert(head@ =~= s@.take(6));
    }
    let head_string = String::from_str(head);
    if !(head_string == String::from_str("media/")) {
        return None;
    }
    let rest = s.substring_char(6, n);
    proof {
        assert(rest@ =~= s@.skip(6));
    }
    let rest_len = n - 6;
    let p1 = prefix_end(rest, '/');
    proof {
        crate::ingest::lemma_prefix_len(rest@, '/');
    }
    if p1 == rest_len {
        return None;
    }
    let user_digits = rest.substring_char(0, p1);
    proof {
        assert(user_digits@ =~= rest@.take(p1 as int));
    }
    let user_id = match parse_u64(user_digits) {
        Some(u) => u,
        None => {
            return None;
        },
    };
    let rest2 = rest.substring_char(p1 + 1, rest_len);
    proof {
        assert(rest2@ =~= rest@.skip(p1 as int + 1));
    }
    let rest2_len = rest_len - p1 - 1;
    let p2 = prefix_end(rest2, '/');
    proof {
        crate::ingest::lemma_prefix_len(rest2@, '/');
    }
    if p2 == rest2_len {
        if rest2_len > 0 {
            proof {
                crate::ingest::lemma_prefix_len(rest2@, '/');
            }
            let file_name = String::from_str(rest2);
            return Some(StoredPath { user_id, community_id: None, file_name });
        } else {
            return None;
        }
    }
    let name = rest2.substring_char(p2 + 1, rest2_len);
    proof {
        assert(name@ =~= rest2@.skip(p2 as int + 1));
    }
    let name_len = rest2_len - p2 - 1;
    if !(prefix_end(name, '/') == name_len) || name_len == 0 {
        return None;
    }
    let community_digits = rest2.substring_char(0, p2);
    proof {
        assert(community_digits@ =~= rest2@.take(p2 as int));
    }
    let community_id = match parse_u64(community_digits) {
        Some(c) => c,
        None => {
            return None;
        },
    };
    proof {
        crate::ingest::lemma_prefix_len(name@, '/');
    }
    Some(StoredPath { user_id, community_id: Some(community_id), file_name: String::from_str(name) })
}

/// Decimal digits are never the separator.
proof fn lemma_dec_seq_no_slash(n: nat)
    ensures
        forall|i: int| 0 <= i < spec_dec_seq(n).len() ==> spec_dec_seq(n)[i] != '/',
{
    lemma_dec_seq_digits(n);
    assert forall|i: int| 0 <= i < spec_dec_seq(n).len() implies spec_dec_seq(n)[i] != '/' by {
        assert(spec_is_digit(spec_dec_seq(n)[i]));
    }
}

/// Rendering then parsing gives the path back, for every usable path.
#[verifier::rlimit(100)]
#[verifier::spinoff_prover]
pub proof fn lemma_path_round_trip(k: PathKey)
    requires
        k.2.len() > 0,
        forall|i: int| 0 <= i < k.2.len() ==> k.2[i] != '/',
    ensures
        spec_parse_path(spec_render_path(k)) == Some(k),
{
    reveal_strlit("media/");
    assert("media/"@.len() == 6);
    let s = spec_render_path(k);
    let user_digits = spec_dec_seq(k.0 as nat);
    lemma_dec_seq_digits(k.0 as nat);
    lemma_dec_seq_no_slash(k.0 as nat);
    lemma_dec_round_trip(k.0);
    let tail = match k.1 {
        Some(c) => spec_dec_seq(c as nat) + "/"@,
        None => Seq::<char>::empty(),
    };
    assert(s =~= "media/"@ + (user_digits + "/"@ + tail + k.2));
    let rest = user_digits + "/"@ + tail + k.2;
    assert(s.take(6) =~= "media/"@);
    assert(s.skip(6) =~= rest);
    assert("/"@.len() == 1 && "/"@[0] == '/') by {
        reveal_strlit("/");
    }
    assert(rest[user_digits.len() as int] == '/');
    lemma_prefix_len_is(rest, '/', user_digits.len() as int);
    assert(rest.take(user_digits.len() as int) =~= user_digits);
    let rest2 = rest.skip(user_digits.len() as int + 1);
    assert(rest2 =~= tail + k.2);
    match k.1 {
        None => {
            assert(rest2 =~= k.2);
            lemma_prefix_len_is(rest2, '/', rest2.len() as int);
        },
        Some(c) => {
            let community_digits = spec_dec_seq(c as nat);
            lemma_dec_seq_digits(c as nat);
            lemma_dec_seq_no_slash(c as nat);
            lemma_dec_round_trip(c);
            assert(rest2[community_digits.len() as int] == '/');
            lemma_prefix_len_is(rest2, '/', community_digits.len() as int);
            assert(rest2.take(community_digits.len() as int) =~= community_digits);
            let name = rest2.skip(community_digits.len() as int + 1);
            assert(name =~= k.2);
            lemma_prefix_len_is(name, '/', name.len() as int);
        },
    }
}

} // verus!
