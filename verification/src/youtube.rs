//! Sounds sourced from video URLs: normalizing a shorts URL to the watch
//! form, and reading the duration text the downloader tool reports
//! (`SS`, `MM:SS` or `HH:MM:SS`) into whole seconds. Fetching the video
//! itself is outside work.

use vstd::prelude::*;

use crate::ingest::{lemma_prefix_len, prefix_end, spec_prefix_len};
use crate::numbers::{parse_u64, spec_parse_u64};

verus! {

/// Index of the last slash in `s`, or -1 if there is none.
pub open spec fn spec_last_slash(s: Seq<char>) -> int
    decreases s.len(),
{
    if s.len() == 0 {
        -1
    } else if s.last() == '/' {
        s.len() - 1
    } else {
        spec_last_slash(s.drop_last())
    }
}

proof fn lemma_last_slash(s: Seq<char>)
    ensures
        -1 <= spec_last_slash(s) < s.len(),
        spec_last_slash(s) >= 0 ==> s[spec_last_slash(s)] == '/',
        forall|j: int| spec_last_slash(s) < j < s.len() ==> s[j] != '/',
    decreases s.len(),
{
    if s.len() > 0 && s.last() != '/' {
        lemma_last_slash(s.drop_last());
        assert forall|j: int| spec_last_slash(s) < j < s.len() implies s[j] != '/' by {
            if j < s.len() - 1 {
                assert(s.drop_last()[j] == s[j]);
            }
        }
    }
}

/// The video identifier a URL carries: everything after its last slash (the
/// whole string when there is none).
pub open spec fn spec_video_id(s: Seq<char>) -> Seq<char> {
    s.skip(spec_last_slash(s) + 1)
}

/// Turn a shorts URL into the regular watch URL for the same video: the
/// identifier after the last slash, appended to the watch form.
pub fn shorts_to_real_url(url: String) -> (r: String)
    ensures
        r@ == "https://www.youtube.com/watch?v="@ + spec_video_id(url@),
{
    let s = url.as_str();
    let n = s.unicode_len();
    proof {
        lemma_last_slash(s@);
    }
    let mut i: usize = n;
    let mut start: usize = 0;
    while i > 0
        invariant
            i <= n,
            n == s@.len(),
            s@ == url@,
            forall|j: int| i <= j < n ==> s@[j] != '/',
        decreases i,
    {
        i = i - 1;
        if s.get_char(i) == '/' {
            proof {
                lemma_last_slash(s@);
            }
            start = i + 1;
            i = 0;
            proof {
                assert(start as int == spec_last_slash(s@) + 1);
            }
            let video_id = s.substring_char(start, n);
            proof {
                assert(video_id@ =~= spec_video_id(s@));
            }
            let prefix = String::from_str("https://www.youtube.com/watch?v=");
            return prefix.concat(video_id);
        }
    }
    let video_id = s.substring_char(0, n);
    proof {
        assert(spec_last_slash(s@) == -1);
        assert(video_id@ =~= spec_video_id(s@));
    }
    let prefix = String::from_str("https://www.youtube.com/watch?v=");
    prefix.concat(video_id)
}

/// What the downloader's duration text denotes, in whole seconds: plain
/// seconds, minutes and seconds, or hours, minutes and seconds, separated by
/// colons; anything else — or a value beyond 64 bits — is unreadable.
pub open spec fn spec_parse_clock_duration(s: Seq<char>) -> Option<u64> {
    let p1 = spec_prefix_len(s, ':');
    if p1 == s.len() {
        spec_parse_u64(s)
    } else {
        let rest = s.skip(p1 + 1);
        let p2 = spec_prefix_len(rest, ':');
        if p2 == rest.len() {
            match (spec_parse_u64(s.take(p1)), spec_parse_u64(rest)) {
                (Some(m), Some(sec)) => if m * 60 + sec <= u64::MAX {
                    Some((m * 60 + sec) as u64)
                } else {
                    None
                },
                _ => None,
            }
        } else {
            let rest2 = rest.skip(p2 + 1);
            if spec_prefix_len(rest2, ':') == rest2.len() {
                match (
                    spec_parse_u64(s.take(p1)),
                    spec_parse_u64(rest.take(p2)),
                    spec_parse_u64(rest2),
                ) {
                    (Some(h), Some(m), Some(sec)) => if h * 3600 + m * 60 + sec <= u64::MAX {
                        Some((h * 3600 + m * 60 + sec) as u64)
                    } else {
                        None
                    },
                    _ => None,
                }
            } else {
                None
            }
        }
    }
}

/// Read the downloader's duration text into whole seconds.
pub fn parse_clock_duration(s: &str) -> (r: Option<u64>)
    ensures
        r == spec_parse_clock_duration(s@),
{
    let n = s.unicode_len();
    let p1 = prefix_end(s, ':');
    proof {
        lemma_prefix_len(s@, ':');
    }
    if p1 == n {
        return parse_u64(s);
    }
    let first = s.substring_char(0, p1);
    proof {
        assert(first@ =~= s@.take(p1 as int));
    }
    let rest = s.substring_char(p1 + 1, n);
    proof {
        assert(rest@ =~= s@.skip(p1 as int + 1));
    }
    let rest_len = n - p1 - 1;
    let p2 = prefix_end(rest, ':');
    proof {
        lemma_prefix_len(rest@, ':');
    }
    if p2 == rest_len {
        let m = match parse_u64(first) {
            Some(m) => m,
            None => {
                return None;
            },
        };
        let sec = match parse_u64(rest) {
            Some(sec) => sec,
            None => {
                return None;
            },
        };
        if m > (u64::MAX - sec) / 60 {
            return None;
        }
        return Some(m * 60 + sec);
    }
    let second = rest.substring_char(0, p2);
    proof {
        assert(second@ =~= rest@.take(p2 as int));
    }
    let rest2 = rest.substring_char(p2 + 1, rest_len);
    proof {
        assert(rest2@ =~= rest@.skip(p2 as int + 1));
    }
    let p3 = prefix_end(rest2, ':');
    proof {
        lemma_prefix_len(rest2@, ':');
    }
    if p3 != rest_len - p2 - 1 {
        return None;
    }
    let h = match parse_u64(first) {
        Some(h) => h,
        None => {
            return None;
        },
    };
    let m = match parse_u64(second) {
        Some(m) => m,
        None => {
            return None;
        },
    };
    let sec = match parse_u64(rest2) {
        Some(sec) => sec,
        None => {
            return None;
        },
    };
    if h > u64::MAX / 3600 {
        return None;
    }
    let hours_part = h * 3600;
    if m > (u64::MAX - hours_part) / 60 {
        return None;
    }
    let minutes_part = m * 60;
    if sec > u64::MAX - hours_part - minutes_part {
        return None;
    }
    Some(hours_part + minutes_part + sec)
}

} // verus!
