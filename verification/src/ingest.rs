//! Attachment ingestion: validate the declared media type, enforce the
//! duration ceiling, pick the destination file name (video attachments are
//! converted to audio and renamed accordingly), and commit the bytes into
//! the blob store at the deterministic path
//! `media/<user>/[<community>/]<file>`.
//!
//! Downloading, duration probing and transcoding are outside work; their
//! results come in as plain values and every decision taken on them here is
//! verified. A failed probe leaves the duration unknown, which rejects the
//! attachment rather than accepting it unchecked.

use vstd::prelude::*;

use crate::errors::IngestError;
use crate::numbers::{spec_all_digits, spec_digit_val, spec_is_digit, spec_parse_u64, parse_u64};
use crate::paths::StoredPath;
use crate::store::{spec_dirs_after_put, BlobStore};

verus! {

/// Longest duration, in whole seconds, a join sound may have.
pub const MAX_SOUND_SECONDS: u64 = 15;

/// The two supported top-level media types.
#[derive(Debug, PartialEq, Eq, Structural, Clone, Copy)]
pub enum MediaKind {
    Audio,
    Video,
}

/// What the core reads of an inbound attachment: its file name and its
/// declared media type.
pub struct AttachmentMeta {
    pub file_name: String,
    pub content_type: Option<String>,
}

impl AttachmentMeta {
    pub open spec fn spec_content_type(self) -> Option<Seq<char>> {
        match self.content_type {
            Some(ct) => Some(ct@),
            None => None,
        }
    }

    /// A usable attachment name: non-empty, no path separator.
    pub open spec fn wf(self) -> bool {
        &&& self.file_name@.len() > 0
        &&& forall|i: int| 0 <= i < self.file_name@.len() ==> self.file_name@[i] != '/'
    }
}

/// Number of leading characters of `s` before the first `sep`.
pub open spec fn spec_prefix_len(s: Seq<char>, sep: char) -> int
    decreases s.len(),
{
    if s.len() == 0 {
        0
    } else if s[0] == sep {
        0
    } else {
        1 + spec_prefix_len(s.drop_first(), sep)
    }
}

pub proof fn lemma_prefix_len(s: Seq<char>, sep: char)
    ensures
        0 <= spec_prefix_len(s, sep) <= s.len(),
        spec_prefix_len(s, sep) < s.len() ==> s[spec_prefix_len(s, sep)] == sep,
        forall|j: int| 0 <= j < spec_prefix_len(s, sep) ==> s[j] != sep,
    decreases s.len(),
{
    if s.len() > 0 && s[0] != sep {
        lemma_prefix_len(s.drop_first(), sep);
        assert forall|j: int| 0 <= j < spec_prefix_len(s, sep) implies s[j] != sep by {
            if j > 0 {
                assert(s.drop_first()[j - 1] == s[j]);
            }
        }
    }
}

/// Pin the prefix length down: up to `l` there is no `sep`, and at `l` the
/// string ends or a `sep` stands.
pub proof fn lemma_prefix_len_is(s: Seq<char>, sep: char, l: int)
    requires
        0 <= l <= s.len(),
        forall|i: int| 0 <= i < l ==> s[i] != sep,
        l == s.len() || s[l] == sep,
    ensures
        spec_prefix_len(s, sep) == l,
{
    lemma_prefix_len(s, sep);
    let pl = spec_prefix_len(s, sep);
    if pl < l {
        assert(s[pl] != sep);
    }
    if pl > l {
        assert(s[l] != sep);
    }
}

/// The index of the first `sep` in `s`, or its length if there is none.
pub(crate) fn prefix_end(s: &str, sep: char) -> (i: usize)
    ensures
        i as int == spec_prefix_len(s@, sep),
{
    let n = s.unicode_len();
    let mut i: usize = 0;
    while i < n
        invariant
            i <= n,
            n == s@.len(),
            forall|j: int| 0 <= j < i ==> s@[j] != sep,
        decreases n - i,
    {
        if s.get_char(i) == sep {
            proof {
                lemma_prefix_len(s@, sep);
            }
            return i;
        }
        i = i + 1;
    }
    proof {
        lemma_prefix_len(s@, sep);
    }
    n
}

/// The media kind an attachment declares: the token of its media type before
/// the first slash must be `audio` or `video`.
pub open spec fn spec_media_kind(content_type: Option<Seq<char>>) -> Option<MediaKind> {
    match content_type {
        None => None,
        Some(ct) => {
            let token = ct.take(spec_prefix_len(ct, '/'));
            if token == "audio"@ {
                Some(MediaKind::Audio)
            } else if token == "video"@ {
                Some(MediaKind::Video)
            } else {
                None
            }
        },
    }
}

/// Classify an attachment by its declared media type.
pub fn media_kind(attachment: &AttachmentMeta) -> (r: Option<MediaKind>)
    ensures
        r == spec_media_kind(attachment.spec_content_type()),
{
    match &attachment.content_type {
        None => None,
        Some(ct) => {
            let s = ct.as_str();
            let end = prefix_end(s, '/');
            proof {
                lemma_prefix_len(s@, '/');
            }
            let token = s.substring_char(0, end);
            proof {
                assert(token@ =~= ct@.take(spec_prefix_len(ct@, '/')));
            }
            let token_string = String::from_str(token);
            if token_string == String::from_str("audio") {
                Some(MediaKind::Audio)
            } else if token_string == String::from_str("video") {
                Some(MediaKind::Video)
            } else {
                None
            }
        },
    }
}

/// Whether the attachment declares a supported media type at all.
pub fn validate_attachment(attachment: &AttachmentMeta) -> (r: bool)
    ensures
        r == (spec_media_kind(attachment.spec_content_type()) is Some),
{
    media_kind(attachment).is_some()
}

/// Whether a probed duration passes the ceiling; an unknown duration is
/// treated as unbounded and rejected.
pub open spec fn spec_duration_allowed(probed_seconds: Option<u64>) -> bool {
    match probed_seconds {
        Some(d) => d <= MAX_SOUND_SECONDS,
        None => false,
    }
}

/// Whether a probed duration passes the ceiling.
pub fn duration_allowed(probed_seconds: Option<u64>) -> (r: bool)
    ensures
        r == spec_duration_allowed(probed_seconds),
{
    match probed_seconds {
        Some(d) => d <= MAX_SOUND_SECONDS,
        None => false,
    }
}

/// What parsing a duration probe's decimal output yields: the value in whole
/// seconds, rounded to nearest with halves away from zero. The accepted form
/// is digits, optionally followed by a dot and further digits.
pub open spec fn spec_parse_probe_seconds(s: Seq<char>) -> Option<u64> {
    let dot = spec_prefix_len(s, '.');
    match spec_parse_u64(s.take(dot)) {
        None => None,
        Some(v) => if dot == s.len() {
            Some(v)
        } else {
            let fraction = s.skip(dot + 1);
            if spec_all_digits(fraction) {
                if fraction.len() > 0 && spec_digit_val(fraction[0]) >= 5 {
                    if v < u64::MAX {
                        Some((v + 1) as u64)
                    } else {
                        None
                    }
                } else {
                    Some(v)
                }
            } else {
                None
            }
        },
    }
}

/// Parse the duration probe's output into whole seconds, rounding to the
/// nearest second. Anything unparseable yields `None`: the duration is then
/// unknown and the attachment is rejected rather than accepted unchecked.
pub fn parse_probe_seconds(s: &str) -> (r: Option<u64>)
    ensures
        r == spec_parse_probe_seconds(s@),
{
    let n = s.unicode_len();
    let dot = prefix_end(s, '.');
    proof {
        lemma_prefix_len(s@, '.');
    }
    let integer_part = s.substring_char(0, dot);
    proof {
        assert(integer_part@ =~= s@.take(spec_prefix_len(s@, '.')));
    }
    let v = match parse_u64(integer_part) {
        Some(v) => v,
        None => {
            return None;
        },
    };
    if dot == n {
        return Some(v);
    }
    let fraction = s.substring_char(dot + 1, n);
    proof {
        assert(fraction@ =~= s@.skip(dot + 1 as int));
    }
    let m = fraction.unicode_len();
    for i in 0..m
        invariant
            m == fraction@.len(),
            n == s@.len(),
            dot as int == spec_prefix_len(s@, '.'),
            dot < n,
            spec_parse_u64(s@.take(dot as int)) == Some(v),
            fraction@ == s@.skip(dot as int + 1),
            forall|j: int| 0 <= j < i ==> spec_is_digit(#[trigger] fraction@[j]),
    {
        let c = fraction.get_char(i);
        let code = c as u32;
        if code < 48 || code > 57 {
            proof {
                assert(!spec_is_digit(fraction@[i as int]));
                assert(!spec_all_digits(s@.skip(dot as int + 1)));
            }
            return None;
        }
    }
    if m > 0 {
        let c0 = fraction.get_char(0);
        if c0 as u32 >= 53 {
            if v < u64::MAX {
                return Some(v + 1);
            } else {
                return None;
            }
        }
    }
    Some(v)
}

/// Index of the last dot in `s`, or -1 if there is none.
pub open spec fn spec_last_dot(s: Seq<char>) -> int
    decreases s.len(),
{
    if s.len() == 0 {
        -1
    } else if s.last() == '.' {
        s.len() - 1
    } else {
        spec_last_dot(s.drop_last())
    }
}

proof fn lemma_last_dot(s: Seq<char>)
    ensures
        -1 <= spec_last_dot(s) < s.len(),
        spec_last_dot(s) >= 0 ==> s[spec_last_dot(s)] == '.',
        forall|j: int| spec_last_dot(s) < j < s.len() ==> s[j] != '.',
    decreases s.len(),
{
    if s.len() > 0 && s.last() != '.' {
        lemma_last_dot(s.drop_last());
        assert forall|j: int| spec_last_dot(s) < j < s.len() implies s[j] != '.' by {
            if j < s.len() - 1 {
                assert(s.drop_last()[j] == s[j]);
            }
        }
    }
}

/// The file name a video attachment's audio extraction is stored under: the
/// extension after the last dot becomes `mp3`; a name without a dot gains
/// the `mp3` extension.
pub open spec fn spec_audio_file_name(s: Seq<char>) -> Seq<char> {
    if spec_last_dot(s) >= 0 {
        s.take(spec_last_dot(s)) + ".mp3"@
    } else {
        s + ".mp3"@
    }
}

/// Index of the last dot of a file name, if any.
fn last_dot(s: &str) -> (r: Option<usize>)
    ensures
        match r {
            Some(i) => i as int == spec_last_dot(s@),
            None => spec_last_dot(s@) == -1,
        },
{
    proof {
        lemma_last_dot(s@);
    }
    let n = s.unicode_len();
    let mut i: usize = n;
    while i > 0
        invariant
            i <= n,
            n == s@.len(),
            forall|j: int| i <= j < n ==> s@[j] != '.',
        decreases i,
    {
        i = i - 1;
        if s.get_char(i) == '.' {
            proof {
                lemma_last_dot(s@);
            }
            return Some(i);
        }
    }
    None
}

/// Rename a video attachment for its extracted audio.
pub fn audio_file_name(name: &str) -> (r: String)
    ensures
        r@ == spec_audio_file_name(name@),
        r@.len() > 0,
        (forall|i: int| 0 <= i < name@.len() ==> name@[i] != '/') ==> (forall|i: int|
            0 <= i < r@.len() ==> r@[i] != '/'),
{
    proof {
        reveal_strlit(".mp3");
        assert(".mp3"@.len() == 4);
        assert(".mp3"@[0] == '.' && ".mp3"@[1] == 'm' && ".mp3"@[2] == 'p' && ".mp3"@[3] == '3');
        lemma_last_dot(name@);
    }
    let r = match last_dot(name) {
        Some(i) => {
            let stem = name.substring_char(0, i);
            proof {
                assert(stem@ =~= name@.take(spec_last_dot(name@)));
            }
            String::from_str(stem).concat(".mp3")
        },
        None => String::from_str(name).concat(".mp3"),
    };
    proof {
        let stem_len = if spec_last_dot(name@) >= 0 {
            spec_last_dot(name@)
        } else {
            name@.len() as int
        };
        if forall|i: int| 0 <= i < name@.len() ==> name@[i] != '/' {
            assert forall|i: int| 0 <= i < r@.len() implies r@[i] != '/' by {
                if i < stem_len {
                    assert(r@[i] == name@[i]);
                } else {
                    assert(r@[i] == ".mp3"@[i - stem_len]);
                }
            }
        }
    }
    r
}

/// The file name the committed blob is stored under.
pub open spec fn spec_dest_file_name(kind: MediaKind, name: Seq<char>) -> Seq<char> {
    match kind {
        MediaKind::Audio => name,
        MediaKind::Video => spec_audio_file_name(name),
    }
}

/// The bytes the committed blob holds: the download itself for audio, the
/// transcoder's output for video.
pub open spec fn spec_ingested_bytes(kind: MediaKind, downloaded: Seq<u8>, transcoded: Option<Vec<u8>>) -> Seq<u8> {
    match kind {
        MediaKind::Audio => downloaded,
        MediaKind::Video => match transcoded {
            Some(b) => b@,
            None => Seq::empty(),
        },
    }
}

/// Why ingestion of an attachment fails, or `None` when it succeeds: an
/// unsupported media type, then the duration ceiling (an unknown duration is
/// unbounded), then — for video — a missing or empty transcoder output.
pub open spec fn spec_ingest_outcome(
    content_type: Option<Seq<char>>,
    probed_seconds: Option<u64>,
    transcoded: Option<Vec<u8>>,
) -> Option<IngestError> {
    let kind = spec_media_kind(content_type);
    if kind is None {
        Some(IngestError::UnsupportedType)
    } else if !spec_duration_allowed(probed_seconds) {
        Some(IngestError::TooLong)
    } else if kind == Some(MediaKind::Video) && !(transcoded matches Some(b) && b@.len() > 0) {
        Some(IngestError::TranscodeFailed)
    } else {
        None
    }
}

/// An attachment whose probed duration exceeds the ceiling — or whose probe
/// failed, leaving the duration unbounded — is rejected as too long, for
/// every supported media type; `ingest` then leaves the store untouched.
pub proof fn lemma_over_ceiling_rejected(
    content_type: Option<Seq<char>>,
    probed_seconds: Option<u64>,
    transcoded: Option<Vec<u8>>,
)
    requires
        spec_media_kind(content_type) is Some,
        match probed_seconds {
            Some(d) => d > MAX_SOUND_SECONDS,
            None => true,
        },
    ensures
        spec_ingest_outcome(content_type, probed_seconds, transcoded) == Some(
            IngestError::TooLong,
        ),
{
}

/// The media kind of a supported attachment (audio for an unsupported one;
/// only meaningful when ingestion succeeds).
pub open spec fn spec_ingest_kind(content_type: Option<Seq<char>>) -> MediaKind {
    match spec_media_kind(content_type) {
        Some(k) => k,
        None => MediaKind::Audio,
    }
}

/// Ingest one attachment for `(user_id, community_id)`: validate its media
/// type, enforce the duration ceiling, pick audio bytes and file name, and
/// commit the blob, overwriting any prior content at the destination path.
///
/// `probed_seconds` is the probed duration (`None` when probing failed, which
/// rejects); `downloaded` the attachment's bytes; `transcoded` the audio
/// extracted from a video attachment (`None` or empty when extraction
/// failed). On any error the store is left untouched; on success the
/// returned path is where the blob now lives.
pub fn ingest(
    store: &mut BlobStore,
    user_id: u64,
    community_id: Option<u64>,
    attachment: &AttachmentMeta,
    probed_seconds: Option<u64>,
    downloaded: Vec<u8>,
    transcoded: Option<Vec<u8>>,
) -> (r: Result<StoredPath, IngestError>)
    requires
        old(store).wf(),
        attachment.wf(),
    ensures
        final(store).wf(),
        final(store).mode() == old(store).mode(),
        ({
            let kind_arg = attachment.spec_content_type();
            let outcome = spec_ingest_outcome(kind_arg, probed_seconds, transcoded);
            match r {
                Err(e) => {
                    &&& *final(store) == *old(store)
                    &&& outcome == Some(e)
                },
                Ok(p) => {
                    &&& outcome is None
                    &&& p.wf()
                    &&& p@ == (
                        user_id,
                        community_id,
                        spec_dest_file_name(spec_ingest_kind(kind_arg), attachment.file_name@),
                    )
                    &&& final(store).contents() == old(store).contents().insert(
                        p@,
                        spec_ingested_bytes(spec_ingest_kind(kind_arg), downloaded@, transcoded),
                    )
                    &&& final(store).dir_set() =~= spec_dirs_after_put(
                        old(store).dir_set(),
                        old(store).mode(),
                        p@,
                    )
                },
            }
        }),
{
    let kind = match media_kind(attachment) {
        Some(k) => k,
        None => {
            return Err(IngestError::UnsupportedType);
        },
    };
    if !duration_allowed(probed_seconds) {
        return Err(IngestError::TooLong);
    }
    let picked: (String, Vec<u8>) = match kind {
        MediaKind::Audio => (attachment.file_name.clone(), downloaded),
        MediaKind::Video => {
            match transcoded {
                Some(b) => {
                    if b.len() > 0 {
                        (audio_file_name(attachment.file_name.as_str()), b)
                    } else {
                        return Err(IngestError::TranscodeFailed);
                    }
                },
                None => {
                    return Err(IngestError::TranscodeFailed);
                },
            }
        },
    };
    let (file_name, bytes) = picked;
    let path = StoredPath { user_id, community_id, file_name };
    let _ = store.put(&path, bytes);
    Ok(path)
}

} // verus!
