//! The bookkeeping of the staged duplicate scan: same-size candidates from
//! the index, a prefix hash of each to weed out most collisions, then full
//! hashes where a prefix is shared. Reading and hashing the bytes is the
//! caller's; this module decides what each candidate needs next and keeps
//! the progress counters the panel shows.
use vstd::prelude::*;
use crate::error::AppError;
use crate::paths::{extension_of, path_extension};
use crate::text::{append_str, chars_eq, chars_eq_ignore_ascii_case, chars_of, eq_ignore_ascii_case, string_from_str, string_of};

verus! {

/// What a duplicate scan is spending its time on: answering from the index
/// costs nothing, a prefix read costs 128 KiB, a full read the whole file.
#[derive(Debug, Clone, Copy, PartialEq, Eq, Structural)]
pub enum DupPhase {
    Checking,
    PrefixHashing,
    FullHashing,
}

impl Default for DupPhase {
    fn default() -> (r: DupPhase)
        ensures
            r == DupPhase::Checking,
    {
        DupPhase::Checking
    }
}

/// The counters a duplicate scan reports.
#[derive(Debug, Clone, Copy, PartialEq, Eq, Structural)]
pub struct DupProgress {
    pub processed: u32,
    pub total: u32,
    /// Candidates settled from stored hashes, without a disk read.
    pub cached: u32,
    pub prefix_hashed: u32,
    pub full_hashed: u32,
    pub phase: DupPhase,
}

impl Default for DupProgress {
    fn default() -> (r: DupProgress)
        ensures
            r == start_progress_spec(0),
    {
        DupProgress { processed: 0, total: 0, cached: 0, prefix_hashed: 0, full_hashed: 0, phase: DupPhase::Checking }
    }
}

/// Progress before any candidate of `total` was looked at.
pub open spec fn start_progress_spec(total: u32) -> DupProgress {
    DupProgress { processed: 0, total, cached: 0, prefix_hashed: 0, full_hashed: 0, phase: DupPhase::Checking }
}

/// The progress a scan of `total` candidates starts from.
pub fn start_progress(total: u32) -> (r: DupProgress)
    ensures
        r == start_progress_spec(total),
{
    DupProgress { processed: 0, total, cached: 0, prefix_hashed: 0, full_hashed: 0, phase: DupPhase::Checking }
}

/// One duplicate candidate, with what the index already knows of its
/// bytes: `content_hash` means the full hash is known, `prefix_hash` that
/// the prefix one is.
#[derive(Debug, Clone)]
pub struct DupCandidate {
    pub path: String,
    pub modified_at: i64,
    pub content_hash: Option<String>,
    pub prefix_hash: Option<String>,
}

/// A prefix hash and the file attributes that make it trustworthy later.
#[derive(Debug, Clone)]
pub struct PrefixHashRow {
    pub path: String,
    pub prefix_hash: String,
    pub size_bytes: i64,
    pub modified_at: i64,
}

/// Bytes a prefix hash covers.
pub const PARTIAL_HASH_BYTES: u64 = 131072;

/// Buffered entries that force a checkpoint.
pub const CHECKPOINT_BATCH: usize = 512;

/// Candidates between two progress reports.
pub const PROGRESS_STRIDE: u32 = 50;

/// The error a cancelled scan ends with.
pub fn cancelled() -> (r: AppError)
    ensures
        r matches AppError::UserCancelled(m) && m@ == "Duplicate scan cancelled"@,
{
    AppError::UserCancelled(string_from_str("Duplicate scan cancelled"))
}

/// Whether `path` names an STL file (its extension is `stl` in any case).
pub fn is_stl(path: &str) -> (r: bool)
    ensures
        r == (extension_of(path@) matches Some(e) && eq_ignore_ascii_case(e, "stl"@)),
{
    match path_extension(path) {
        Some(e) => {
            let ev = chars_of(e.as_str());
            let stl = chars_of("stl");
            chars_eq_ignore_ascii_case(&ev, &stl)
        },
        None => false,
    }
}

/// Counts candidate number `processed + 1` as looked at: settled from the
/// index when it has a stored prefix hash, otherwise about to be read.
pub fn note_candidate(progress: &mut DupProgress, has_stored_prefix: bool)
    requires
        old(progress).processed < u32::MAX,
        has_stored_prefix ==> old(progress).cached < u32::MAX,
    ensures
        final(progress).processed == old(progress).processed + 1,
        final(progress).total == old(progress).total,
        final(progress).prefix_hashed == old(progress).prefix_hashed,
        final(progress).full_hashed == old(progress).full_hashed,
        has_stored_prefix ==> final(progress).cached == old(progress).cached + 1
            && final(progress).phase == DupPhase::Checking,
        !has_stored_prefix ==> final(progress).cached == old(progress).cached
            && final(progress).phase == DupPhase::PrefixHashing,
{
    progress.processed = progress.processed + 1;
    if has_stored_prefix {
        progress.cached = progress.cached + 1;
        progress.phase = DupPhase::Checking;
    } else {
        progress.phase = DupPhase::PrefixHashing;
    }
}

/// Counts one prefix read that succeeded, and gives the row that records
/// it for later scans.
pub fn note_prefix_read(progress: &mut DupProgress, candidate: &DupCandidate, prefix: &str, size: i64) -> (r: PrefixHashRow)
    requires
        old(progress).prefix_hashed < u32::MAX,
    ensures
        *final(progress) == (DupProgress { prefix_hashed: (old(progress).prefix_hashed + 1) as u32, ..*old(progress) }),
        r.path@ == candidate.path@,
        r.prefix_hash@ == prefix@,
        r.size_bytes == size,
        r.modified_at == candidate.modified_at,
{
    progress.prefix_hashed = progress.prefix_hashed + 1;
    PrefixHashRow {
        path: string_from_str(candidate.path.as_str()),
        prefix_hash: string_from_str(prefix),
        size_bytes: size,
        modified_at: candidate.modified_at,
    }
}

/// Whether the counters are due to be reported: every
/// [`PROGRESS_STRIDE`] candidates.
pub fn progress_due(progress: &DupProgress) -> (r: bool)
    ensures
        r == (progress.processed % PROGRESS_STRIDE == 0),
{
    progress.processed % PROGRESS_STRIDE == 0
}

/// Whether the buffered prefix rows and identities are due to be written.
pub fn checkpoint_due(prefixes: usize, identities: usize) -> (r: bool)
    ensures
        r == (prefixes >= CHECKPOINT_BATCH || identities >= CHECKPOINT_BATCH),
{
    prefixes >= CHECKPOINT_BATCH || identities >= CHECKPOINT_BATCH
}

/// What confirming one member of a shared-prefix bucket takes.
#[derive(Debug, Clone, Copy, PartialEq, Eq, Structural)]
pub enum FullRead {
    /// The index already holds its full hash.
    Known,
    /// An STL: hash it in full and mine its geometry in the same pass.
    HashAndMine,
    /// Larger than the prefix: hash it in full.
    HashFull,
    /// The file ends inside the prefix, so the prefix hash is its full
    /// hash.
    PrefixIsFull,
}

/// Whether a file of `size` bytes reaches past the prefix (a size below
/// zero, read as an unsigned count, does).
pub open spec fn beyond_prefix(size: i64) -> bool {
    size < 0 || size > PARTIAL_HASH_BYTES
}

/// The step that settles a bucket member.
pub open spec fn full_read_spec(confirmed: bool, stl: bool, size: i64) -> FullRead {
    if confirmed {
        FullRead::Known
    } else if stl {
        FullRead::HashAndMine
    } else if beyond_prefix(size) {
        FullRead::HashFull
    } else {
        FullRead::PrefixIsFull
    }
}

/// Decides how a member of a shared-prefix bucket is confirmed.
pub fn full_read(confirmed: bool, stl: bool, size: i64) -> (r: FullRead)
    ensures
        r == full_read_spec(confirmed, stl, size),
{
    if confirmed {
        FullRead::Known
    } else if stl {
        FullRead::HashAndMine
    } else if size < 0 || size as u64 > PARTIAL_HASH_BYTES {
        FullRead::HashFull
    } else {
        FullRead::PrefixIsFull
    }
}

/// Counts a full read about to happen; reports whether it is one (only
/// those are reported to the panel).
pub fn note_full_read(progress: &mut DupProgress, step: FullRead) -> (r: bool)
    requires
        old(progress).full_hashed < u32::MAX,
    ensures
        r == (step == FullRead::HashAndMine || step == FullRead::HashFull),
        r ==> *final(progress) == (DupProgress {
            full_hashed: (old(progress).full_hashed + 1) as u32,
            phase: DupPhase::FullHashing,
            ..*old(progress)
        }),
        !r ==> *final(progress) == *old(progress),
{
    match step {
        FullRead::HashAndMine | FullRead::HashFull => {
            progress.full_hashed = progress.full_hashed + 1;
            progress.phase = DupPhase::FullHashing;
            true
        },
        _ => false,
    }
}

/// The counters a finished sweep reports: everything processed, back to
/// checking.
pub fn finish_progress(progress: &mut DupProgress)
    ensures
        *final(progress) == (DupProgress {
            processed: old(progress).total,
            phase: DupPhase::Checking,
            ..*old(progress)
        }),
{
    progress.processed = progress.total;
    progress.phase = DupPhase::Checking;
}

/// The footprint shape a model's base was detected as.
#[derive(Debug, Clone, Copy, PartialEq, Eq, Structural)]
pub enum BaseShape {
    Round,
    Square,
}

/// The name a base shape is stored under.
pub fn base_shape_str(shape: BaseShape) -> (r: &'static str)
    ensures
        r@ == match shape {
            BaseShape::Round => "round"@,
            BaseShape::Square => "square"@,
        },
{
    match shape {
        BaseShape::Round => "round",
        BaseShape::Square => "square",
    }
}

/// The text of an optional string.
pub open spec fn opt_text(o: Option<String>) -> Option<Seq<char>> {
    match o {
        Some(s) => Some(s@),
        None => None,
    }
}

/// What merging one duplicate into the kept copy comes to, before any
/// link is made.
#[derive(Debug, Clone)]
pub enum MergeCheck {
    /// Already one file on disk with the kept copy: counts as merged.
    AlreadyOne,
    /// Same bytes as the kept copy: replace it with a hardlink.
    Link,
    /// Left alone, with the reason.
    Refuse(String),
}

/// Decides a duplicate's merge: a shared physical identity means it is the
/// kept file already; otherwise its bytes must still hash like the kept
/// copy's (the catalog's hashes date from the last scan), else the reason
/// it is left alone.
pub fn merge_check(
    dup: &str,
    keep_identity: &Option<String>,
    dup_identity: &Option<String>,
    keep_hash: &str,
    dup_hash: &Result<String, String>,
) -> (r: MergeCheck)
    ensures
        (keep_identity is Some && opt_text(*dup_identity) == opt_text(*keep_identity)) ==> r is AlreadyOne,
        !(keep_identity is Some && opt_text(*dup_identity) == opt_text(*keep_identity)) ==> match dup_hash {
            Ok(h) => if h@ == keep_hash@ {
                r is Link
            } else {
                r matches MergeCheck::Refuse(m) && m@ == dup@ + ": contents changed since the last scan — rescan duplicates first"@
            },
            Err(e) => r matches MergeCheck::Refuse(m) && m@ == dup@ + ": "@ + e@,
        },
{
    match (keep_identity, dup_identity) {
        (Some(k), Some(d)) => {
            if chars_eq(&chars_of(k.as_str()), &chars_of(d.as_str())) {
                return MergeCheck::AlreadyOne;
            }
        },
        _ => {},
    }
    match dup_hash {
        Ok(h) => {
            if chars_eq(&chars_of(h.as_str()), &chars_of(keep_hash)) {
                MergeCheck::Link
            } else {
                let mut m = chars_of(dup);
                append_str(&mut m, ": contents changed since the last scan — rescan duplicates first");
                MergeCheck::Refuse(string_of(&m))
            }
        },
        Err(e) => {
            let mut m = chars_of(dup);
            append_str(&mut m, ": ");
            append_str(&mut m, e.as_str());
            MergeCheck::Refuse(string_of(&m))
        },
    }
}

/// The error a merge records when linking into a location failed.
pub fn link_refused(dup: &str, reason: &str) -> (r: String)
    ensures
        r@ == dup@ + ": this location doesn't support merging ("@ + reason@ + ")"@,
{
    let mut m = chars_of(dup);
    append_str(&mut m, ": this location doesn't support merging (");
    append_str(&mut m, reason);
    append_str(&mut m, ")");
    string_of(&m)
}

} // verus!
