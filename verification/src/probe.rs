//! What a storage location supports, judged from what happened when the
//! operation was actually tried. The trying (writing, linking, renaming,
//! timing) belongs to the caller; this module turns each observation into
//! the check the storage report shows, with the status and the reason.
use vstd::prelude::*;
use crate::error::AppError;
use crate::text::{append_chars, append_str, chars_eq, chars_of, decimal, decimal_exec, string_of};

verus! {

/// How one check came out.
#[derive(Debug, Clone, Copy, PartialEq, Eq, Structural)]
pub enum ProbeStatus {
    /// The operation worked.
    Passed,
    /// The volume refused it, and the catalog has to work without it.
    Unsupported,
    /// It worked, but in a way worth knowing about.
    Warn,
    /// It should have worked and didn't.
    Failed,
}

/// One line of a storage report.
#[derive(Debug, Clone)]
pub struct ProbeCheck {
    pub id: String,
    pub label: String,
    pub status: ProbeStatus,
    pub detail: String,
    /// Wall-clock cost, where the number means something.
    pub millis: Option<u32>,
}

/// Every check run against one folder.
#[derive(Debug, Clone)]
pub struct StorageReport {
    pub path: String,
    pub checks: Vec<ProbeCheck>,
}

/// The report of `path` made of `checks`, in their order.
pub fn storage_report(path: String, checks: Vec<ProbeCheck>) -> (r: StorageReport)
    ensures
        r.path@ == path@,
        r.checks@ == checks@,
{
    StorageReport { path, checks }
}

/// Whether `c` says exactly `id`, `label`, `status` and `detail`, without a
/// timing.
pub open spec fn is_check(c: ProbeCheck, id: Seq<char>, label: Seq<char>, status: ProbeStatus, detail: Seq<char>) -> bool {
    &&& c.id@ == id
    &&& c.label@ == label
    &&& c.status == status
    &&& c.detail@ == detail
    &&& c.millis is None
}

/// A check without a timing.
pub fn check(id: &str, label: &str, status: ProbeStatus, detail: &str) -> (r: ProbeCheck)
    ensures
        is_check(r, id@, label@, status, detail@),
{
    let idv = chars_of(id);
    let lv = chars_of(label);
    let dv = chars_of(detail);
    ProbeCheck { id: string_of(&idv), label: string_of(&lv), status, detail: string_of(&dv), millis: None }
}

/// A check without a timing whose detail is already in characters.
fn check_chars(id: &str, label: &str, status: ProbeStatus, detail: &Vec<char>) -> (r: ProbeCheck)
    ensures
        is_check(r, id@, label@, status, detail@),
{
    let idv = chars_of(id);
    let lv = chars_of(label);
    ProbeCheck { id: string_of(&idv), label: string_of(&lv), status, detail: string_of(detail), millis: None }
}

/// The first check: the scratch folder could be created and removed.
pub fn writable_check() -> (r: ProbeCheck)
    ensures
        is_check(r, "writable"@, "Writable"@, ProbeStatus::Passed, "created and removed a folder here"@),
{
    check("writable", "Writable", ProbeStatus::Passed, "created and removed a folder here")
}

/// The refusal of a path that is not a folder.
pub open spec fn not_a_folder_text(shown: Seq<char>) -> Seq<char> {
    "'"@ + shown + "' is not a folder"@
}

/// Probing refuses a path that is not an existing folder rather than
/// creating it.
pub fn not_a_folder_error(shown: &str) -> (r: AppError)
    ensures
        r matches AppError::NotFoundError(m) && m@ == not_a_folder_text(shown@),
{
    let mut v: Vec<char> = Vec::new();
    append_str(&mut v, "'");
    append_str(&mut v, shown);
    append_str(&mut v, "' is not a folder");
    assert(v@ =~= not_a_folder_text(shown@));
    AppError::NotFoundError(string_of(&v))
}

/// The refusal of a folder the scratch folder cannot be created in.
pub open spec fn not_writable_text(shown: Seq<char>, reason: Seq<char>) -> Seq<char> {
    "Cannot write to '"@ + shown + "': "@ + reason
        + " — a read-only mount can be scanned, but not packed, merged or rendered into"@
}

/// Probing stops when its scratch folder cannot be created.
pub fn not_writable_error(shown: &str, reason: &str) -> (r: AppError)
    ensures
        r matches AppError::IoError(m) && m@ == not_writable_text(shown@, reason@),
{
    let mut v: Vec<char> = Vec::new();
    append_str(&mut v, "Cannot write to '");
    append_str(&mut v, shown);
    append_str(&mut v, "': ");
    append_str(&mut v, reason);
    append_str(&mut v, " — a read-only mount can be scanned, but not packed, merged or rendered into");
    assert(v@ =~= not_writable_text(shown@, reason@));
    AppError::IoError(string_of(&v))
}

/// Whether a hardlink could be made: the answer the duplicates panel asks
/// for.
pub fn supports_links(link_outcome: &Result<(), String>) -> (r: bool)
    ensures
        r == link_outcome is Ok,
{
    link_outcome.is_ok()
}

/// The status the storage report gives hardlinks for an attempt's outcome.
pub open spec fn hardlink_status(link_outcome: Result<(), String>) -> ProbeStatus {
    if link_outcome is Ok {
        ProbeStatus::Passed
    } else {
        ProbeStatus::Unsupported
    }
}

/// The duplicates panel and the storage report never disagree about a
/// volume: merging is offered exactly when the report's hardlink check
/// passed, both being read off the same attempt.
pub proof fn panel_and_report_agree(link_outcome: Result<(), String>)
    ensures
        (hardlink_status(link_outcome) == ProbeStatus::Passed) == (link_outcome is Ok),
{
}

/// The hardlink check's detail when linking failed with `reason`.
pub open spec fn no_links_text(reason: Seq<char>) -> Seq<char> {
    reason + " — duplicates can be found and deleted here, but not merged"@
}

/// The hardlink check, from the outcome of making one.
pub fn hardlinks(link_outcome: &Result<(), String>) -> (r: ProbeCheck)
    ensures
        link_outcome is Ok ==> is_check(
            r,
            "hardlinks"@,
            "Hardlinks"@,
            ProbeStatus::Passed,
            "duplicates can be merged into one copy on disk"@,
        ),
        link_outcome matches Err(e) ==> is_check(
            r,
            "hardlinks"@,
            "Hardlinks"@,
            ProbeStatus::Unsupported,
            no_links_text(e@),
        ),
        r.status == hardlink_status(*link_outcome),
{
    match link_outcome {
        Ok(()) => check("hardlinks", "Hardlinks", ProbeStatus::Passed, "duplicates can be merged into one copy on disk"),
        Err(e) => {
            let mut v = chars_of(e.as_str());
            append_str(&mut v, " — duplicates can be found and deleted here, but not merged");
            check_chars("hardlinks", "Hardlinks", ProbeStatus::Unsupported, &v)
        },
    }
}

/// Spec view of an optional string.
pub open spec fn opt_text(o: Option<String>) -> Option<Seq<char>> {
    match o {
        Some(s) => Some(s@),
        None => None,
    }
}

/// The identity check's status and detail for two probe files written
/// (`written`), their identities `a` and `b`, and `a`'s identity asked for
/// again (`again`).
pub open spec fn identity_verdict(
    written: bool,
    a: Option<Seq<char>>,
    b: Option<Seq<char>>,
    again: Option<Seq<char>>,
) -> (ProbeStatus, Seq<char>) {
    if !written {
        (ProbeStatus::Failed, "could not write the probe files"@)
    } else if a is None || b is None {
        (
            ProbeStatus::Warn,
            "this volume reports no per-file identity — every path counts as its own copy, so merged duplicates will keep being offered for merging"@,
        )
    } else if a == b {
        (
            ProbeStatus::Failed,
            "two different files share the identity "@ + a.unwrap()
                + " — copies would be misreported as already merged"@,
        )
    } else if again != a {
        (ProbeStatus::Failed, "the same file reported two different identities moments apart"@)
    } else {
        (ProbeStatus::Passed, "distinct and stable (e.g. "@ + a.unwrap() + ")"@)
    }
}

fn same_opt(a: &Option<String>, b: &Option<String>) -> (r: bool)
    ensures
        r == (opt_text(*a) == opt_text(*b)),
{
    match (a, b) {
        (Some(x), Some(y)) => {
            let xv = chars_of(x.as_str());
            let yv = chars_of(y.as_str());
            chars_eq(&xv, &yv)
        },
        (None, None) => true,
        _ => false,
    }
}

/// The file-identity check: two distinct files must report distinct
/// identities, and a file the same identity when asked twice.
pub fn identity_check(written: bool, a: &Option<String>, b: &Option<String>, again: &Option<String>) -> (r: ProbeCheck)
    ensures
        is_check(
            r,
            "identity"@,
            "File identity"@,
            identity_verdict(written, opt_text(*a), opt_text(*b), opt_text(*again)).0,
            identity_verdict(written, opt_text(*a), opt_text(*b), opt_text(*again)).1,
        ),
{
    if !written {
        return check("identity", "File identity", ProbeStatus::Failed, "could not write the probe files");
    }
    match (a, b) {
        (Some(x), Some(_)) => {
            let xv = chars_of(x.as_str());
            if same_opt(a, b) {
                let mut v: Vec<char> = Vec::new();
                append_str(&mut v, "two different files share the identity ");
                append_chars(&mut v, &xv);
                append_str(&mut v, " — copies would be misreported as already merged");
                return check_chars("identity", "File identity", ProbeStatus::Failed, &v);
            }
            if !same_opt(again, a) {
                return check(
                    "identity",
                    "File identity",
                    ProbeStatus::Failed,
                    "the same file reported two different identities moments apart",
                );
            }
            let mut v: Vec<char> = Vec::new();
            append_str(&mut v, "distinct and stable (e.g. ");
            append_chars(&mut v, &xv);
            append_str(&mut v, ")");
            check_chars("identity", "File identity", ProbeStatus::Passed, &v)
        },
        _ => check(
            "identity",
            "File identity",
            ProbeStatus::Warn,
            "this volume reports no per-file identity — every path counts as its own copy, so merged duplicates will keep being offered for merging",
        ),
    }
}

/// The case-sensitivity check: after writing `case-probe.bin`, whether
/// `CASE-PROBE.BIN` named a file too.
pub fn case_sensitivity(written: bool, upper_found: bool) -> (r: ProbeCheck)
    ensures
        !written ==> is_check(r, "case"@, "Case sensitivity"@, ProbeStatus::Failed, "could not write the probe file"@),
        written && upper_found ==> is_check(
            r,
            "case"@,
            "Case sensitivity"@,
            ProbeStatus::Warn,
            "case-insensitive — the same folder added under two spellings would index twice"@,
        ),
        written && !upper_found ==> is_check(
            r,
            "case"@,
            "Case sensitivity"@,
            ProbeStatus::Passed,
            "case-sensitive, like the catalog's own path comparisons"@,
        ),
{
    if !written {
        check("case", "Case sensitivity", ProbeStatus::Failed, "could not write the probe file")
    } else if upper_found {
        check(
            "case",
            "Case sensitivity",
            ProbeStatus::Warn,
            "case-insensitive — the same folder added under two spellings would index twice",
        )
    } else {
        check("case", "Case sensitivity", ProbeStatus::Passed, "case-sensitive, like the catalog's own path comparisons")
    }
}

/// How many writes the read-after-write check samples.
pub const VISIBILITY_SAMPLES: u64 = 20;

/// The read-after-write detail: how many of the sampled writes were
/// visible at once, and the longest wait.
pub open spec fn visibility_text(immediate: nat, worst_ms: nat) -> Seq<char> {
    decimal(immediate) + "/"@ + decimal(VISIBILITY_SAMPLES as nat)
        + " writes were visible on the first check (worst wait "@ + decimal(worst_ms) + " ms)"@
}

/// The read-after-write check: `written` is false when a sample could not
/// be written; otherwise `immediate` of the samples were visible on the
/// first look and the slowest took `worst_ms`.
pub fn read_after_write(written: bool, immediate: u64, worst_ms: u64) -> (r: ProbeCheck)
    ensures
        !written ==> is_check(
            r,
            "read_after_write"@,
            "Read-after-write"@,
            ProbeStatus::Failed,
            "could not write the probe files"@,
        ),
        written ==> is_check(
            r,
            "read_after_write"@,
            "Read-after-write"@,
            if immediate == VISIBILITY_SAMPLES { ProbeStatus::Passed } else { ProbeStatus::Warn },
            visibility_text(immediate as nat, worst_ms as nat),
        ),
{
    if !written {
        return check("read_after_write", "Read-after-write", ProbeStatus::Failed, "could not write the probe files");
    }
    let mut v = decimal_exec(immediate);
    append_str(&mut v, "/");
    let total = decimal_exec(VISIBILITY_SAMPLES);
    append_chars(&mut v, &total);
    append_str(&mut v, " writes were visible on the first check (worst wait ");
    let worst = decimal_exec(worst_ms);
    append_chars(&mut v, &worst);
    append_str(&mut v, " ms)");
    assert(v@ =~= visibility_text(immediate as nat, worst_ms as nat));
    let status = if immediate == VISIBILITY_SAMPLES {
        ProbeStatus::Passed
    } else {
        ProbeStatus::Warn
    };
    check_chars("read_after_write", "Read-after-write", status, &v)
}

/// The replace-in-place check: after writing a source and a target
/// (`written`), the outcome of renaming one over the other and whether the
/// target then held the new contents.
pub fn atomic_replace(written: bool, rename: &Result<(), String>, new_contents: bool) -> (r: ProbeCheck)
    ensures
        !written ==> is_check(
            r,
            "atomic_replace"@,
            "Replace in place"@,
            ProbeStatus::Failed,
            "could not write the probe files"@,
        ),
        written && rename is Ok && new_contents ==> is_check(
            r,
            "atomic_replace"@,
            "Replace in place"@,
            ProbeStatus::Passed,
            "renaming over an existing file works"@,
        ),
        written && rename is Ok && !new_contents ==> is_check(
            r,
            "atomic_replace"@,
            "Replace in place"@,
            ProbeStatus::Failed,
            "the rename reported success but the old contents are still there"@,
        ),
        written ==> (rename matches Err(e) ==> is_check(
            r,
            "atomic_replace"@,
            "Replace in place"@,
            ProbeStatus::Unsupported,
            e@ + " — packing and merging cannot finish safely here"@,
        )),
{
    if !written {
        return check("atomic_replace", "Replace in place", ProbeStatus::Failed, "could not write the probe files");
    }
    match rename {
        Ok(()) => {
            if new_contents {
                check("atomic_replace", "Replace in place", ProbeStatus::Passed, "renaming over an existing file works")
            } else {
                check(
                    "atomic_replace",
                    "Replace in place",
                    ProbeStatus::Failed,
                    "the rename reported success but the old contents are still there",
                )
            }
        },
        Err(e) => {
            let mut v = chars_of(e.as_str());
            append_str(&mut v, " — packing and merging cannot finish safely here");
            check_chars("atomic_replace", "Replace in place", ProbeStatus::Unsupported, &v)
        },
    }
}

/// Bytes the duplicate scanner reads before deciding two files might match.
pub const PREFIX_BYTES: u64 = 131072;

/// The prefix-read detail for a read that took `ms` milliseconds.
pub open spec fn prefix_read_text(ms: nat) -> Seq<char> {
    "read "@ + decimal((PREFIX_BYTES / 1024) as nat) + " KiB in "@ + decimal(ms)
        + " ms — a duplicate scan pays this per candidate"@
}

/// The prefix-read check: after writing the probe file (`written`), the
/// time a read of its first [`PREFIX_BYTES`] took, or why it failed.
pub fn prefix_read(written: bool, read: &Result<u64, String>) -> (r: ProbeCheck)
    ensures
        !written ==> is_check(r, "prefix_read"@, "Prefix read"@, ProbeStatus::Failed, "could not write the probe file"@),
        written ==> (read matches Err(e) ==> is_check(r, "prefix_read"@, "Prefix read"@, ProbeStatus::Failed, e@)),
        written ==> (read matches Ok(ms) ==> {
            &&& r.id@ == "prefix_read"@
            &&& r.label@ == "Prefix read"@
            &&& r.status == ProbeStatus::Passed
            &&& r.detail@ == prefix_read_text(ms as nat)
            &&& r.millis == Some(ms as u32)
        }),
{
    if !written {
        return check("prefix_read", "Prefix read", ProbeStatus::Failed, "could not write the probe file");
    }
    match read {
        Ok(ms) => {
            let mut v: Vec<char> = Vec::new();
            append_str(&mut v, "read ");
            let kib = decimal_exec(PREFIX_BYTES / 1024);
            append_chars(&mut v, &kib);
            append_str(&mut v, " KiB in ");
            let msv = decimal_exec(*ms);
            append_chars(&mut v, &msv);
            append_str(&mut v, " ms — a duplicate scan pays this per candidate");
            assert(v@ =~= prefix_read_text(*ms as nat));
            let base = check_chars("prefix_read", "Prefix read", ProbeStatus::Passed, &v);
            ProbeCheck { millis: Some(*ms as u32), ..base }
        },
        Err(e) => {
            let v = chars_of(e.as_str());
            check_chars("prefix_read", "Prefix read", ProbeStatus::Failed, &v)
        },
    }
}

} // verus!
