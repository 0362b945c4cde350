//! The base-cut and landscape scripts' stdout protocols, framed line by
//! line, and the decisions a run makes from them: when to stop the child
//! and how many cuts it reports as made.
use vstd::prelude::*;
use crate::error::AppError;
use crate::scatter::after;
use crate::text::{string_from_str, append_str, chars_of, eq_lit, slice, starts_with_exec, string_of, trim, trim_chars};

verus! {

/// The keyword a base-cut line starts with.
#[derive(Debug, Clone, Copy, PartialEq, Eq, Structural)]
pub enum CutLine {
    Validating,
    Validated,
    ValidationFailed,
    CutStart,
    CutDone,
    CutFailed,
    JobDone,
}

/// How a base-cut line frames once trimmed: `VALIDATING` alone, or a
/// keyword, one space and its JSON payload.
pub open spec fn cut_frame(line: Seq<char>) -> Option<(CutLine, Seq<char>)> {
    let t = trim(line);
    if t == "VALIDATING"@ {
        Some((CutLine::Validating, Seq::empty()))
    } else if after(t, "VALIDATED "@) is Some {
        Some((CutLine::Validated, after(t, "VALIDATED "@).unwrap()))
    } else if after(t, "VALIDATION_FAILED "@) is Some {
        Some((CutLine::ValidationFailed, after(t, "VALIDATION_FAILED "@).unwrap()))
    } else if after(t, "CUT_START "@) is Some {
        Some((CutLine::CutStart, after(t, "CUT_START "@).unwrap()))
    } else if after(t, "CUT_DONE "@) is Some {
        Some((CutLine::CutDone, after(t, "CUT_DONE "@).unwrap()))
    } else if after(t, "CUT_FAILED "@) is Some {
        Some((CutLine::CutFailed, after(t, "CUT_FAILED "@).unwrap()))
    } else if after(t, "JOB_DONE "@) is Some {
        Some((CutLine::JobDone, after(t, "JOB_DONE "@).unwrap()))
    } else {
        None
    }
}

/// The payload after `kw`, when `t` starts with it.
fn strip_keyword(t: &Vec<char>, kw: &str) -> (r: Option<String>)
    ensures
        match r {
            Some(p) => after(t@, kw@) == Some(p@),
            None => after(t@, kw@) is None,
        },
{
    let k = chars_of(kw);
    if starts_with_exec(t, &k) {
        let rest = slice(t, k.len(), t.len());
        Some(string_of(&rest))
    } else {
        None
    }
}

/// Reads the keyword and payload of one line of base-cut output.
pub fn cut_line(line: &str) -> (r: Option<(CutLine, String)>)
    ensures
        match r {
            Some((kind, payload)) => cut_frame(line@) == Some((kind, payload@)),
            None => cut_frame(line@) is None,
        },
{
    let t = trim_chars(&chars_of(line));
    if eq_lit(&t, "VALIDATING") {
        return Some((CutLine::Validating, string_of(&Vec::new())));
    }
    match strip_keyword(&t, "VALIDATED ") {
        Some(p) => { return Some((CutLine::Validated, p)); },
        None => {},
    }
    match strip_keyword(&t, "VALIDATION_FAILED ") {
        Some(p) => { return Some((CutLine::ValidationFailed, p)); },
        None => {},
    }
    match strip_keyword(&t, "CUT_START ") {
        Some(p) => { return Some((CutLine::CutStart, p)); },
        None => {},
    }
    match strip_keyword(&t, "CUT_DONE ") {
        Some(p) => { return Some((CutLine::CutDone, p)); },
        None => {},
    }
    match strip_keyword(&t, "CUT_FAILED ") {
        Some(p) => { return Some((CutLine::CutFailed, p)); },
        None => {},
    }
    match strip_keyword(&t, "JOB_DONE ") {
        Some(p) => { return Some((CutLine::JobDone, p)); },
        None => {},
    }
    None
}

/// The keyword a landscape-generation line starts with.
#[derive(Debug, Clone, Copy, PartialEq, Eq, Structural)]
pub enum LandscapeLine {
    Generating,
    Generated,
    GenerationFailed,
}

/// How a landscape line frames once trimmed: a keyword, one space and its
/// JSON payload.
pub open spec fn landscape_frame(line: Seq<char>) -> Option<(LandscapeLine, Seq<char>)> {
    let t = trim(line);
    if after(t, "GENERATING "@) is Some {
        Some((LandscapeLine::Generating, after(t, "GENERATING "@).unwrap()))
    } else if after(t, "GENERATED "@) is Some {
        Some((LandscapeLine::Generated, after(t, "GENERATED "@).unwrap()))
    } else if after(t, "GENERATION_FAILED "@) is Some {
        Some((LandscapeLine::GenerationFailed, after(t, "GENERATION_FAILED "@).unwrap()))
    } else {
        None
    }
}

/// Reads the keyword and payload of one line of landscape output.
pub fn landscape_line(line: &str) -> (r: Option<(LandscapeLine, String)>)
    ensures
        match r {
            Some((kind, payload)) => landscape_frame(line@) == Some((kind, payload@)),
            None => landscape_frame(line@) is None,
        },
{
    let t = trim_chars(&chars_of(line));
    match strip_keyword(&t, "GENERATING ") {
        Some(p) => { return Some((LandscapeLine::Generating, p)); },
        None => {},
    }
    match strip_keyword(&t, "GENERATED ") {
        Some(p) => { return Some((LandscapeLine::Generated, p)); },
        None => {},
    }
    match strip_keyword(&t, "GENERATION_FAILED ") {
        Some(p) => { return Some((LandscapeLine::GenerationFailed, p)); },
        None => {},
    }
    None
}

/// What a base-cut run has counted so far: cuts it saw finish, and the
/// count the script's own summary gave, once it did.
#[derive(Debug, Clone, Copy, PartialEq, Eq, Structural)]
pub struct CutRun {
    pub local_ok: u32,
    pub job_done_ok: Option<u32>,
}

impl CutRun {
    /// A run that has seen nothing.
    pub fn new() -> (r: CutRun)
        ensures
            r == (CutRun { local_ok: 0, job_done_ok: None }),
    {
        CutRun { local_ok: 0, job_done_ok: None }
    }

    /// Takes in one parsed token (its kind, and the summary's `ok` for a
    /// job-done token); reports whether the run goes on. A failed
    /// validation gates the whole job: the child is stopped.
    pub fn observe(&mut self, kind: CutLine, summary_ok: u32) -> (go_on: bool)
        requires
            kind == CutLine::CutDone ==> old(self).local_ok < u32::MAX,
        ensures
            go_on == (kind != CutLine::ValidationFailed),
            final(self).local_ok == if kind == CutLine::CutDone { old(self).local_ok + 1 } else { old(self).local_ok as int },
            final(self).job_done_ok == if kind == CutLine::JobDone { Some(summary_ok) } else { old(self).job_done_ok },
    {
        match kind {
            CutLine::CutDone => {
                self.local_ok = self.local_ok + 1;
            },
            CutLine::JobDone => {
                self.job_done_ok = Some(summary_ok);
            },
            _ => {},
        }
        kind != CutLine::ValidationFailed
    }

    /// The cuts a cleanly finished run reports: the script's own count
    /// when it gave one, else the finished cuts seen.
    pub fn outcome(&self) -> (r: u32)
        ensures
            r == match self.job_done_ok {
                Some(n) => n,
                None => self.local_ok,
            },
    {
        match self.job_done_ok {
            Some(n) => n,
            None => self.local_ok,
        }
    }
}

/// The output tail an error carries: stdout, then stderr on a line of its
/// own when there is any.
pub fn merge_tail(out: String, err: String) -> (r: String)
    ensures
        err@.len() == 0 ==> r@ == out@,
        err@.len() > 0 ==> r@ == out@ + "\n"@ + err@,
{
    if err.as_str().unicode_len() == 0 {
        out
    } else {
        let mut v = chars_of(out.as_str());
        append_str(&mut v, "\n");
        append_str(&mut v, err.as_str());
        string_of(&v)
    }
}

} // verus!

verus! {

/// One token of a base-cut run as the caller parsed it: its keyword and,
/// for the script's closing summary, the `ok` count it carried (zero for
/// any other token).
pub type CutToken = (CutLine, u32);

/// How many tokens a run delivers before it stops: all of them, or up to
/// and including the first failed validation.
pub open spec fn first_stop(t: Seq<CutToken>) -> nat
    decreases t.len(),
{
    if t.len() == 0 {
        0
    } else if t[0].0 == CutLine::ValidationFailed {
        0
    } else {
        1 + first_stop(t.drop_first())
    }
}

/// The tokens a run delivers: it stops after a failed validation.
pub open spec fn delivered_len(t: Seq<CutToken>) -> nat {
    if first_stop(t) < t.len() {
        first_stop(t) + 1
    } else {
        t.len()
    }
}

/// The finished cuts among `t`.
pub open spec fn count_cut_done(t: Seq<CutToken>) -> nat
    decreases t.len(),
{
    if t.len() == 0 {
        0
    } else {
        count_cut_done(t.drop_last()) + if t.last().0 == CutLine::CutDone { 1nat } else { 0nat }
    }
}

/// The `ok` count of the last summary among `t`, if any.
pub open spec fn last_summary(t: Seq<CutToken>) -> Option<u32>
    decreases t.len(),
{
    if t.len() == 0 {
        None
    } else if t.last().0 == CutLine::JobDone {
        Some(t.last().1)
    } else {
        last_summary(t.drop_last())
    }
}

/// The first stop is where a failed validation stands, and none stands
/// before it.
proof fn lemma_first_stop(t: Seq<CutToken>)
    ensures
        first_stop(t) <= t.len(),
        forall|k: int| 0 <= k < first_stop(t) ==> (#[trigger] t[k]).0 != CutLine::ValidationFailed,
        first_stop(t) < t.len() ==> t[first_stop(t) as int].0 == CutLine::ValidationFailed,
    decreases t.len(),
{
    if t.len() > 0 && t[0].0 != CutLine::ValidationFailed {
        lemma_first_stop(t.drop_first());
        assert forall|k: int| 0 <= k < first_stop(t) implies (#[trigger] t[k]).0 != CutLine::ValidationFailed by {
            if k > 0 {
                assert(t[k] == t.drop_first()[k - 1]);
            }
        }
        if first_stop(t) < t.len() {
            assert(t[first_stop(t) as int] == t.drop_first()[first_stop(t.drop_first()) as int]);
        }
    }
}

/// A prefix holds no more finished cuts than the whole.
proof fn lemma_count_prefix(t: Seq<CutToken>, i: int)
    requires
        0 <= i <= t.len(),
    ensures
        count_cut_done(t.take(i)) <= count_cut_done(t),
        count_cut_done(t) <= t.len(),
    decreases t.len(),
{
    if t.len() > 0 {
        lemma_count_prefix(t.drop_last(), if i < t.len() { i } else { 0 });
        if i < t.len() {
            assert(t.drop_last().take(i) =~= t.take(i));
        } else {
            assert(t.take(i) =~= t);
        }
    } else {
        assert(t.take(i) =~= t);
    }
}

/// Runs the tokens of a base-cut run through [`CutRun::observe`], in
/// order, stopping after a failed validation; gives the tally and how many
/// tokens were delivered.
pub fn tally_cut_tokens(tokens: &Vec<CutToken>) -> (r: (CutRun, usize))
    requires
        count_cut_done(tokens@) < u32::MAX,
    ensures
        r.1 == delivered_len(tokens@),
        r.0.local_ok == count_cut_done(tokens@.take(r.1 as int)),
        r.0.job_done_ok == last_summary(tokens@.take(r.1 as int)),
{
    proof {
        lemma_first_stop(tokens@);
    }
    let mut run = CutRun::new();
    let mut i: usize = 0;
    while i < tokens.len()
        invariant
            0 <= i <= tokens.len(),
            count_cut_done(tokens@) < u32::MAX,
            i <= first_stop(tokens@),
            first_stop(tokens@) <= tokens@.len(),
            first_stop(tokens@) < tokens@.len() ==> tokens@[first_stop(tokens@) as int].0 == CutLine::ValidationFailed,
            forall|k: int| 0 <= k < first_stop(tokens@) ==> (#[trigger] tokens@[k]).0 != CutLine::ValidationFailed,
            run.local_ok == count_cut_done(tokens@.take(i as int)),
            run.job_done_ok == last_summary(tokens@.take(i as int)),
        decreases tokens.len() - i,
    {
        let (kind, ok) = tokens[i];
        assert(tokens@.take(i + 1).drop_last() =~= tokens@.take(i as int));
        assert(tokens@.take(i + 1).last() == tokens@[i as int]);
        proof {
            lemma_count_prefix(tokens@, i + 1);
        }
        let go_on = run.observe(kind, ok);
        i += 1;
        if !go_on {
            assert(first_stop(tokens@) == i - 1);
            return (run, i);
        }
    }
    assert(tokens@.take(i as int) =~= tokens@);
    (run, i)
}

/// How the child process of a run ended, as the caller observed it.
#[derive(Debug)]
pub enum CutRunEnd {
    /// It could not be started; the launch error's text.
    SpawnFailed(String),
    /// Its standard output could not be captured.
    StdoutCaptureFailed,
    /// Reading its output failed; the read error's text.
    ReadFailed(String),
    /// Waiting for it failed; the wait error's text.
    WaitFailed(String),
    /// The user cancelled the job and the child was stopped.
    Cancelled,
    /// The run stopped the child itself, after a failed validation.
    AbortedByCaller,
    /// It exited on its own: whether with success, and its exit status as
    /// text.
    Exited(bool, String),
}

/// The output tail an error carries, as [`merge_tail`] forms it.
pub open spec fn tail_text(out: Seq<char>, err: Seq<char>) -> Seq<char> {
    if err.len() == 0 {
        out
    } else {
        out + "\n"@ + err
    }
}

/// The tail of a child that printed nothing.
fn no_tail() -> (r: String)
    ensures
        r@.len() == 0,
{
    let v: Vec<char> = Vec::new();
    string_of(&v)
}

/// `prefix` followed by `detail`, as a new string.
fn joined(prefix: &str, detail: &str) -> (r: String)
    ensures
        r@ == prefix@ + detail@,
{
    let mut v: Vec<char> = Vec::new();
    append_str(&mut v, prefix);
    append_str(&mut v, detail);
    string_of(&v)
}

/// What a base-cut run returns once its child has ended: on a clean exit
/// the cuts it made (the script's summary count when it gave one, else the
/// finished cuts seen); otherwise the error for how it ended and the
/// output tail, which is empty when the child never produced output.
pub fn cut_run_result(run: CutRun, end: CutRunEnd, stdout_tail: String, stderr_tail: String) -> (r:
    Result<u32, (AppError, String)>)
    ensures
        match end {
            CutRunEnd::SpawnFailed(e) => r matches Err((AppError::IoError(m), t)) && m@
                == "Failed to launch Blender: "@ + e@ && t@.len() == 0,
            CutRunEnd::StdoutCaptureFailed => r matches Err((AppError::IoError(m), t)) && m@
                == "Failed to capture Blender stdout"@ && t@.len() == 0,
            CutRunEnd::ReadFailed(e) => r matches Err((AppError::IoError(m), t)) && m@
                == "Failed reading Blender output: "@ + e@ && t@ == tail_text(stdout_tail@, stderr_tail@),
            CutRunEnd::WaitFailed(e) => r matches Err((AppError::IoError(m), t)) && m@
                == "Failed waiting for Blender: "@ + e@ && t@ == tail_text(stdout_tail@, stderr_tail@),
            CutRunEnd::Cancelled => r matches Err((AppError::UserCancelled(m), t)) && m@
                == "Base cut job cancelled"@ && t@ == tail_text(stdout_tail@, stderr_tail@),
            CutRunEnd::AbortedByCaller => r matches Err((AppError::FileProcessingError(m), t)) && m@
                == "Landscape failed validation"@ && t@ == tail_text(stdout_tail@, stderr_tail@),
            CutRunEnd::Exited(success, status) => if success {
                r == Ok::<u32, (AppError, String)>(match run.job_done_ok {
                    Some(n) => n,
                    None => run.local_ok,
                })
            } else {
                r matches Err((AppError::FileProcessingError(m), t)) && m@ == "Blender exited with "@
                    + status@ && t@ == tail_text(stdout_tail@, stderr_tail@)
            },
        },
{
    match end {
        CutRunEnd::SpawnFailed(e) => Err(
            (AppError::IoError(joined("Failed to launch Blender: ", e.as_str())), no_tail()),
        ),
        CutRunEnd::StdoutCaptureFailed => Err(
            (AppError::IoError(string_from_str("Failed to capture Blender stdout")), no_tail()),
        ),
        CutRunEnd::ReadFailed(e) => Err(
            (
                AppError::IoError(joined("Failed reading Blender output: ", e.as_str())),
                merge_tail(stdout_tail, stderr_tail),
            ),
        ),
        CutRunEnd::WaitFailed(e) => Err(
            (
                AppError::IoError(joined("Failed waiting for Blender: ", e.as_str())),
                merge_tail(stdout_tail, stderr_tail),
            ),
        ),
        CutRunEnd::Cancelled => Err(
            (
                AppError::UserCancelled(string_from_str("Base cut job cancelled")),
                merge_tail(stdout_tail, stderr_tail),
            ),
        ),
        CutRunEnd::AbortedByCaller => Err(
            (
                AppError::FileProcessingError(string_from_str("Landscape failed validation")),
                merge_tail(stdout_tail, stderr_tail),
            ),
        ),
        CutRunEnd::Exited(success, status) => {
            if success {
                Ok(run.outcome())
            } else {
                Err(
                    (
                        AppError::FileProcessingError(joined("Blender exited with ", status.as_str())),
                        merge_tail(stdout_tail, stderr_tail),
                    ),
                )
            }
        },
    }
}

/// A whole base-cut run from what its child printed and how it ended: the
/// tokens are tallied as [`tally_cut_tokens`] does, and the ending decides
/// the result as [`cut_run_result`] does.
pub fn cut_job_result(tokens: &Vec<CutToken>, end: CutRunEnd, stdout_tail: String, stderr_tail: String) -> (r:
    Result<u32, (AppError, String)>)
    requires
        count_cut_done(tokens@) < u32::MAX,
    ensures
        (end matches CutRunEnd::Exited(success, _) && success) ==> r == Ok::<u32, (AppError, String)>(
            match last_summary(tokens@.take(delivered_len(tokens@) as int)) {
                Some(n) => n,
                None => count_cut_done(tokens@.take(delivered_len(tokens@) as int)) as u32,
            },
        ),
        !(end matches CutRunEnd::Exited(success, _) && success) ==> r is Err,
        end is AbortedByCaller ==> (r matches Err((AppError::FileProcessingError(m), t)) && m@
            == "Landscape failed validation"@ && t@ == tail_text(stdout_tail@, stderr_tail@)),
        end matches CutRunEnd::Exited(success, status) ==> (!success ==> (r matches Err((AppError::FileProcessingError(m), t))
            && m@ == "Blender exited with "@ + status@ && t@ == tail_text(stdout_tail@, stderr_tail@))),
        end is Cancelled ==> (r matches Err((AppError::UserCancelled(m), t)) && m@ == "Base cut job cancelled"@
            && t@ == tail_text(stdout_tail@, stderr_tail@)),
        end matches CutRunEnd::SpawnFailed(e) ==> (r matches Err((AppError::IoError(m), t)) && m@
            == "Failed to launch Blender: "@ + e@ && t@.len() == 0),
        end is StdoutCaptureFailed ==> (r matches Err((AppError::IoError(m), t)) && m@
            == "Failed to capture Blender stdout"@ && t@.len() == 0),
        end matches CutRunEnd::ReadFailed(e) ==> (r matches Err((AppError::IoError(m), t)) && m@
            == "Failed reading Blender output: "@ + e@ && t@ == tail_text(stdout_tail@, stderr_tail@)),
        end matches CutRunEnd::WaitFailed(e) ==> (r matches Err((AppError::IoError(m), t)) && m@
            == "Failed waiting for Blender: "@ + e@ && t@ == tail_text(stdout_tail@, stderr_tail@)),
{
    let (run, _n) = tally_cut_tokens(tokens);
    cut_run_result(run, end, stdout_tail, stderr_tail)
}

} // verus!
