//! The scatter job's piece vocabulary and the framing of the scatter
//! script's stdout protocol: one line per event, a keyword and, for most,
//! a JSON payload after one space.
use vstd::prelude::*;
use crate::text::{chars_of, slice, starts_with, starts_with_exec, string_of, trim, trim_chars, eq_lit};

verus! {

/// A generated piece kind, the only source scatter places today.
#[derive(Debug, Clone, Copy, PartialEq, Eq, Structural)]
pub enum GeneratedPieceKind {
    Pebble,
    Rock,
}

/// Where one scatter piece comes from.
#[derive(Debug, Clone)]
pub enum ScatterPieceSource {
    Generated { kind: GeneratedPieceKind },
    Asset { id: String },
}

/// Where a scatter asset lives.
#[derive(Debug, Clone, Copy, PartialEq, Eq, Structural)]
pub enum ScatterAssetSource {
    Bundled,
    User,
}

/// One parsed line of the scatter script's stdout.
#[derive(Debug, Clone)]
pub enum ScatterToken {
    Started,
    Progress { placed: u32, total: u32 },
    Done { out: String, placed: u32, manifold: bool },
    Failed { reason: String },
}

/// The keyword a scatter line starts with.
#[derive(Debug, Clone, Copy, PartialEq, Eq, Structural)]
pub enum ScatterLine {
    /// `SCATTER_START`, alone on its line.
    Start,
    /// `SCATTER_PROGRESS {json}`.
    Progress,
    /// `SCATTER_DONE {json}`.
    Done,
    /// `SCATTER_FAILED {json}`.
    Failed,
}

/// `s` after `prefix`, when it starts with it.
pub open spec fn after(s: Seq<char>, prefix: Seq<char>) -> Option<Seq<char>> {
    if starts_with(s, prefix) {
        Some(s.subrange(prefix.len() as int, s.len() as int))
    } else {
        None
    }
}

/// How a line of the protocol frames, read after trimming surrounding
/// whitespace: the keyword and the payload that follows it (empty for the
/// start line); `None` for anything else Blender prints.
pub open spec fn scatter_frame(line: Seq<char>) -> Option<(ScatterLine, Seq<char>)> {
    let t = trim(line);
    if t == "SCATTER_START"@ {
        Some((ScatterLine::Start, Seq::empty()))
    } else if after(t, "SCATTER_PROGRESS "@) is Some {
        Some((ScatterLine::Progress, after(t, "SCATTER_PROGRESS "@).unwrap()))
    } else if after(t, "SCATTER_DONE "@) is Some {
        Some((ScatterLine::Done, after(t, "SCATTER_DONE "@).unwrap()))
    } else if after(t, "SCATTER_FAILED "@) is Some {
        Some((ScatterLine::Failed, after(t, "SCATTER_FAILED "@).unwrap()))
    } else {
        None
    }
}

/// Reads the keyword and payload of one line of scatter output.
pub fn scatter_line(line: &str) -> (r: Option<(ScatterLine, String)>)
    ensures
        match r {
            Some((kind, payload)) => scatter_frame(line@) == Some((kind, payload@)),
            None => scatter_frame(line@) is None,
        },
{
    let v = chars_of(line);
    let t = trim_chars(&v);
    if eq_lit(&t, "SCATTER_START") {
        return Some((ScatterLine::Start, string_of(&Vec::new())));
    }
    let progress = chars_of("SCATTER_PROGRESS ");
    if starts_with_exec(&t, &progress) {
        let rest = slice(&t, progress.len(), t.len());
        return Some((ScatterLine::Progress, string_of(&rest)));
    }
    let done = chars_of("SCATTER_DONE ");
    if starts_with_exec(&t, &done) {
        let rest = slice(&t, done.len(), t.len());
        return Some((ScatterLine::Done, string_of(&rest)));
    }
    let failed = chars_of("SCATTER_FAILED ");
    if starts_with_exec(&t, &failed) {
        let rest = slice(&t, failed.len(), t.len());
        return Some((ScatterLine::Failed, string_of(&rest)));
    }
    None
}

/// Pieces settle onto the surface they land on unless a job says otherwise.
pub fn default_align_to_surface() -> (r: bool)
    ensures
        r,
{
    true
}

} // verus!

verus! {

/// The one scatter job allowed to run at a time, by its id.
#[derive(Debug)]
pub struct ScatterSlot {
    active: Option<String>,
}

impl View for ScatterSlot {
    type V = Option<Seq<char>>;

    closed spec fn view(&self) -> Option<Seq<char>> {
        match self.active {
            Some(id) => Some(id@),
            None => None,
        }
    }
}

impl ScatterSlot {
    /// No scatter job running.
    pub fn new() -> (r: ScatterSlot)
        ensures
            r@ is None,
    {
        ScatterSlot { active: None }
    }

    /// Whether a scatter job holds the slot.
    pub fn is_active(&self) -> (r: bool)
        ensures
            r == self@ is Some,
    {
        self.active.is_some()
    }

    /// Takes the slot for `job_id`, or refuses when a job already holds
    /// it; the check and the claim are one step.
    pub fn claim_active_job(&mut self, job_id: &str) -> (r: Result<(), crate::error::AppError>)
        ensures
            old(self)@ is None ==> r is Ok && final(self)@ == Some(job_id@),
            old(self)@ is Some ==> final(self)@ == old(self)@ && (r matches Err(crate::error::AppError::InvalidInput(m))
                && m@ == "A scatter job is already running"@),
    {
        if self.active.is_some() {
            return Err(crate::error::AppError::InvalidInput(crate::text::string_from_str("A scatter job is already running")));
        }
        self.active = Some(string_of(&chars_of(job_id)));
        Ok(())
    }

    /// Frees the slot, but only when it still holds `job_id`: a job that
    /// lost its slot must not clear another job's claim.
    pub fn release_active_job(&mut self, job_id: &str)
        ensures
            (old(self)@ == Some(job_id@)) ==> final(self)@ is None,
            (old(self)@ != Some(job_id@)) ==> final(self)@ == old(self)@,
    {
        let holds = match &self.active {
            Some(id) => crate::text::chars_eq(&chars_of(id.as_str()), &chars_of(job_id)),
            None => false,
        };
        if holds {
            self.active = None;
        }
    }
}

} // verus!
