//! One registry and one policy for the catalog's background work. Every job
//! that touches the catalog claims a permit here before it starts and
//! releases it when it ends, however it ends; two jobs whose access to the
//! catalog conflicts are never registered at the same time.
use vstd::prelude::*;
use crate::error::AppError;
use crate::text::{append_str, chars_of, string_of};

verus! {

/// The kinds of background work that claim the catalog.
#[derive(Debug, Clone, Copy, PartialEq, Eq, Structural)]
pub enum JobKind {
    Scan,
    Reclassify,
    Duplicate,
    Geometry,
    Pack,
    Unpack,
    Extract,
    BatchRender,
}

/// What a job does to the catalog — all the coordinator needs in order to
/// keep two of them apart.
#[derive(Debug, Clone, Copy, PartialEq, Eq, Structural)]
pub enum Access {
    /// Rewrites catalog rows.
    WritesCatalog,
    /// Moves or deletes the bytes another job is reading.
    MovesBytes,
    /// Reads catalog rows and writes only scratch files of its own.
    ReadsFiles,
}

/// The access a kind of job needs.
pub open spec fn access_of(kind: JobKind) -> Access {
    match kind {
        JobKind::Scan | JobKind::Reclassify | JobKind::Duplicate | JobKind::Geometry
        | JobKind::BatchRender => Access::WritesCatalog,
        JobKind::Pack | JobKind::Unpack => Access::MovesBytes,
        JobKind::Extract => Access::ReadsFiles,
    }
}

/// Names the holder in "X is running" refusals.
pub open spec fn label_of(kind: JobKind) -> &'static str {
    match kind {
        JobKind::Scan => "A catalog scan",
        JobKind::Reclassify => "A designer reclassification",
        JobKind::Duplicate => "A duplicate scan",
        JobKind::Geometry => "A geometry scan",
        JobKind::Pack => "A pack job",
        JobKind::Unpack => "An unpack job",
        JobKind::Extract => "An extraction",
        JobKind::BatchRender => "A batch render",
    }
}

/// Completes "… when it finishes" for the job that was turned away.
pub open spec fn retry_hint_of(kind: JobKind) -> &'static str {
    match kind {
        JobKind::Scan => "rescan",
        JobKind::Reclassify => "reclassify designers",
        JobKind::Duplicate => "scan for duplicates",
        JobKind::Geometry => "mine geometry",
        JobKind::Pack => "pack",
        JobKind::Unpack => "unpack",
        JobKind::Extract => "open packed files",
        JobKind::BatchRender => "render previews",
    }
}

/// The wire prefix of a job id of this kind; packing and unpacking share
/// one.
pub open spec fn prefix_of(kind: JobKind) -> &'static str {
    match kind {
        JobKind::Scan => "scan:",
        JobKind::Reclassify => "reclassify:",
        JobKind::Duplicate => "dup:",
        JobKind::Geometry => "geom:",
        JobKind::Pack | JobKind::Unpack => "pack:",
        JobKind::Extract => "extract:",
        JobKind::BatchRender => "batch-render:",
    }
}

impl JobKind {
    /// The access this kind of job needs.
    pub fn access(self) -> (r: Access)
        ensures
            r == access_of(self),
    {
        match self {
            JobKind::Scan | JobKind::Reclassify | JobKind::Duplicate | JobKind::Geometry
            | JobKind::BatchRender => Access::WritesCatalog,
            JobKind::Pack | JobKind::Unpack => Access::MovesBytes,
            JobKind::Extract => Access::ReadsFiles,
        }
    }

    /// Names the holder in "X is running" refusals.
    pub fn label(self) -> (r: &'static str)
        ensures
            r == label_of(self),
    {
        match self {
            JobKind::Scan => "A catalog scan",
            JobKind::Reclassify => "A designer reclassification",
            JobKind::Duplicate => "A duplicate scan",
            JobKind::Geometry => "A geometry scan",
            JobKind::Pack => "A pack job",
            JobKind::Unpack => "An unpack job",
            JobKind::Extract => "An extraction",
            JobKind::BatchRender => "A batch render",
        }
    }

    /// Completes "… when it finishes" for the job that was turned away.
    pub fn retry_hint(self) -> (r: &'static str)
        ensures
            r == retry_hint_of(self),
    {
        match self {
            JobKind::Scan => "rescan",
            JobKind::Reclassify => "reclassify designers",
            JobKind::Duplicate => "scan for duplicates",
            JobKind::Geometry => "mine geometry",
            JobKind::Pack => "pack",
            JobKind::Unpack => "unpack",
            JobKind::Extract => "open packed files",
            JobKind::BatchRender => "render previews",
        }
    }

    /// The prefix job ids of this kind carry.
    pub fn prefix(self) -> (r: &'static str)
        ensures
            r == prefix_of(self),
    {
        match self {
            JobKind::Scan => "scan:",
            JobKind::Reclassify => "reclassify:",
            JobKind::Duplicate => "dup:",
            JobKind::Geometry => "geom:",
            JobKind::Pack | JobKind::Unpack => "pack:",
            JobKind::Extract => "extract:",
            JobKind::BatchRender => "batch-render:",
        }
    }
}

/// Whether a job with `want` access may not start while one with `holder`
/// access runs: a byte mover excludes everything, two catalog writers
/// exclude each other, and a reader overlaps any writer.
pub open spec fn conflicts_spec(holder: Access, want: Access) -> bool {
    match (holder, want) {
        (Access::MovesBytes, _) | (_, Access::MovesBytes) => true,
        (Access::WritesCatalog, Access::WritesCatalog) => true,
        _ => false,
    }
}

/// Executable [`conflicts_spec`].
pub fn conflicts(holder: Access, want: Access) -> (r: bool)
    ensures
        r == conflicts_spec(holder, want),
{
    match (holder, want) {
        (Access::MovesBytes, _) | (_, Access::MovesBytes) => true,
        (Access::WritesCatalog, Access::WritesCatalog) => true,
        (Access::ReadsFiles, _) | (_, Access::ReadsFiles) => false,
    }
}

/// Exclusion is mutual: whichever of two jobs came first, they exclude
/// each other or they don't, and a job whose work conflicts with its own
/// kind never runs twice at once.
pub proof fn conflicts_are_mutual(a: Access, b: Access)
    ensures
        conflicts_spec(a, b) == conflicts_spec(b, a),
        conflicts_spec(a, a) == (a != Access::ReadsFiles),
{
}

/// The refusal text for `want` while `holder` runs.
pub open spec fn busy_message(holder: JobKind, want: JobKind) -> Seq<char> {
    if holder == want {
        label_of(holder)@ + " is already running"@
    } else {
        label_of(holder)@ + " is running — "@ + retry_hint_of(want)@ + " when it finishes"@
    }
}

/// The error a refused claim reports.
pub fn busy_error(holder: JobKind, want: JobKind) -> (r: AppError)
    ensures
        r matches AppError::InvalidInput(m) && m@ == busy_message(holder, want),
{
    let mut msg: Vec<char> = Vec::new();
    append_str(&mut msg, holder.label());
    if holder == want {
        append_str(&mut msg, " is already running");
    } else {
        append_str(&mut msg, " is running — ");
        append_str(&mut msg, want.retry_hint());
        append_str(&mut msg, " when it finishes");
    }
    proof {
        assert(msg@ =~= busy_message(holder, want));
    }
    AppError::InvalidInput(string_of(&msg))
}

/// One active job: its id, its kind, and whether it was asked to stop.
#[derive(Debug)]
pub struct ActiveJob {
    pub id: String,
    pub kind: JobKind,
    pub cancelled: bool,
}

/// The abstract state of an active job.
pub type JobEntry = (Seq<char>, JobKind, bool);

/// The registry of active jobs.
#[derive(Debug)]
pub struct JobRegistry {
    jobs: Vec<ActiveJob>,
}

/// The active jobs, in registration order.
pub open spec fn entry_of(j: ActiveJob) -> JobEntry {
    (j.id@, j.kind, j.cancelled)
}

impl View for JobRegistry {
    type V = Seq<JobEntry>;

    closed spec fn view(&self) -> Seq<JobEntry> {
        self.jobs@.map_values(|j: ActiveJob| entry_of(j))
    }
}

/// No two active jobs share an id or conflict with each other.
pub open spec fn consistent(s: Seq<JobEntry>) -> bool {
    forall|i: int, j: int|
        0 <= i < s.len() && 0 <= j < s.len() && i != j ==> #[trigger] s[i].0 != #[trigger] s[j].0
            && !conflicts_spec(access_of(s[i].1), access_of(s[j].1))
}

/// `s` without the entry whose id is `id`.
pub open spec fn without_id(s: Seq<JobEntry>, id: Seq<char>) -> Seq<JobEntry>
    decreases s.len(),
{
    if s.len() == 0 {
        s
    } else if s.last().0 == id {
        without_id(s.drop_last(), id)
    } else {
        without_id(s.drop_last(), id).push(s.last())
    }
}

/// Some active job in `s` has id `id`.
pub open spec fn has_id(s: Seq<JobEntry>, id: Seq<char>) -> bool {
    exists|i: int| 0 <= i < s.len() && #[trigger] s[i].0 == id
}

/// `s` with the job whose id is `id` marked cancelled.
pub open spec fn cancel_id(s: Seq<JobEntry>, id: Seq<char>) -> Seq<JobEntry> {
    s.map_values(|e: JobEntry| if e.0 == id { (e.0, e.1, true) } else { e })
}

/// Every entry of `without_id(s, id)` is an entry of `s` other than `id`.
pub proof fn lemma_without_id_from(s: Seq<JobEntry>, id: Seq<char>)
    ensures
        forall|k: int|
            0 <= k < without_id(s, id).len() ==> (#[trigger] without_id(s, id)[k]).0 != id && exists|
                j: int,
            | 0 <= j < s.len() && s[j] == without_id(s, id)[k],
        without_id(s, id).len() <= s.len(),
    decreases s.len(),
{
    if s.len() > 0 {
        lemma_without_id_from(s.drop_last(), id);
        let r = without_id(s.drop_last(), id);
        assert forall|k: int| 0 <= k < without_id(s, id).len() implies (#[trigger] without_id(
            s,
            id,
        )[k]).0 != id && exists|j: int| 0 <= j < s.len() && s[j] == without_id(s, id)[k] by {
            if k < r.len() {
                assert(without_id(s, id)[k] == r[k]);
                let j = choose|j: int| 0 <= j < s.drop_last().len() && s.drop_last()[j] == r[k];
                assert(s[j] == r[k]);
            } else {
                assert(without_id(s, id)[k] == s.last());
                assert(s[s.len() - 1] == s.last());
            }
        }
    }
}

/// Removing a job keeps a consistent registry consistent.
pub proof fn lemma_without_id_consistent(s: Seq<JobEntry>, id: Seq<char>)
    requires
        consistent(s),
    ensures
        consistent(without_id(s, id)),
    decreases s.len(),
{
    if s.len() > 0 {
        let d = s.drop_last();
        assert(consistent(d)) by {
            assert forall|i: int, j: int|
                0 <= i < d.len() && 0 <= j < d.len() && i != j implies #[trigger] d[i].0
                != #[trigger] d[j].0 && !conflicts_spec(access_of(d[i].1), access_of(d[j].1)) by {
                assert(d[i] == s[i] && d[j] == s[j]);
                assert(s[i].0 != s[j].0);
            }
        }
        lemma_without_id_consistent(d, id);
        if s.last().0 != id {
            let r = without_id(d, id);
            lemma_without_id_from(d, id);
            let t = r.push(s.last());
            assert forall|i: int, j: int|
                0 <= i < t.len() && 0 <= j < t.len() && i != j implies #[trigger] t[i].0
                != #[trigger] t[j].0 && !conflicts_spec(access_of(t[i].1), access_of(t[j].1)) by {
                if i < r.len() && j < r.len() {
                    assert(t[i] == r[i] && t[j] == r[j]);
                } else if i < r.len() {
                    assert(without_id(d, id)[i] == r[i]);
                    let a = choose|a: int| 0 <= a < d.len() && d[a] == r[i];
                    assert(t[i] == s[a]);
                    assert(t[j] == s[s.len() - 1]);
                } else {
                    assert(without_id(d, id)[j] == r[j]);
                    let b = choose|b: int| 0 <= b < d.len() && d[b] == r[j];
                    assert(t[j] == s[b]);
                    assert(t[i] == s[s.len() - 1]);
                }
            }
        }
    }
}

/// A job's claim on the catalog: its id and its kind.
#[derive(Debug)]
pub struct JobPermit {
    id: String,
    kind: JobKind,
}

impl View for JobPermit {
    type V = (Seq<char>, JobKind);

    closed spec fn view(&self) -> (Seq<char>, JobKind) {
        (self.id@, self.kind)
    }
}

impl JobPermit {
    /// The job's id: its kind's prefix followed by a random token.
    pub fn id(&self) -> (r: &str)
        ensures
            r@ == self@.0,
    {
        self.id.as_str()
    }

    /// The kind of job this permit was claimed for.
    pub fn kind(&self) -> (r: JobKind)
        ensures
            r == self@.1,
    {
        self.kind
    }

    /// Whether the job was asked to stop, as the registry it was claimed
    /// from records it.
    pub fn cancel_flag(&self, registry: &JobRegistry) -> (r: bool)
        ensures
            r == exists|i: int|
                0 <= i < registry@.len() && #[trigger] registry@[i].0 == self@.0 && registry@[i].2,
    {
        registry.is_cancelled(self.id.as_str())
    }
}

/// A lowercase hexadecimal digit.
pub open spec fn is_lower_hex(c: char) -> bool {
    ('0' <= c && c <= '9') || ('a' <= c && c <= 'f')
}

/// The hyphenated text form of a UUID: 36 characters, hyphens at 8, 13,
/// 18 and 23, lowercase hexadecimal digits everywhere else.
pub open spec fn is_uuid_text(t: Seq<char>) -> bool {
    &&& t.len() == 36
    &&& forall|i: int|
        0 <= i < 36 ==> if i == 8 || i == 13 || i == 18 || i == 23 {
            #[trigger] t[i] == '-'
        } else {
            is_lower_hex(t[i])
        }
}

/// `uuid::Uuid::new_v4` in its `Display` form: a fresh random token, which
/// that form always writes as the lowercase hyphenated text of the UUID.
/// Which token comes back is chance and is not stated.
#[verifier::external_body]
fn random_token() -> (r: String)
    ensures
        is_uuid_text(r@),
{
    uuid::Uuid::new_v4().to_string()
}

fn same_text(a: &String, b: &str) -> (r: bool)
    ensures
        r == (a@ == b@),
{
    let x = chars_of(a.as_str());
    let y = chars_of(b);
    crate::text::chars_eq(&x, &y)
}

impl JobRegistry {
    /// An empty registry.
    pub fn new() -> (r: JobRegistry)
        ensures
            r@ == Seq::<JobEntry>::empty(),
            consistent(r@),
    {
        let r = JobRegistry { jobs: Vec::new() };
        assert(r@ =~= Seq::<JobEntry>::empty());
        r
    }

    /// The number of active jobs.
    pub fn len(&self) -> (r: usize)
        ensures
            r == self@.len(),
    {
        self.jobs.len()
    }

    /// Index of the first active job whose access conflicts with `want`.
    fn find_conflict(&self, want: Access) -> (r: Option<usize>)
        ensures
            r.is_none() ==> forall|i: int|
                0 <= i < self@.len() ==> !conflicts_spec(access_of(#[trigger] self@[i].1), want),
            r.is_some() ==> r.unwrap() < self@.len() && conflicts_spec(
                access_of(self@[r.unwrap() as int].1),
                want,
            ),
    {
        let mut i: usize = 0;
        while i < self.jobs.len()
            invariant
                0 <= i <= self.jobs.len(),
                self@.len() == self.jobs@.len(),
                forall|k: int| 0 <= k < i ==> !conflicts_spec(access_of(#[trigger] self@[k].1), want),
            decreases self.jobs.len() - i,
        {
            assert(self@[i as int] == entry_of(self.jobs@[i as int]));
            if conflicts(self.jobs[i].kind.access(), want) {
                return Some(i);
            }
            i += 1;
        }
        None
    }

    /// Drops the job with id `id`, if registered.
    fn remove_id(&mut self, id: &str)
        ensures
            final(self)@ == without_id(old(self)@, id@),
    {
        let ghost src = self@;
        let mut kept: Vec<ActiveJob> = Vec::new();
        let mut i: usize = 0;
        while i < self.jobs.len()
            invariant
                0 <= i <= self.jobs.len(),
                src == self@,
                src.len() == self.jobs.len(),
                kept@.map_values(|j: ActiveJob| entry_of(j)) == without_id(src.take(i as int), id@),
            decreases self.jobs.len() - i,
        {
            assert(src[i as int] == entry_of(self.jobs@[i as int]));
            assert(src.take(i + 1).drop_last() =~= src.take(i as int));
            if !same_text(&self.jobs[i].id, id) {
                let job = ActiveJob {
                    id: self.jobs[i].id.clone(),
                    kind: self.jobs[i].kind,
                    cancelled: self.jobs[i].cancelled,
                };
                kept.push(job);
            }
            assert(kept@.map_values(|j: ActiveJob| entry_of(j)) =~= without_id(src.take(i + 1), id@));
            i += 1;
        }
        assert(src.take(src.len() as int) =~= src);
        self.jobs = kept;
    }

    /// Claims the catalog for `kind`, or reports who holds it. The conflict
    /// check and the registration happen in one step, so two jobs can never
    /// both find the catalog free.
    pub fn claim(&mut self, kind: JobKind) -> (r: Result<JobPermit, AppError>)
        requires
            consistent(old(self)@),
        ensures
            consistent(final(self)@),
            r.is_ok() <== forall|i: int|
                0 <= i < old(self)@.len() ==> !conflicts_spec(
                    access_of(#[trigger] old(self)@[i].1),
                    access_of(kind),
                ),
            (exists|i: int|
                0 <= i < old(self)@.len() && conflicts_spec(
                    access_of(#[trigger] old(self)@[i].1),
                    access_of(kind),
                )) ==> r is Err,
            r matches Ok(p) ==> {
                &&& p@.1 == kind
                &&& p@.0.len() == prefix_of(kind)@.len() + 36
                &&& p@.0.take(prefix_of(kind)@.len() as int) == prefix_of(kind)@
                &&& is_uuid_text(p@.0.skip(prefix_of(kind)@.len() as int))
                &&& final(self)@ == without_id(old(self)@, p@.0).push((p@.0, kind, false))
            },
            r matches Err(e) ==> {
                &&& final(self)@ == old(self)@
                &&& exists|i: int|
                    0 <= i < old(self)@.len() && conflicts_spec(
                        access_of(#[trigger] old(self)@[i].1),
                        access_of(kind),
                    ) && e is InvalidInput && e.message_view() == busy_message(old(self)@[i].1, kind)
            },
    {
        match self.find_conflict(kind.access()) {
            Some(i) => {
                let holder = self.jobs[i].kind;
                assert(self@[i as int] == entry_of(self.jobs@[i as int]));
                let e = busy_error(holder, kind);
                Err(e)
            },
            None => {
                let mut idv: Vec<char> = Vec::new();
                append_str(&mut idv, kind.prefix());
                let token = random_token();
                append_str(&mut idv, token.as_str());
                let id = string_of(&idv);
                assert(id@.take(prefix_of(kind)@.len() as int) =~= prefix_of(kind)@);
                assert(id@.skip(prefix_of(kind)@.len() as int) =~= token@);
                let ghost before = self@;
                self.remove_id(id.as_str());
                proof {
                    lemma_without_id_consistent(before, id@);
                    lemma_without_id_from(before, id@);
                }
                let entry = ActiveJob { id: id.clone(), kind, cancelled: false };
                let ghost mid = self@;
                self.jobs.push(entry);
                proof {
                    assert(self@ =~= mid.push((id@, kind, false)));
                    let t = self@;
                    assert forall|a: int, b: int|
                        0 <= a < t.len() && 0 <= b < t.len() && a != b implies #[trigger] t[a].0
                        != #[trigger] t[b].0 && !conflicts_spec(
                        access_of(t[a].1),
                        access_of(t[b].1),
                    ) by {
                        if a < mid.len() && b < mid.len() {
                            assert(t[a] == mid[a] && t[b] == mid[b]);
                        } else if a < mid.len() {
                            assert(without_id(before, id@)[a] == mid[a]);
                            let j = choose|j: int| 0 <= j < before.len() && before[j] == mid[a];
                            assert(!conflicts_spec(access_of(before[j].1), access_of(kind)));
                        } else {
                            assert(without_id(before, id@)[b] == mid[b]);
                            let j = choose|j: int| 0 <= j < before.len() && before[j] == mid[b];
                            assert(!conflicts_spec(access_of(before[j].1), access_of(kind)));
                        }
                    }
                }
                Ok(JobPermit { id, kind })
            },
        }
    }

    /// Ends the job holding `permit`: its claim leaves the registry.
    pub fn release(&mut self, permit: JobPermit)
        requires
            consistent(old(self)@),
        ensures
            consistent(final(self)@),
            final(self)@ == without_id(old(self)@, permit@.0),
    {
        let ghost before = self@;
        self.remove_id(permit.id.as_str());
        proof {
            lemma_without_id_consistent(before, permit@.0);
        }
    }

    /// Asks the running job `job_id` to stop; reports whether there was one.
    pub fn cancel(&mut self, job_id: &str) -> (r: bool)
        requires
            consistent(old(self)@),
        ensures
            consistent(final(self)@),
            r == has_id(old(self)@, job_id@),
            final(self)@ == cancel_id(old(self)@, job_id@),
    {
        let mut found = false;
        let mut i: usize = 0;
        let ghost before = self@;
        let ghost target = cancel_id(before, job_id@);
        while i < self.jobs.len()
            invariant
                0 <= i <= self.jobs.len(),
                self.jobs.len() == before.len(),
                target == cancel_id(before, job_id@),
                forall|k: int| 0 <= k < i ==> entry_of(#[trigger] self.jobs@[k]) == target[k],
                forall|k: int| i <= k < self.jobs.len() ==> entry_of(#[trigger] self.jobs@[k]) == before[k],
                found == exists|k: int| 0 <= k < i && #[trigger] before[k].0 == job_id@,
            decreases self.jobs.len() - i,
        {
            let ghost pre = self.jobs@;
            assert(entry_of(pre[i as int]) == before[i as int]);
            if same_text(&self.jobs[i].id, job_id) {
                self.jobs[i].cancelled = true;
                found = true;
            }
            assert forall|k: int| 0 <= k < self.jobs.len() && k != i implies #[trigger] self.jobs@[k] == pre[k] by {}
            assert(entry_of(self.jobs@[i as int]) == target[i as int]);
            i += 1;
        }
        assert(self@ =~= target);
        proof {
            let t = self@;
            assert forall|a: int, b: int|
                0 <= a < t.len() && 0 <= b < t.len() && a != b implies #[trigger] t[a].0
                != #[trigger] t[b].0 && !conflicts_spec(access_of(t[a].1), access_of(t[b].1)) by {
                assert(t[a].0 == before[a].0 && t[a].1 == before[a].1);
                assert(t[b].0 == before[b].0 && t[b].1 == before[b].1);
            }
        }
        found
    }

    /// Whether the job `job_id` was asked to stop.
    pub fn is_cancelled(&self, job_id: &str) -> (r: bool)
        ensures
            r == exists|i: int|
                0 <= i < self@.len() && #[trigger] self@[i].0 == job_id@ && self@[i].2,
    {
        let mut i: usize = 0;
        while i < self.jobs.len()
            invariant
                0 <= i <= self.jobs.len(),
                self@.len() == self.jobs@.len(),
                forall|k: int| 0 <= k < i ==> !(#[trigger] self@[k].0 == job_id@ && self@[k].2),
            decreases self.jobs.len() - i,
        {
            assert(self@[i as int] == entry_of(self.jobs@[i as int]));
            if self.jobs[i].cancelled && same_text(&self.jobs[i].id, job_id) {
                assert(self@[i as int].0 == job_id@ && self@[i as int].2);
                return true;
            }
            i += 1;
        }
        false
    }
}


/// Asks the running job `job_id` of `registry` to stop. The job owns when
/// it notices; the answer is whether such a job was running.
pub fn cancel(registry: &mut JobRegistry, job_id: &str) -> (r: bool)
    requires
        consistent(old(registry)@),
    ensures
        consistent(final(registry)@),
        r == has_id(old(registry)@, job_id@),
        final(registry)@ == cancel_id(old(registry)@, job_id@),
{
    registry.cancel(job_id)
}

/// `without_id` removes every entry with that id and nothing else.
pub proof fn lemma_without_absent(s: Seq<JobEntry>, id: Seq<char>)
    requires
        !has_id(s, id),
    ensures
        without_id(s, id) == s,
    decreases s.len(),
{
    if s.len() > 0 {
        assert(s[s.len() - 1].0 != id);
        assert(!has_id(s.drop_last(), id)) by {
            if has_id(s.drop_last(), id) {
                let i = choose|i: int| 0 <= i < s.drop_last().len() && #[trigger] s.drop_last()[i].0 == id;
                assert(s[i].0 == id);
            }
        }
        lemma_without_absent(s.drop_last(), id);
        assert(s.drop_last().push(s.last()) =~= s);
    }
}

/// Removing an id twice removes no more than removing it once.
pub proof fn lemma_without_twice(s: Seq<JobEntry>, id: Seq<char>)
    ensures
        without_id(without_id(s, id), id) == without_id(s, id),
{
    lemma_without_id_from(s, id);
    let t = without_id(s, id);
    assert(!has_id(t, id)) by {
        if has_id(t, id) {
            let i = choose|i: int| 0 <= i < t.len() && #[trigger] t[i].0 == id;
        }
    }
    lemma_without_absent(t, id);
}

/// Releasing a job undoes its claim: the registry after `claim` then
/// `release` is the registry before the claim, whenever no job already
/// held the fresh id.
pub proof fn release_undoes_claim(before: Seq<JobEntry>, id: Seq<char>, kind: JobKind)
    requires
        !has_id(before, id),
    ensures
        without_id(without_id(before, id).push((id, kind, false)), id) == before,
{
    let s = without_id(before, id).push((id, kind, false));
    assert(s.drop_last() =~= without_id(before, id));
    assert(s.last().0 == id);
    lemma_without_twice(before, id);
    lemma_without_absent(before, id);
}

/// After `cancel(id)`, the job is cancelled exactly when it was running,
/// every other job keeps its flag, and none comes or goes.
pub proof fn cancel_marks_only_that_job(s: Seq<JobEntry>, id: Seq<char>)
    ensures
        cancel_id(s, id).len() == s.len(),
        forall|i: int| 0 <= i < s.len() ==> (#[trigger] cancel_id(s, id)[i]).0 == s[i].0
            && cancel_id(s, id)[i].1 == s[i].1,
        forall|i: int| 0 <= i < s.len() ==> (#[trigger] cancel_id(s, id)[i]).2 == (s[i].2 || s[i].0 == id),
        has_id(s, id) ==> exists|i: int| 0 <= i < s.len() && #[trigger] cancel_id(s, id)[i].0 == id && cancel_id(s, id)[i].2,
{
    if has_id(s, id) {
        let i = choose|i: int| 0 <= i < s.len() && #[trigger] s[i].0 == id;
        assert(cancel_id(s, id)[i].0 == id && cancel_id(s, id)[i].2);
    }
}


/// `s` without the entries whose id is `id`.
pub open spec fn drop_job(s: Seq<(Seq<char>, bool)>, id: Seq<char>) -> Seq<(Seq<char>, bool)>
    decreases s.len(),
{
    if s.len() == 0 {
        s
    } else if s.last().0 == id {
        drop_job(s.drop_last(), id)
    } else {
        drop_job(s.drop_last(), id).push(s.last())
    }
}

/// Whether some entry of `s` has id `id`.
pub open spec fn holds_job(s: Seq<(Seq<char>, bool)>, id: Seq<char>) -> bool {
    exists|i: int| 0 <= i < s.len() && #[trigger] s[i].0 == id
}

/// `s` with every entry for `id` asked to stop.
pub open spec fn stop_job(s: Seq<(Seq<char>, bool)>, id: Seq<char>) -> Seq<(Seq<char>, bool)> {
    s.map_values(|e: (Seq<char>, bool)| if e.0 == id { (e.0, true) } else { e })
}

/// Dropping an id leaves no entry with it.
pub proof fn lemma_drop_job_gone(s: Seq<(Seq<char>, bool)>, id: Seq<char>)
    ensures
        !holds_job(drop_job(s, id), id),
    decreases s.len(),
{
    if s.len() > 0 {
        lemma_drop_job_gone(s.drop_last(), id);
        let r = drop_job(s.drop_last(), id);
        if holds_job(drop_job(s, id), id) {
            let i = choose|i: int| 0 <= i < drop_job(s, id).len() && #[trigger] drop_job(s, id)[i].0 == id;
            if s.last().0 != id && i == r.len() {
                assert(drop_job(s, id)[i] == s.last());
            } else {
                assert(drop_job(s, id)[i] == r[i]);
            }
        }
    }
}

/// The cancel flags of the catalog's own background jobs (scans and
/// dedupes started from the catalog view), by job id.
#[derive(Debug)]
pub struct CatalogJobs {
    jobs: Vec<(String, bool)>,
}

impl View for CatalogJobs {
    type V = Seq<(Seq<char>, bool)>;

    closed spec fn view(&self) -> Seq<(Seq<char>, bool)> {
        self.jobs@.map_values(|e: (String, bool)| (e.0@, e.1))
    }
}

/// The refusal to cancel a job that is not running.
pub open spec fn no_catalog_job_text(id: Seq<char>) -> Seq<char> {
    "No active catalog job with ID: "@ + id
}

impl CatalogJobs {
    /// No job running.
    pub fn new() -> (r: CatalogJobs)
        ensures
            r@ == Seq::<(Seq<char>, bool)>::empty(),
    {
        let r = CatalogJobs { jobs: Vec::new() };
        assert(r@ =~= Seq::<(Seq<char>, bool)>::empty());
        r
    }

    fn drop_id(&mut self, id: &str)
        ensures
            final(self)@ == drop_job(old(self)@, id@),
    {
        let ghost src = self@;
        let mut kept: Vec<(String, bool)> = Vec::new();
        let mut i: usize = 0;
        while i < self.jobs.len()
            invariant
                0 <= i <= self.jobs.len(),
                src == self@,
                src.len() == self.jobs.len(),
                kept@.map_values(|e: (String, bool)| (e.0@, e.1)) == drop_job(src.take(i as int), id@),
            decreases self.jobs.len() - i,
        {
            assert(src[i as int] == (self.jobs@[i as int].0@, self.jobs@[i as int].1));
            assert(src.take(i + 1).drop_last() =~= src.take(i as int));
            if !same_text(&self.jobs[i].0, id) {
                let e = (self.jobs[i].0.clone(), self.jobs[i].1);
                let ghost pre = kept@;
                kept.push(e);
                assert(kept@.map_values(|e: (String, bool)| (e.0@, e.1)) =~= pre.map_values(|e: (String, bool)| (e.0@, e.1)).push((e.0@, e.1)));
            }
            assert(kept@.map_values(|e: (String, bool)| (e.0@, e.1)) =~= drop_job(src.take(i + 1), id@));
            i += 1;
        }
        assert(src.take(src.len() as int) =~= src);
        self.jobs = kept;
    }

    /// Registers job `id` with its cancel flag down (replacing any entry
    /// with the same id).
    pub fn register_job(&mut self, id: &str)
        ensures
            final(self)@ == drop_job(old(self)@, id@).push((id@, false)),
    {
        self.drop_id(id);
        let ghost pre = self@;
        self.jobs.push((crate::text::string_from_str(id), false));
        assert(self@ =~= pre.push((id@, false)));
    }

    /// Forgets job `id` once it ended.
    pub fn unregister_job(&mut self, id: &str)
        ensures
            final(self)@ == drop_job(old(self)@, id@),
    {
        self.drop_id(id);
    }

    /// Asks job `id` to stop; refused when no such job is running.
    pub fn cancel_catalog_job(&mut self, id: &str) -> (r: Result<(), AppError>)
        ensures
            holds_job(old(self)@, id@) ==> r is Ok && final(self)@ == stop_job(old(self)@, id@),
            !holds_job(old(self)@, id@) ==> (r matches Err(AppError::NotFoundError(m)) && m@ == no_catalog_job_text(id@))
                && final(self)@ == old(self)@,
    {
        let ghost before = self@;
        let ghost target = stop_job(before, id@);
        let mut found = false;
        let mut i: usize = 0;
        while i < self.jobs.len()
            invariant
                0 <= i <= self.jobs.len(),
                self.jobs.len() == before.len(),
                target == stop_job(before, id@),
                forall|k: int| 0 <= k < i ==> (self.jobs@[k].0@, self.jobs@[k].1) == #[trigger] target[k],
                forall|k: int| i <= k < self.jobs.len() ==> (self.jobs@[k].0@, self.jobs@[k].1) == #[trigger] before[k],
                found == exists|k: int| 0 <= k < i && #[trigger] before[k].0 == id@,
            decreases self.jobs.len() - i,
        {
            let ghost pre = self.jobs@;
            assert((pre[i as int].0@, pre[i as int].1) == before[i as int]);
            if same_text(&self.jobs[i].0, id) {
                self.jobs[i].1 = true;
                found = true;
            }
            assert forall|k: int| 0 <= k < self.jobs.len() && k != i implies #[trigger] self.jobs@[k] == pre[k] by {}
            assert((self.jobs@[i as int].0@, self.jobs@[i as int].1) == target[i as int]);
            i += 1;
        }
        if found {
            assert(self@ =~= target);
            Ok(())
        } else {
            assert(self@ =~= target);
            assert forall|k: int| 0 <= k < before.len() implies #[trigger] target[k] == before[k] by {
                if before[k].0 == id@ {
                    assert(exists|x: int| 0 <= x < i && #[trigger] before[x].0 == id@);
                }
            }
            assert(target =~= before);
            let mut m: Vec<char> = Vec::new();
            append_str(&mut m, "No active catalog job with ID: ");
            append_str(&mut m, id);
            Err(AppError::NotFoundError(string_of(&m)))
        }
    }

    /// Whether job `id` was asked to stop.
    pub fn is_cancelled(&self, id: &str) -> (r: bool)
        ensures
            r == exists|i: int| 0 <= i < self@.len() && #[trigger] self@[i].0 == id@ && self@[i].1,
    {
        let mut i: usize = 0;
        while i < self.jobs.len()
            invariant
                0 <= i <= self.jobs.len(),
                self@.len() == self.jobs@.len(),
                forall|k: int| 0 <= k < i ==> !(#[trigger] self@[k].0 == id@ && self@[k].1),
            decreases self.jobs.len() - i,
        {
            assert(self@[i as int] == (self.jobs@[i as int].0@, self.jobs@[i as int].1));
            if self.jobs[i].1 && same_text(&self.jobs[i].0, id) {
                assert(self@[i as int].0 == id@ && self@[i as int].1);
                return true;
            }
            i += 1;
        }
        false
    }
}

/// A job can be cancelled from its registration until it is unregistered:
/// right after `register_job(id)` the id is held (so cancelling it
/// succeeds), and right after `unregister_job(id)` it is not (so
/// cancelling it is refused).
pub proof fn registered_jobs_can_be_cancelled(s: Seq<(Seq<char>, bool)>, id: Seq<char>)
    ensures
        holds_job(drop_job(s, id).push((id, false)), id),
        !holds_job(drop_job(s, id), id),
{
    let t = drop_job(s, id).push((id, false));
    assert(t[t.len() - 1].0 == id);
    lemma_drop_job_gone(s, id);
}

} // verus!

verus! {

/// The kinds of job that rewrite catalog rows: scans, designer
/// reclassification, duplicate and geometry scans, batch renders.
pub open spec fn rewrites_catalog(k: JobKind) -> bool {
    k == JobKind::Scan || k == JobKind::Reclassify || k == JobKind::Duplicate || k == JobKind::Geometry
        || k == JobKind::BatchRender
}

/// The kinds of job that move or delete bytes: packing and unpacking.
pub open spec fn moves_bytes(k: JobKind) -> bool {
    k == JobKind::Pack || k == JobKind::Unpack
}

/// Which jobs keep each other out: a job that moves bytes excludes every
/// other job, two jobs that rewrite catalog rows exclude each other, and
/// an extraction (which only reads) overlaps any catalog writer — so a
/// claim for `want` is refused while `holder` runs exactly in those cases.
pub proof fn jobs_that_exclude_each_other(holder: JobKind, want: JobKind)
    ensures
        conflicts_spec(access_of(holder), access_of(want)) == (moves_bytes(holder) || moves_bytes(want) || (
        rewrites_catalog(holder) && rewrites_catalog(want))),
        rewrites_catalog(holder) && rewrites_catalog(want) ==> conflicts_spec(access_of(holder), access_of(want)),
        rewrites_catalog(holder) && want == JobKind::Extract ==> !conflicts_spec(access_of(holder), access_of(want)),
{
}

} // verus!
