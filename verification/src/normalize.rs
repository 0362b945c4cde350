//! Planning the on-disk normalizer: which folders and files move where so
//! the disk matches the curated catalog's canonical layout. The plan is
//! computed from what the catalog index says (members, their files and
//! where the layout wants them) and from what the disk says about file
//! contents; carrying it out is the caller's.
use vstd::prelude::*;
use crate::catalog::{image_extension, is_image_extension};
use crate::manifest::components_of;
use crate::paths::{extension_of, path_extension};
use crate::text::{
    append_chars, append_str, chars_eq, chars_eq_ignore_ascii_case, chars_of, eq_ignore_ascii_case, trim, trim_chars, decimal, decimal_exec, lowercase, slice,
    starts_with, starts_with_exec, string_of, to_lowercase,
};

verus! {

/// `child` is `base` itself or lies beneath it, segment-aware: a separator
/// must follow `base` ("/lib/ab" is not under "/lib/a").
pub open spec fn under_sep(child: Seq<char>, base: Seq<char>, sep: char) -> bool {
    ||| child == base
    ||| child.len() > base.len() && starts_with(child, base) && child[base.len() as int] == sep
}

/// Whether `child` is `base` or lies beneath it, with `sep` separating
/// segments.
pub fn is_under(child: &str, base: &str, sep: char) -> (r: bool)
    ensures
        r == under_sep(child@, base@, sep),
{
    let c = chars_of(child);
    let b = chars_of(base);
    under_chars(&c, &b, sep)
}

fn under_chars(c: &Vec<char>, b: &Vec<char>, sep: char) -> (r: bool)
    ensures
        r == under_sep(c@, b@, sep),
{
    if chars_eq(c, b) {
        return true;
    }
    c.len() > b.len() && starts_with_exec(c, b) && c[b.len()] == sep
}

/// The text of an optional string.
pub open spec fn opt_text(o: Option<String>) -> Option<Seq<char>> {
    match o {
        Some(s) => Some(s@),
        None => None,
    }
}

/// The first set value of `values` from index `j` on.
pub open spec fn first_some_spec(values: Seq<Option<String>>, j: int) -> Option<Seq<char>>
    decreases values.len() - j,
{
    if j < 0 || j >= values.len() {
        None
    } else if values[j] is Some {
        opt_text(values[j])
    } else {
        first_some_spec(values, j + 1)
    }
}

/// The first member value that is set (members in catalog order).
pub fn first_some(values: &Vec<Option<String>>) -> (r: Option<String>)
    ensures
        opt_text(r) == first_some_spec(values@, 0),
{
    let mut j: usize = 0;
    while j < values.len()
        invariant
            0 <= j <= values.len(),
            first_some_spec(values@, 0) == first_some_spec(values@, j as int),
        decreases values.len() - j,
    {
        match &values[j] {
            Some(v) => {
                return Some(v.clone());
            },
            None => {},
        }
        j += 1;
    }
    None
}

/// What the disk says about one file's bytes: its physical identity, its
/// size and its full hash, each when it could be read.
#[derive(Debug, Clone)]
pub struct ContentFacts {
    pub path: String,
    pub identity: Option<String>,
    pub size: Option<u64>,
    pub hash: Option<String>,
}

/// Two files hold the same bytes: one physical file (a shared identity),
/// or the same size and the same full hash.
pub open spec fn same_content_spec(a: ContentFacts, b: ContentFacts) -> bool {
    ||| a.identity is Some && b.identity is Some && opt_text(a.identity) == opt_text(b.identity)
    ||| a.size is Some && b.size is Some && a.size == b.size && a.hash is Some && b.hash is Some
        && opt_text(a.hash) == opt_text(b.hash)
}

fn same_opt(a: &Option<String>, b: &Option<String>) -> (r: bool)
    ensures
        r == (a is Some && b is Some && opt_text(*a) == opt_text(*b)),
{
    match (a, b) {
        (Some(x), Some(y)) => {
            let xv = chars_of(x.as_str());
            let yv = chars_of(y.as_str());
            chars_eq(&xv, &yv)
        },
        _ => false,
    }
}

/// Whether two files hold the same bytes, by what the disk said of them.
pub fn same_content(a: &ContentFacts, b: &ContentFacts) -> (r: bool)
    ensures
        r == same_content_spec(*a, *b),
{
    if same_opt(&a.identity, &b.identity) {
        return true;
    }
    match (a.size, b.size) {
        (Some(x), Some(y)) => x == y && same_opt(&a.hash, &b.hash),
        _ => false,
    }
}

/// The facts recorded for `path` (the first record for it), or nothing
/// known when none is.
pub open spec fn facts_for(facts: Seq<ContentFacts>, path: Seq<char>, j: int) -> Option<int>
    decreases facts.len() - j,
{
    if j < 0 || j >= facts.len() {
        None
    } else if facts[j].path@ == path {
        Some(j)
    } else {
        facts_for(facts, path, j + 1)
    }
}

/// Whether the files at `a` and `b` hold the same bytes; a file nothing
/// could be read of holds nothing in common with anything.
pub open spec fn same_files(facts: Seq<ContentFacts>, a: Seq<char>, b: Seq<char>) -> bool {
    match (facts_for(facts, a, 0), facts_for(facts, b, 0)) {
        (Some(i), Some(j)) => same_content_spec(facts[i], facts[j]),
        _ => false,
    }
}

fn facts_for_exec(facts: &Vec<ContentFacts>, path: &Vec<char>) -> (r: Option<usize>)
    ensures
        r.is_some() == facts_for(facts@, path@, 0).is_some(),
        r matches Some(j) ==> j as int == facts_for(facts@, path@, 0).unwrap() && j < facts.len(),
{
    let mut j: usize = 0;
    while j < facts.len()
        invariant
            0 <= j <= facts.len(),
            facts_for(facts@, path@, 0) == facts_for(facts@, path@, j as int),
        decreases facts.len() - j,
    {
        let pv = chars_of(facts[j].path.as_str());
        if chars_eq(&pv, path) {
            return Some(j);
        }
        j += 1;
    }
    None
}

fn same_files_exec(facts: &Vec<ContentFacts>, a: &Vec<char>, b: &Vec<char>) -> (r: bool)
    ensures
        r == same_files(facts@, a@, b@),
{
    match (facts_for_exec(facts, a), facts_for_exec(facts, b)) {
        (Some(i), Some(j)) => same_content(&facts[i], &facts[j]),
        _ => false,
    }
}

/// Index of the last `.` in `s`, if any.
pub open spec fn last_dot(s: Seq<char>) -> Option<int>
    decreases s.len(),
{
    if s.len() == 0 {
        None
    } else if s.last() == '.' {
        Some(s.len() - 1)
    } else {
        last_dot(s.drop_last())
    }
}

/// A file name split for numbering: the stem and, when the last `.` has a
/// non-empty stem before it, the extension after it.
pub open spec fn stem_ext(name: Seq<char>) -> (Seq<char>, Option<Seq<char>>) {
    match last_dot(name) {
        Some(k) => if k > 0 {
            (name.take(k), Some(name.subrange(k + 1, name.len() as int)))
        } else {
            (name, None)
        },
        None => (name, None),
    }
}

/// The `n`-th numbered spelling of `name`: "oval.stl" becomes "oval 2.stl".
pub open spec fn numbered(name: Seq<char>, n: nat) -> Seq<char> {
    let (stem, ext) = stem_ext(name);
    match ext {
        Some(e) => stem + " "@ + decimal(n) + "."@ + e,
        None => stem + " "@ + decimal(n),
    }
}

/// The claimed names (lowercased) of a merge bucket, with the original
/// path of the file that claimed each.
pub open spec fn keys_of(used: Seq<(String, String)>) -> Seq<Seq<char>> {
    used.map_values(|u: (String, String)| u.0@)
}

/// The largest number a numbered name may carry.
pub const MAX_NUMBER: u64 = 2147483647;

/// Whether the `n`-th numbered spelling of `name` is free.
pub open spec fn numbered_free(name: Seq<char>, n: nat, taken: Seq<Seq<char>>) -> bool {
    !taken.contains(lowercase(numbered(name, n)))
}

fn last_dot_exec(v: &Vec<char>) -> (r: Option<usize>)
    ensures
        r.is_some() == last_dot(v@).is_some(),
        r matches Some(k) ==> k as int == last_dot(v@).unwrap() && k < v.len(),
{
    let mut end = v.len();
    assert(v@.take(end as int) =~= v@);
    while end > 0 && v[end - 1] != '.'
        invariant
            end <= v.len(),
            last_dot(v@) == last_dot(v@.take(end as int)),
        decreases end,
    {
        assert(v@.take(end as int).drop_last() =~= v@.take(end - 1));
        end -= 1;
    }
    if end == 0 {
        None
    } else {
        Some(end - 1)
    }
}

fn numbered_exec(name: &Vec<char>, n: u64) -> (r: Vec<char>)
    ensures
        r@ == numbered(name@, n as nat),
{
    let (mut out, ext) = match last_dot_exec(name) {
        Some(k) => if k > 0 {
            (slice(name, 0, k), Some(slice(name, k + 1, name.len())))
        } else {
            (name.clone(), None)
        },
        None => (name.clone(), None),
    };
    proof {
        if let Some(k) = last_dot(name@) {
            if k > 0 {
                assert(name@.subrange(0, k) =~= name@.take(k));
            }
        }
    }
    append_str(&mut out, " ");
    let d = decimal_exec(n);
    append_chars(&mut out, &d);
    match ext {
        Some(e) => {
            append_str(&mut out, ".");
            append_chars(&mut out, &e);
        },
        None => {},
    }
    out
}

fn key_taken(used: &Vec<(String, String)>, key: &Vec<char>) -> (r: bool)
    ensures
        r == keys_of(used@).contains(key@),
{
    let mut j: usize = 0;
    while j < used.len()
        invariant
            0 <= j <= used.len(),
            forall|x: int| 0 <= x < j ==> keys_of(used@)[x] != key@,
        decreases used.len() - j,
    {
        let kv = chars_of(used[j].0.as_str());
        if chars_eq(&kv, key) {
            assert(keys_of(used@)[j as int] == key@);
            return true;
        }
        j += 1;
    }
    false
}

/// The first number from `n` on (up to [`MAX_NUMBER`]) whose spelling of
/// `name` is free.
pub open spec fn first_free_from(name: Seq<char>, taken: Seq<Seq<char>>, n: int) -> Option<nat>
    decreases MAX_NUMBER + 1 - n,
{
    if n < 2 || n > MAX_NUMBER {
        None
    } else if numbered_free(name, n as nat, taken) {
        Some(n as nat)
    } else {
        first_free_from(name, taken, n + 1)
    }
}

/// The numbered spelling a clashing name gets, if any is free.
pub open spec fn numbered_spec(name: Seq<char>, taken: Seq<Seq<char>>) -> Option<Seq<char>> {
    match first_free_from(name, taken, 2) {
        Some(n) => Some(numbered(name, n)),
        None => None,
    }
}

/// "oval.stl" → "oval 2.stl", "oval 3.stl", …: the first numbered spelling
/// whose lowercase no file of the bucket claimed yet; `None` only when
/// every number up to [`MAX_NUMBER`] is taken.
pub fn numbered_name(name: &str, used: &Vec<(String, String)>) -> (r: Option<String>)
    ensures
        opt_text(r) == numbered_spec(name@, keys_of(used@)),
{
    let nv = chars_of(name);
    let mut n: u64 = 2;
    while n <= MAX_NUMBER
        invariant
            2 <= n <= MAX_NUMBER + 1,
            nv@ == name@,
            first_free_from(name@, keys_of(used@), 2) == first_free_from(name@, keys_of(used@), n as int),
        decreases MAX_NUMBER + 1 - n,
    {
        let cand = numbered_exec(&nv, n);
        let s = string_of(&cand);
        let lower = to_lowercase(s.as_str());
        let lv = chars_of(lower.as_str());
        if !key_taken(used, &lv) {
            assert(numbered_free(name@, n as nat, keys_of(used@)));
            return Some(s);
        }
        n += 1;
    }
    None
}

/// One planned move: `kind` is "dir" (rename a folder), "file" (move a
/// file), "drop" (`from` is a redundant copy of `to`) or "pose" (record
/// the pose of a file that stays put).
#[derive(Debug, Clone)]
pub struct NormalizeOp {
    pub from: String,
    pub to: String,
    pub kind: String,
    pub pose: Option<String>,
}

/// A planned move by its text: (from, to, kind, pose).
pub type OpView = (Seq<char>, Seq<char>, Seq<char>, Option<Seq<char>>);

pub open spec fn op_view(o: NormalizeOp) -> OpView {
    (o.from@, o.to@, o.kind@, opt_text(o.pose))
}

pub open spec fn ops_view(v: Seq<NormalizeOp>) -> Seq<OpView> {
    v.map_values(|o: NormalizeOp| op_view(o))
}

pub open spec fn texts(v: Seq<String>) -> Seq<Seq<char>> {
    v.map_values(|s: String| s@)
}

/// The claims of a merge bucket by their text: (lowercased name, original
/// path of the claiming file).
pub open spec fn claims_view(v: Seq<(String, String)>) -> Seq<(Seq<char>, Seq<char>)> {
    v.map_values(|u: (String, String)| (u.0@, u.1@))
}

/// Index of the claim on `key`, from `j` on.
pub open spec fn claim_of(used: Seq<(Seq<char>, Seq<char>)>, key: Seq<char>, j: int) -> Option<int>
    decreases used.len() - j,
{
    if j < 0 || j >= used.len() {
        None
    } else if used[j].0 == key {
        Some(j)
    } else {
        claim_of(used, key, j + 1)
    }
}

/// `leaf` + separator + `name`.
pub open spec fn in_dir(leaf: Seq<char>, sep: char, name: Seq<char>) -> Seq<char> {
    leaf.push(sep) + name
}

/// The note a name clash between different contents leaves.
pub open spec fn clash_note(desired: Seq<char>, target: Seq<char>) -> Seq<char> {
    desired + " exists twice with different contents — one becomes "@ + target
}

/// What planning one file's landing spot in a merge bucket does to the
/// plan: (ops, notes, claims, whether numbering ran out).
///
/// The file sits at `current` and wants the name `desired` in `leaf`. A
/// file byte-identical to the one already claiming the name becomes a
/// "drop"; a file that merely shares the name gets the first free
/// numbered one (and a note); the name is then claimed, and the file moves
/// there, or stays with its pose recorded.
pub open spec fn place_spec(
    ops: Seq<OpView>,
    notes: Seq<Seq<char>>,
    used: Seq<(Seq<char>, Seq<char>)>,
    facts: Seq<ContentFacts>,
    current: Seq<char>,
    path: Seq<char>,
    desired: Seq<char>,
    pose: Option<Seq<char>>,
    leaf: Seq<char>,
    sep: char,
) -> (Seq<OpView>, Seq<Seq<char>>, Seq<(Seq<char>, Seq<char>)>, bool) {
    let key = lowercase(desired);
    let claim = claim_of(used, key, 0);
    if claim is Some && same_files(facts, used[claim.unwrap()].1, path) {
        (ops.push((current, in_dir(leaf, sep, desired), "drop"@, None)), notes, used, false)
    } else {
        let keys = used.map_values(|u: (Seq<char>, Seq<char>)| u.0);
        let target = if claim is Some { numbered_spec(desired, keys) } else { Some(desired) };
        match target {
            None => (ops, notes, used, true),
            Some(t) => {
                let notes2 = if claim is Some { notes.push(clash_note(desired, t)) } else { notes };
                let used2 = used.push((lowercase(t), path));
                let to = in_dir(leaf, sep, t);
                let ops2 = if current != to {
                    ops.push((current, to, "file"@, pose))
                } else if pose is Some {
                    ops.push((current, to, "pose"@, pose))
                } else {
                    ops
                };
                (ops2, notes2, used2, false)
            },
        }
    }
}

fn claim_of_exec(used: &Vec<(String, String)>, key: &Vec<char>) -> (r: Option<usize>)
    ensures
        r.is_some() == claim_of(claims_view(used@), key@, 0).is_some(),
        r matches Some(j) ==> j as int == claim_of(claims_view(used@), key@, 0).unwrap() && j < used.len(),
{
    let mut j: usize = 0;
    while j < used.len()
        invariant
            0 <= j <= used.len(),
            claim_of(claims_view(used@), key@, 0) == claim_of(claims_view(used@), key@, j as int),
        decreases used.len() - j,
    {
        let kv = chars_of(used[j].0.as_str());
        if chars_eq(&kv, key) {
            return Some(j);
        }
        j += 1;
    }
    None
}

fn clone_opt(o: &Option<String>) -> (r: Option<String>)
    ensures
        opt_text(r) == opt_text(*o),
{
    match o {
        Some(s) => Some(s.clone()),
        None => None,
    }
}

fn lit(s: &str) -> (r: String)
    ensures
        r@ == s@,
{
    crate::text::string_from_str(s)
}

fn in_dir_exec(leaf: &str, sep: char, name: &str) -> (r: String)
    ensures
        r@ == in_dir(leaf@, sep, name@),
{
    let mut v = chars_of(leaf);
    v.push(sep);
    append_str(&mut v, name);
    string_of(&v)
}

/// Plans one file's landing spot in a merge bucket (see [`place_spec`]);
/// reports whether numbering ran out.
pub fn place_file(
    ops: &mut Vec<NormalizeOp>,
    notes: &mut Vec<String>,
    used: &mut Vec<(String, String)>,
    facts: &Vec<ContentFacts>,
    current: String,
    path: &str,
    desired: &str,
    pose: &Option<String>,
    leaf: &str,
    sep: char,
) -> (exhausted: bool)
    ensures
        (ops_view(final(ops)@), texts(final(notes)@), claims_view(final(used)@), exhausted) == place_spec(
            ops_view(old(ops)@),
            texts(old(notes)@),
            claims_view(old(used)@),
            facts@,
            current@,
            path@,
            desired@,
            opt_text(*pose),
            leaf@,
            sep,
        ),
{
    let lower = to_lowercase(desired);
    let key = chars_of(lower.as_str());
    let claim = claim_of_exec(used, &key);
    let pv = chars_of(path);
    let ghost ops0 = ops_view(ops@);
    let ghost notes0 = texts(notes@);
    let ghost used0 = claims_view(used@);
    let ghost keys0 = used0.map_values(|u: (Seq<char>, Seq<char>)| u.0);
    assert(keys0 =~= keys_of(used@));
    let mut clash = false;
    match claim {
        Some(k) => {
            let kept = chars_of(used[k].1.as_str());
            if same_files_exec(facts, &kept, &pv) {
                let to = in_dir_exec(leaf, sep, desired);
                let op = NormalizeOp { from: current, to, kind: lit("drop"), pose: None };
                ops.push(op);
                assert(ops_view(ops@) =~= ops0.push(op_view(op)));
                return false;
            }
            clash = true;
        },
        None => {},
    }
    let target: String = if clash {
        match numbered_name(desired, used) {
            Some(t) => t,
            None => {
                return true;
            },
        }
    } else {
        lit(desired)
    };
    if clash {
        let mut note = chars_of(desired);
        append_str(&mut note, " exists twice with different contents — one becomes ");
        append_str(&mut note, target.as_str());
        assert(note@ =~= clash_note(desired@, target@));
        let n = string_of(&note);
        notes.push(n);
        assert(texts(notes@) =~= notes0.push(n@));
    }
    let tl = to_lowercase(target.as_str());
    let claim_entry = (tl, lit(path));
    used.push(claim_entry);
    assert(claims_view(used@) =~= used0.push((lowercase(target@), path@)));
    let to = in_dir_exec(leaf, sep, target.as_str());
    let cv = chars_of(current.as_str());
    let tv = chars_of(to.as_str());
    if !chars_eq(&cv, &tv) {
        let op = NormalizeOp { from: current, to, kind: lit("file"), pose: clone_opt(pose) };
        ops.push(op);
        assert(ops_view(ops@) =~= ops0.push(op_view(op)));
    } else if pose.is_some() {
        let op = NormalizeOp { from: current, to, kind: lit("pose"), pose: clone_opt(pose) };
        ops.push(op);
        assert(ops_view(ops@) =~= ops0.push(op_view(op)));
    }
    false
}


/// One file of a member directory, as the index lists it: its path, its
/// name, and the name the layout wants for it in its build folder (the
/// pose baked in).
#[derive(Debug, Clone)]
pub struct PlanFile {
    pub path: String,
    pub file_name: String,
    pub desired_name: String,
}

/// One member directory of a model group: where it is, its pose, the
/// build folder (leaf) the layout wants it in, and its files in name order.
#[derive(Debug, Clone)]
pub struct PlanMember {
    pub dir: String,
    pub pose: Option<String>,
    pub leaf: String,
    pub files: Vec<PlanFile>,
}

/// The planning state of one group: the moves so far, the notes, the
/// directories that empty out, the names claimed in the current build
/// folder, whether a member already anchors it, and whether numbering ran
/// out.
pub struct PlanSt {
    pub ops: Seq<OpView>,
    pub notes: Seq<Seq<char>>,
    pub old_dirs: Seq<Seq<char>>,
    pub used: Seq<(Seq<char>, Seq<char>)>,
    pub anchored: bool,
    pub exhausted: bool,
}

/// The catalog's own sidecars die with their directory; they never move.
pub open spec fn is_sidecar(name: Seq<char>) -> bool {
    name == "model.json"@ || name == "release.json"@
}

/// Where a file of member `dir` sits when its bucket is planned: inside
/// the leaf already when its member anchored the leaf, else at its member
/// directory's current spot `cur_dir`.
pub open spec fn file_current(f: PlanFile, anchor: bool, leaf: Seq<char>, sep: char, cur_dir: Seq<char>, dir: Seq<char>) -> Seq<char> {
    if anchor {
        in_dir(leaf, sep, f.file_name@)
    } else {
        cur_dir + f.path@.subrange(dir.len() as int, f.path@.len() as int)
    }
}

/// Planning one file (sidecars skipped; nothing more once numbering ran
/// out).
pub open spec fn file_step(
    st: PlanSt,
    facts: Seq<ContentFacts>,
    f: PlanFile,
    current: Seq<char>,
    pose: Option<Seq<char>>,
    leaf: Seq<char>,
    sep: char,
) -> PlanSt {
    if st.exhausted || is_sidecar(f.file_name@) {
        st
    } else {
        let r = place_spec(st.ops, st.notes, st.used, facts, current, f.path@, f.desired_name@, pose, leaf, sep);
        PlanSt { ops: r.0, notes: r.1, old_dirs: st.old_dirs, used: r.2, anchored: st.anchored, exhausted: r.3 }
    }
}

/// Planning the first `k` files of a member.
pub open spec fn files_fold(
    st: PlanSt,
    facts: Seq<ContentFacts>,
    files: Seq<PlanFile>,
    k: int,
    anchor: bool,
    leaf: Seq<char>,
    sep: char,
    cur_dir: Seq<char>,
    dir: Seq<char>,
    pose: Option<Seq<char>>,
) -> PlanSt
    decreases k,
{
    if k <= 0 || k > files.len() {
        st
    } else {
        let prev = files_fold(st, facts, files, k - 1, anchor, leaf, sep, cur_dir, dir, pose);
        file_step(prev, facts, files[k - 1], file_current(files[k - 1], anchor, leaf, sep, cur_dir, dir), pose, leaf, sep)
    }
}

/// Some other member currently sits beneath member `i` (so `i` cannot be
/// renamed as a whole).
pub open spec fn nested_parent(cur: Seq<Seq<char>>, i: int, sep: char) -> bool {
    exists|j: int| 0 <= j < cur.len() && j != i && under_sep(#[trigger] cur[j], cur[i], sep) && cur[j] != cur[i]
}

/// Another member sits exactly at `leaf` but belongs elsewhere.
pub open spec fn leaf_held(cur: Seq<Seq<char>>, leaves: Seq<Seq<char>>, i: int, leaf: Seq<char>) -> bool {
    exists|j: int| 0 <= j < cur.len() && j != i && #[trigger] cur[j] == leaf && leaves[j] != leaf
}

/// The desired leaves of the members.
pub open spec fn leaves_of(members: Seq<PlanMember>) -> Seq<Seq<char>> {
    members.map_values(|m: PlanMember| m.leaf@)
}

/// The directories of the members.
pub open spec fn dirs_of(members: Seq<PlanMember>) -> Seq<Seq<char>> {
    members.map_values(|m: PlanMember| m.dir@)
}

/// Member `i` becomes its leaf by one folder rename: it is there already,
/// or no member anchors the leaf yet, no other member sits beneath it, the
/// leaf is not inside it, and no other member occupies the leaf.
pub open spec fn can_anchor(anchored: bool, cur: Seq<Seq<char>>, leaves: Seq<Seq<char>>, i: int, leaf: Seq<char>, sep: char) -> bool {
    ||| cur[i] == leaf
    ||| !anchored && !nested_parent(cur, i, sep) && !under_sep(leaf, cur[i], sep) && !leaf_held(cur, leaves, i, leaf)
}

/// The note left when a member's files merge but folders nested under it
/// stay.
pub open spec fn nested_note(dir: Seq<char>) -> Seq<char> {
    "nested folders under "@ + dir + " were left in place"@
}

/// Some catalog directory lies strictly beneath `dir`.
pub open spec fn has_nested(all_dirs: Seq<Seq<char>>, dir: Seq<char>, sep: char) -> bool {
    exists|k: int| 0 <= k < all_dirs.len() && starts_with(#[trigger] all_dirs[k], dir.push(sep))
}

/// Planning member `i` of a bucket for `leaf`: anchor the leaf with a
/// folder rename when possible (its files then take their pose-suffixed
/// names only when several members merge), else move its files in one by
/// one, note nested folders that stay, and mark its spot as emptied.
pub open spec fn member_step(
    st: PlanSt,
    members: Seq<PlanMember>,
    cur: Seq<Seq<char>>,
    all_dirs: Seq<Seq<char>>,
    facts: Seq<ContentFacts>,
    i: int,
    leaf: Seq<char>,
    merging: bool,
    sep: char,
) -> PlanSt {
    let m = members[i];
    if st.exhausted {
        st
    } else if can_anchor(st.anchored, cur, leaves_of(members), i, leaf, sep) {
        let st1 = PlanSt {
            ops: if cur[i] != leaf { st.ops.push((cur[i], leaf, "dir"@, None)) } else { st.ops },
            notes: st.notes,
            old_dirs: st.old_dirs,
            used: st.used,
            anchored: true,
            exhausted: st.exhausted,
        };
        if merging {
            files_fold(st1, facts, m.files@, m.files@.len() as int, true, leaf, sep, cur[i], m.dir@, opt_text(m.pose))
        } else {
            st1
        }
    } else {
        let st1 = files_fold(st, facts, m.files@, m.files@.len() as int, false, leaf, sep, cur[i], m.dir@, opt_text(m.pose));
        if st1.exhausted {
            st1
        } else {
            let notes2 = if has_nested(all_dirs, m.dir@, sep) { st1.notes.push(nested_note(m.dir@)) } else { st1.notes };
            let old2 = if st1.old_dirs.contains(cur[i]) { st1.old_dirs } else { st1.old_dirs.push(cur[i]) };
            PlanSt { ops: st1.ops, notes: notes2, old_dirs: old2, used: st1.used, anchored: st1.anchored, exhausted: false }
        }
    }
}

/// Planning the members among the first `k` whose leaf is `leaf`, in
/// member order.
pub open spec fn bucket_fold(
    st: PlanSt,
    members: Seq<PlanMember>,
    cur: Seq<Seq<char>>,
    all_dirs: Seq<Seq<char>>,
    facts: Seq<ContentFacts>,
    leaf: Seq<char>,
    merging: bool,
    sep: char,
    k: int,
) -> PlanSt
    decreases k,
{
    if k <= 0 || k > members.len() {
        st
    } else {
        let prev = bucket_fold(st, members, cur, all_dirs, facts, leaf, merging, sep, k - 1);
        if members[k - 1].leaf@ == leaf {
            member_step(prev, members, cur, all_dirs, facts, k - 1, leaf, merging, sep)
        } else {
            prev
        }
    }
}

/// How many of the first `k` members want `leaf`.
pub open spec fn bucket_size(members: Seq<PlanMember>, leaf: Seq<char>, k: int) -> nat
    decreases k,
{
    if k <= 0 || k > members.len() {
        0
    } else if members[k - 1].leaf@ == leaf {
        bucket_size(members, leaf, k - 1) + 1
    } else {
        bucket_size(members, leaf, k - 1)
    }
}

/// Planning one leaf's bucket: claims start afresh and nobody anchors yet.
pub open spec fn run_bucket(
    st: PlanSt,
    members: Seq<PlanMember>,
    cur: Seq<Seq<char>>,
    all_dirs: Seq<Seq<char>>,
    facts: Seq<ContentFacts>,
    leaf: Seq<char>,
    sep: char,
) -> PlanSt {
    let fresh = PlanSt { ops: st.ops, notes: st.notes, old_dirs: st.old_dirs, used: Seq::empty(), anchored: false, exhausted: st.exhausted };
    bucket_fold(fresh, members, cur, all_dirs, facts, leaf, bucket_size(members, leaf, members.len() as int) > 1, sep, members.len() as int)
}

/// Planning the buckets of the first `k` leaves of `order`.
pub open spec fn buckets_fold(
    st: PlanSt,
    members: Seq<PlanMember>,
    cur: Seq<Seq<char>>,
    all_dirs: Seq<Seq<char>>,
    facts: Seq<ContentFacts>,
    order: Seq<Seq<char>>,
    sep: char,
    k: int,
) -> PlanSt
    decreases k,
{
    if k <= 0 || k > order.len() {
        st
    } else {
        run_bucket(buckets_fold(st, members, cur, all_dirs, facts, order, sep, k - 1), members, cur, all_dirs, facts, order[k - 1], sep)
    }
}

/// Lexicographic order of strings by code point (the order of `String`).
pub open spec fn lex_lt(a: Seq<char>, b: Seq<char>) -> bool
    decreases a.len(),
{
    if a.len() == 0 {
        b.len() > 0
    } else if b.len() == 0 {
        false
    } else if a[0] != b[0] {
        (a[0] as int) < (b[0] as int)
    } else {
        lex_lt(a.drop_first(), b.drop_first())
    }
}

/// `order` lists every key of `keys` once, in increasing order: the
/// order a sorted map walks them in.
pub open spec fn sorted_distinct_ok(order: Seq<Seq<char>>, keys: Seq<Seq<char>>) -> bool {
    &&& forall|a: int, b: int| 0 <= a < b < order.len() ==> lex_lt(#[trigger] order[a], #[trigger] order[b])
    &&& forall|i: int| 0 <= i < keys.len() ==> order.contains(#[trigger] keys[i])
    &&& forall|a: int| 0 <= a < order.len() ==> keys.contains(#[trigger] order[a])
}

/// `order` lists every member's leaf once, in increasing order: the order
/// a sorted map of the buckets walks them in.
pub open spec fn leaf_order_ok(order: Seq<Seq<char>>, members: Seq<PlanMember>) -> bool {
    sorted_distinct_ok(order, leaves_of(members))
}

/// The first member (from `j` on) outside the catalog root.
pub open spec fn outside_at(members: Seq<PlanMember>, root: Seq<char>, sep: char, j: int) -> Option<int>
    decreases members.len() - j,
{
    if j < 0 || j >= members.len() {
        None
    } else if !under_sep(members[j].dir@, root, sep) {
        Some(j)
    } else {
        outside_at(members, root, sep, j + 1)
    }
}

/// The group's common base moves wholesale when it is inside the root
/// (but not the root), the target is neither inside it nor around it, and
/// every catalog directory beneath it belongs to the group.
pub open spec fn wholesale_spec(
    base: Option<Seq<char>>,
    root: Seq<char>,
    model_dir: Seq<char>,
    all_dirs: Seq<Seq<char>>,
    members: Seq<PlanMember>,
    sep: char,
) -> Option<Seq<char>> {
    match base {
        Some(b) => if b != root && under_sep(b, root, sep) && !under_sep(b, model_dir, sep) && !under_sep(model_dir, b, sep)
            && (forall|k: int| 0 <= k < all_dirs.len() && under_sep(#[trigger] all_dirs[k], b, sep) ==> dirs_of(members).contains(all_dirs[k])) {
            Some(b)
        } else {
            None
        },
        None => None,
    }
}

/// A catalog directory of another model lies beneath member `j`'s.
pub open spec fn foreign_beneath(members: Seq<PlanMember>, all_dirs: Seq<Seq<char>>, j: int, sep: char) -> bool {
    exists|k: int| 0 <= k < all_dirs.len() && #[trigger] all_dirs[k] != members[j].dir@
        && under_sep(all_dirs[k], members[j].dir@, sep) && !dirs_of(members).contains(all_dirs[k])
}

/// The first member (from `j` on) with another model's folder beneath it.
pub open spec fn tangled_at(members: Seq<PlanMember>, all_dirs: Seq<Seq<char>>, sep: char, j: int) -> Option<int>
    decreases members.len() - j,
{
    if j < 0 || j >= members.len() {
        None
    } else if foreign_beneath(members, all_dirs, j, sep) {
        Some(j)
    } else {
        tangled_at(members, all_dirs, sep, j + 1)
    }
}

/// Where each member directory sits after the wholesale move (if any).
pub open spec fn cur_spec(members: Seq<PlanMember>, wholesale: Option<Seq<char>>, model_dir: Seq<char>) -> Seq<Seq<char>> {
    match wholesale {
        Some(b) => members.map_values(|m: PlanMember| model_dir + m.dir@.subrange(b.len() as int, m.dir@.len() as int)),
        None => dirs_of(members),
    }
}

/// The state after the wholesale phase.
pub open spec fn start_state(members: Seq<PlanMember>, wholesale: Option<Seq<char>>, model_dir: Seq<char>) -> PlanSt {
    match wholesale {
        Some(b) => PlanSt {
            ops: seq![(b, model_dir, "dir"@, None)],
            notes: Seq::empty(),
            old_dirs: seq![b],
            used: Seq::empty(),
            anchored: false,
            exhausted: false,
        },
        None => PlanSt {
            ops: Seq::empty(),
            notes: Seq::empty(),
            old_dirs: dirs_of(members),
            used: Seq::empty(),
            anchored: false,
            exhausted: false,
        },
    }
}

/// The reason a group with a member outside the root is skipped.
pub open spec fn outside_text(dir: Seq<char>) -> Seq<char> {
    dir + " is outside the catalog root"@
}

/// The reason a group entangled with other models is skipped.
pub open spec fn tangled_text(dir: Seq<char>) -> Seq<char> {
    "other models' folders are nested inside "@ + dir
}

/// A group the normalizer will not touch, and why.
#[derive(Debug, Clone)]
pub struct NormalizeSkip {
    pub group_name: String,
    pub reason: String,
}

/// The moves planned for one model group.
#[derive(Debug, Clone)]
pub struct NormalizeGroupPlan {
    pub group_name: String,
    pub designer: String,
    pub target_dir: String,
    pub ops: Vec<NormalizeOp>,
    pub old_dirs: Vec<String>,
    pub notes: Vec<String>,
    /// Nothing to move: the group already matches the layout.
    pub clean: bool,
}

/// How planning one group came out.
#[derive(Debug, Clone)]
pub enum GroupPlanning {
    Planned(NormalizeGroupPlan),
    Skipped(NormalizeSkip),
    /// Every numbered spelling of a clashing name was taken.
    OutOfNames,
}


fn text_in(v: &Vec<String>, t: &Vec<char>) -> (r: bool)
    ensures
        r == texts(v@).contains(t@),
{
    let mut k: usize = 0;
    while k < v.len()
        invariant
            0 <= k <= v.len(),
            forall|x: int| 0 <= x < k ==> texts(v@)[x] != t@,
        decreases v.len() - k,
    {
        let kv = chars_of(v[k].as_str());
        if chars_eq(&kv, t) {
            assert(texts(v@)[k as int] == t@);
            return true;
        }
        k += 1;
    }
    false
}

fn member_dir_in(members: &Vec<PlanMember>, t: &Vec<char>) -> (r: bool)
    ensures
        r == dirs_of(members@).contains(t@),
{
    let mut k: usize = 0;
    while k < members.len()
        invariant
            0 <= k <= members.len(),
            forall|x: int| 0 <= x < k ==> dirs_of(members@)[x] != t@,
        decreases members.len() - k,
    {
        let kv = chars_of(members[k].dir.as_str());
        if chars_eq(&kv, t) {
            assert(dirs_of(members@)[k as int] == t@);
            return true;
        }
        k += 1;
    }
    false
}

/// The first member outside the catalog root, if any.
pub fn outside_member(members: &Vec<PlanMember>, root: &str, sep: char) -> (r: Option<usize>)
    ensures
        r.is_some() == outside_at(members@, root@, sep, 0).is_some(),
        r matches Some(j) ==> j as int == outside_at(members@, root@, sep, 0).unwrap() && j < members.len(),
{
    let mut j: usize = 0;
    while j < members.len()
        invariant
            0 <= j <= members.len(),
            outside_at(members@, root@, sep, 0) == outside_at(members@, root@, sep, j as int),
        decreases members.len() - j,
    {
        if !is_under(members[j].dir.as_str(), root, sep) {
            return Some(j);
        }
        j += 1;
    }
    None
}

/// Whether the group's common base can move to the target wholesale.
pub fn wholesale_base(
    base: &Option<String>,
    root: &str,
    model_dir: &str,
    all_dirs: &Vec<String>,
    members: &Vec<PlanMember>,
    sep: char,
) -> (r: Option<String>)
    ensures
        opt_text(r) == wholesale_spec(opt_text(*base), root@, model_dir@, texts(all_dirs@), members@, sep),
{
    let b = match base {
        Some(b) => b,
        None => {
            return None;
        },
    };
    let bv = chars_of(b.as_str());
    let rv = chars_of(root);
    if chars_eq(&bv, &rv) || !is_under(b.as_str(), root, sep) || is_under(b.as_str(), model_dir, sep)
        || is_under(model_dir, b.as_str(), sep) {
        return None;
    }
    let ghost ad = texts(all_dirs@);
    let mut k: usize = 0;
    while k < all_dirs.len()
        invariant
            0 <= k <= all_dirs.len(),
            ad == texts(all_dirs@),
            opt_text(*base) == Some(b@),
            forall|x: int| 0 <= x < k && under_sep(#[trigger] ad[x], b@, sep) ==> dirs_of(members@).contains(ad[x]),
        decreases all_dirs.len() - k,
    {
        let dv = chars_of(all_dirs[k].as_str());
        assert(ad[k as int] == dv@);
        if is_under(all_dirs[k].as_str(), b.as_str(), sep) && !member_dir_in(members, &dv) {
            assert(under_sep(ad[k as int], b@, sep) && !dirs_of(members@).contains(ad[k as int]));
            assert(!(forall|x: int| 0 <= x < ad.len() && under_sep(#[trigger] ad[x], b@, sep) ==> dirs_of(members@).contains(ad[x])));
            return None;
        }
        k += 1;
    }
    Some(b.clone())
}

/// The first member with another model's folder beneath it, if any.
pub fn tangled_member(members: &Vec<PlanMember>, all_dirs: &Vec<String>, sep: char) -> (r: Option<usize>)
    ensures
        r.is_some() == tangled_at(members@, texts(all_dirs@), sep, 0).is_some(),
        r matches Some(j) ==> j as int == tangled_at(members@, texts(all_dirs@), sep, 0).unwrap() && j < members.len(),
{
    let ghost ad = texts(all_dirs@);
    let mut j: usize = 0;
    while j < members.len()
        invariant
            0 <= j <= members.len(),
            ad == texts(all_dirs@),
            tangled_at(members@, ad, sep, 0) == tangled_at(members@, ad, sep, j as int),
        decreases members.len() - j,
    {
        let mv = chars_of(members[j].dir.as_str());
        let mut k: usize = 0;
        while k < all_dirs.len()
            invariant
                0 <= k <= all_dirs.len(),
                0 <= j < members.len(),
                mv@ == members@[j as int].dir@,
                ad == texts(all_dirs@),
                tangled_at(members@, ad, sep, 0) == tangled_at(members@, ad, sep, j as int),
                forall|x: int| 0 <= x < k ==> !(#[trigger] ad[x] != members@[j as int].dir@
                    && under_sep(ad[x], members@[j as int].dir@, sep) && !dirs_of(members@).contains(ad[x])),
            decreases all_dirs.len() - k,
        {
            let dv = chars_of(all_dirs[k].as_str());
            assert(ad[k as int] == dv@);
            if !chars_eq(&dv, &mv) && is_under(all_dirs[k].as_str(), members[j].dir.as_str(), sep) && !member_dir_in(members, &dv) {
                assert(foreign_beneath(members@, ad, j as int, sep));
                return Some(j);
            }
            k += 1;
        }
        assert(!foreign_beneath(members@, ad, j as int, sep));
        j += 1;
    }
    None
}


/// No string precedes itself.
pub proof fn lemma_lex_irreflexive(a: Seq<char>)
    ensures
        !lex_lt(a, a),
    decreases a.len(),
{
    if a.len() > 0 {
        lemma_lex_irreflexive(a.drop_first());
    }
}

/// Of two different strings exactly one precedes the other.
pub proof fn lemma_lex_total(a: Seq<char>, b: Seq<char>)
    ensures
        a != b ==> lex_lt(a, b) || lex_lt(b, a),
        !(lex_lt(a, b) && lex_lt(b, a)),
    decreases a.len(),
{
    if a.len() == 0 {
        if b.len() == 0 {
            assert(a =~= b);
        }
    } else if b.len() == 0 {
    } else if a[0] != b[0] {
        assert((a[0] as int) != (b[0] as int));
    } else {
        lemma_lex_total(a.drop_first(), b.drop_first());
        if a != b {
            if a.drop_first() == b.drop_first() {
                assert(a =~= seq![a[0]] + a.drop_first());
                assert(b =~= seq![b[0]] + b.drop_first());
            }
        }
    }
}

/// Precedence is transitive.
pub proof fn lemma_lex_transitive(a: Seq<char>, b: Seq<char>, c: Seq<char>)
    requires
        lex_lt(a, b),
        lex_lt(b, c),
    ensures
        lex_lt(a, c),
    decreases a.len(),
{
    if a.len() > 0 && b.len() > 0 && c.len() > 0 {
        if a[0] == b[0] && b[0] == c[0] {
            lemma_lex_transitive(a.drop_first(), b.drop_first(), c.drop_first());
        }
    }
}

/// Strings that agree up to `i` compare as their rests from `i` do.
proof fn lemma_lex_skip(a: Seq<char>, b: Seq<char>, i: int)
    requires
        0 <= i <= a.len(),
        i <= b.len(),
        a.take(i) == b.take(i),
    ensures
        lex_lt(a, b) == lex_lt(a.skip(i), b.skip(i)),
    decreases i,
{
    if i > 0 {
        assert(a[0] == a.take(i)[0]);
        assert(b[0] == b.take(i)[0]);
        assert(a.drop_first().take(i - 1) =~= a.take(i).drop_first());
        assert(b.drop_first().take(i - 1) =~= b.take(i).drop_first());
        lemma_lex_skip(a.drop_first(), b.drop_first(), i - 1);
        assert(a.drop_first().skip(i - 1) =~= a.skip(i));
        assert(b.drop_first().skip(i - 1) =~= b.skip(i));
    } else {
        assert(a.skip(0) =~= a);
        assert(b.skip(0) =~= b);
    }
}

/// Whether `a` precedes `b` (by code point, as `String` orders).
pub fn lex_less(a: &Vec<char>, b: &Vec<char>) -> (r: bool)
    ensures
        r == lex_lt(a@, b@),
{
    let mut i: usize = 0;
    proof {
        assert(a@.take(0) =~= b@.take(0));
        lemma_lex_skip(a@, b@, 0);
    }
    while i < a.len() && i < b.len() && a[i] == b[i]
        invariant
            i <= a.len(),
            i <= b.len(),
            a@.take(i as int) == b@.take(i as int),
            lex_lt(a@, b@) == lex_lt(a@.skip(i as int), b@.skip(i as int)),
        decreases a.len() - i,
    {
        assert(a@.take(i + 1) =~= a@.take(i as int).push(a@[i as int]));
        assert(b@.take(i + 1) =~= b@.take(i as int).push(b@[i as int]));
        i += 1;
        proof {
            lemma_lex_skip(a@, b@, i as int);
        }
    }
    let ghost sa = a@.skip(i as int);
    let ghost sb = b@.skip(i as int);
    if i == a.len() {
        assert(sa.len() == 0);
        i < b.len()
    } else if i == b.len() {
        assert(sb.len() == 0);
        false
    } else {
        assert(sa[0] == a@[i as int] && sb[0] == b@[i as int]);
        a[i] < b[i]
    }
}

/// Every key of `keys` once, in increasing order.
pub fn sorted_distinct(keys: &Vec<String>) -> (r: Vec<String>)
    ensures
        sorted_distinct_ok(texts(r@), texts(keys@)),
{
    let mut order: Vec<String> = Vec::new();
    let mut i: usize = 0;
    while i < keys.len()
        invariant
            0 <= i <= keys.len(),
            forall|a: int, b: int| 0 <= a < b < order.len() ==> lex_lt(#[trigger] texts(order@)[a], #[trigger] texts(order@)[b]),
            forall|x: int| 0 <= x < i ==> texts(order@).contains(#[trigger] texts(keys@)[x]),
            forall|a: int| 0 <= a < order.len() ==> texts(keys@).contains(#[trigger] texts(order@)[a]),
        decreases keys.len() - i,
    {
        let x = chars_of(keys[i].as_str());
        let ghost ov = texts(order@);
        // the first position whose leaf does not precede x
        let mut p: usize = 0;
        while p < order.len() && lex_less(&chars_of(order[p].as_str()), &x)
            invariant
                0 <= p <= order.len(),
                ov == texts(order@),
                forall|q: int| 0 <= q < p ==> lex_lt(#[trigger] ov[q], x@),
            decreases order.len() - p,
        {
            p += 1;
        }
        assert(texts(keys@)[i as int] == x@);
        let present = p < order.len() && chars_eq(&chars_of(order[p].as_str()), &x);
        if !present {
            proof {
                if p < order.len() {
                    lemma_lex_total(ov[p as int], x@);
                }
            }
            let ghost before = order@;
            order.insert(p, keys[i].clone());
            proof {
                let nv = texts(order@);
                assert(nv =~= ov.take(p as int).push(x@) + ov.skip(p as int));
                assert forall|a: int, b: int| 0 <= a < b < nv.len() implies lex_lt(#[trigger] nv[a], #[trigger] nv[b]) by {
                    if b < p {
                        assert(nv[a] == ov[a] && nv[b] == ov[b]);
                    } else if b == p {
                        assert(nv[a] == ov[a] && nv[b] == x@);
                    } else if a == p {
                        assert(nv[a] == x@ && nv[b] == ov[b - 1]);
                        if b - 1 > p {
                            lemma_lex_transitive(x@, ov[p as int], ov[b - 1]);
                        }
                    } else if a < p {
                        assert(nv[a] == ov[a] && nv[b] == ov[b - 1]);
                        lemma_lex_transitive(ov[a], x@, ov[p as int]);
                        if b - 1 > p {
                            lemma_lex_transitive(ov[a], ov[p as int], ov[b - 1]);
                        }
                    } else {
                        assert(nv[a] == ov[a - 1] && nv[b] == ov[b - 1]);
                    }
                }
                assert forall|y: int| 0 <= y < i + 1 implies nv.contains(#[trigger] texts(keys@)[y]) by {
                    if y < i {
                        let q = choose|q: int| 0 <= q < ov.len() && ov[q] == texts(keys@)[y];
                        if q < p {
                            assert(nv[q] == ov[q]);
                        } else {
                            assert(nv[q + 1] == ov[q]);
                        }
                    } else {
                        assert(nv[p as int] == x@);
                    }
                }
                assert forall|a: int| 0 <= a < nv.len() implies texts(keys@).contains(#[trigger] nv[a]) by {
                    if a < p {
                        assert(nv[a] == ov[a]);
                    } else if a == p {
                        assert(nv[a] == texts(keys@)[i as int]);
                    } else {
                        assert(nv[a] == ov[a - 1]);
                    }
                }
            }
        } else {
            proof {
                assert(ov[p as int] == x@);
                assert forall|y: int| 0 <= y < i + 1 implies ov.contains(#[trigger] texts(keys@)[y]) by {
                    if y == i {
                        assert(ov[p as int] == texts(keys@)[y]);
                    }
                }
            }
        }
        i += 1;
    }
    order
}


/// Every member's leaf once, in increasing order.
pub fn leaf_order(members: &Vec<PlanMember>) -> (r: Vec<String>)
    ensures
        leaf_order_ok(texts(r@), members@),
{
    let mut keys: Vec<String> = Vec::new();
    let mut i: usize = 0;
    while i < members.len()
        invariant
            0 <= i <= members.len(),
            texts(keys@) == leaves_of(members@).take(i as int),
        decreases members.len() - i,
    {
        let ghost pre = texts(keys@);
        let l = members[i].leaf.clone();
        keys.push(l);
        assert(texts(keys@) =~= pre.push(l@));
        assert(texts(keys@) =~= leaves_of(members@).take(i + 1));
        i += 1;
    }
    assert(texts(keys@) =~= leaves_of(members@));
    sorted_distinct(&keys)
}

/// The executable planning state (see [`PlanSt`]).
struct Planner {
    ops: Vec<NormalizeOp>,
    notes: Vec<String>,
    old_dirs: Vec<String>,
    used: Vec<(String, String)>,
    anchored: bool,
    exhausted: bool,
}

spec fn st_view(p: Planner) -> PlanSt {
    PlanSt {
        ops: ops_view(p.ops@),
        notes: texts(p.notes@),
        old_dirs: texts(p.old_dirs@),
        used: claims_view(p.used@),
        anchored: p.anchored,
        exhausted: p.exhausted,
    }
}

/// Every file of every member lies inside its member directory (by text).
pub open spec fn files_inside(members: Seq<PlanMember>) -> bool {
    forall|i: int, k: int|
        0 <= i < members.len() && 0 <= k < members[i].files@.len() ==> starts_with(
            (#[trigger] members[i].files@[k]).path@,
            members[i].dir@,
        )
}

#[verifier::loop_isolation(false)]
fn plan_files(
    pl: &mut Planner,
    facts: &Vec<ContentFacts>,
    files: &Vec<PlanFile>,
    anchor: bool,
    leaf: &str,
    sep: char,
    cur_dir: &str,
    dir: &str,
    pose: &Option<String>,
)
    requires
        forall|k: int| 0 <= k < files@.len() ==> starts_with((#[trigger] files@[k]).path@, dir@),
    ensures
        st_view(*final(pl)) == files_fold(
            st_view(*old(pl)),
            facts@,
            files@,
            files@.len() as int,
            anchor,
            leaf@,
            sep,
            cur_dir@,
            dir@,
            opt_text(*pose),
        ),
{
    let ghost st0 = st_view(*pl);
    let mut k: usize = 0;
    while k < files.len()
        invariant
            0 <= k <= files.len(),
            st_view(*pl) == files_fold(st0, facts@, files@, k as int, anchor, leaf@, sep, cur_dir@, dir@, opt_text(*pose)),
        decreases files.len() - k,
    {
        let f = &files[k];
        let nv = chars_of(f.file_name.as_str());
        if !pl.exhausted && !eq_lit_local(&nv, "model.json") && !eq_lit_local(&nv, "release.json") {
            let current: String = if anchor {
                in_dir_exec(leaf, sep, f.file_name.as_str())
            } else {
                let pv = chars_of(f.path.as_str());
                let dv = chars_of(dir);
                let mut c = chars_of(cur_dir);
                let rest = slice(&pv, dv.len(), pv.len());
                append_chars(&mut c, &rest);
                string_of(&c)
            };
            assert(current@ == file_current(files@[k as int], anchor, leaf@, sep, cur_dir@, dir@));
            let out = place_file(
                &mut pl.ops,
                &mut pl.notes,
                &mut pl.used,
                facts,
                current,
                f.path.as_str(),
                f.desired_name.as_str(),
                pose,
                leaf,
                sep,
            );
            pl.exhausted = out;
        }
        k += 1;
    }
}

fn eq_lit_local(v: &Vec<char>, s: &str) -> (r: bool)
    ensures
        r == (v@ == s@),
{
    crate::text::eq_lit(v, s)
}

#[verifier::loop_isolation(false)]
fn nested_parent_exec(cur: &Vec<String>, i: usize, sep: char) -> (r: bool)
    requires
        i < cur.len(),
    ensures
        r == nested_parent(texts(cur@), i as int, sep),
{
    let ghost cv = texts(cur@);
    let mut j: usize = 0;
    while j < cur.len()
        invariant
            0 <= j <= cur.len(),
            forall|x: int| 0 <= x < j ==> !(x != i && under_sep(#[trigger] cv[x], cv[i as int], sep) && cv[x] != cv[i as int]),
        decreases cur.len() - j,
    {
        if j != i && is_under(cur[j].as_str(), cur[i].as_str(), sep) {
            let a = chars_of(cur[j].as_str());
            let b = chars_of(cur[i].as_str());
            if !chars_eq(&a, &b) {
                assert(cv[j as int] == a@);
                return true;
            }
        }
        j += 1;
    }
    false
}

#[verifier::loop_isolation(false)]
fn leaf_held_exec(cur: &Vec<String>, members: &Vec<PlanMember>, i: usize, leaf: &Vec<char>) -> (r: bool)
    requires
        i < cur.len(),
        cur.len() == members.len(),
    ensures
        r == leaf_held(texts(cur@), leaves_of(members@), i as int, leaf@),
{
    let ghost cv = texts(cur@);
    let ghost lv = leaves_of(members@);
    let mut j: usize = 0;
    while j < cur.len()
        invariant
            0 <= j <= cur.len(),
            forall|x: int| 0 <= x < j ==> !(x != i && #[trigger] cv[x] == leaf@ && lv[x] != leaf@),
        decreases cur.len() - j,
    {
        let a = chars_of(cur[j].as_str());
        let l = chars_of(members[j].leaf.as_str());
        assert(cv[j as int] == a@ && lv[j as int] == l@);
        if j != i && chars_eq(&a, leaf) && !chars_eq(&l, leaf) {
            return true;
        }
        j += 1;
    }
    false
}

#[verifier::loop_isolation(false)]
fn has_nested_exec(all_dirs: &Vec<String>, dir: &str, sep: char) -> (r: bool)
    ensures
        r == has_nested(texts(all_dirs@), dir@, sep),
{
    let ghost ad = texts(all_dirs@);
    let mut prefix = chars_of(dir);
    prefix.push(sep);
    let mut k: usize = 0;
    while k < all_dirs.len()
        invariant
            0 <= k <= all_dirs.len(),
            prefix@ == dir@.push(sep),
            forall|x: int| 0 <= x < k ==> !starts_with(#[trigger] ad[x], dir@.push(sep)),
        decreases all_dirs.len() - k,
    {
        let d = chars_of(all_dirs[k].as_str());
        assert(ad[k as int] == d@);
        if starts_with_exec(&d, &prefix) {
            return true;
        }
        k += 1;
    }
    false
}

#[verifier::loop_isolation(false)]
fn plan_member(
    pl: &mut Planner,
    members: &Vec<PlanMember>,
    cur: &Vec<String>,
    all_dirs: &Vec<String>,
    facts: &Vec<ContentFacts>,
    i: usize,
    leaf: &str,
    merging: bool,
    sep: char,
)
    requires
        i < members.len(),
        cur.len() == members.len(),
        files_inside(members@),
    ensures
        st_view(*final(pl)) == member_step(
            st_view(*old(pl)),
            members@,
            texts(cur@),
            texts(all_dirs@),
            facts@,
            i as int,
            leaf@,
            merging,
            sep,
        ),
{
    if pl.exhausted {
        return;
    }
    let ghost cv = texts(cur@);
    let m = &members[i];
    assert forall|k: int| 0 <= k < m.files@.len() implies starts_with((#[trigger] m.files@[k]).path@, m.dir@) by {
        assert(members@[i as int].files@[k] == m.files@[k]);
    }
    let lv = chars_of(leaf);
    let fv = chars_of(cur[i].as_str());
    assert(cv[i as int] == fv@);
    let at_leaf = chars_eq(&fv, &lv);
    let anchor = at_leaf || (!pl.anchored && !nested_parent_exec(cur, i, sep) && !is_under(leaf, cur[i].as_str(), sep)
        && !leaf_held_exec(cur, members, i, &lv));
    assert(anchor == can_anchor(pl.anchored, cv, leaves_of(members@), i as int, leaf@, sep));
    if anchor {
        if !at_leaf {
            let op = NormalizeOp { from: cur[i].clone(), to: lit(leaf), kind: lit("dir"), pose: None };
            let ghost pre = ops_view(pl.ops@);
            pl.ops.push(op);
            assert(ops_view(pl.ops@) =~= pre.push(op_view(op)));
        }
        pl.anchored = true;
        if merging {
            plan_files(pl, facts, &m.files, true, leaf, sep, cur[i].as_str(), m.dir.as_str(), &m.pose);
        }
    } else {
        plan_files(pl, facts, &m.files, false, leaf, sep, cur[i].as_str(), m.dir.as_str(), &m.pose);
        if pl.exhausted {
            return;
        }
        if has_nested_exec(all_dirs, m.dir.as_str(), sep) {
            let mut note: Vec<char> = Vec::new();
            append_str(&mut note, "nested folders under ");
            append_str(&mut note, m.dir.as_str());
            append_str(&mut note, " were left in place");
            assert(note@ =~= nested_note(m.dir@));
            let n = string_of(&note);
            let ghost pre = texts(pl.notes@);
            pl.notes.push(n);
            assert(texts(pl.notes@) =~= pre.push(n@));
        }
        if !text_in(&pl.old_dirs, &fv) {
            let ghost pre = texts(pl.old_dirs@);
            let d = cur[i].clone();
            pl.old_dirs.push(d);
            assert(texts(pl.old_dirs@) =~= pre.push(fv@));
        }
    }
}


#[verifier::loop_isolation(false)]
fn bucket_size_exec(members: &Vec<PlanMember>, leaf: &Vec<char>) -> (r: usize)
    ensures
        r == bucket_size(members@, leaf@, members@.len() as int),
{
    let mut n: usize = 0;
    let mut k: usize = 0;
    while k < members.len()
        invariant
            0 <= k <= members.len(),
            n == bucket_size(members@, leaf@, k as int),
            n <= k,
        decreases members.len() - k,
    {
        let l = chars_of(members[k].leaf.as_str());
        if chars_eq(&l, leaf) {
            n += 1;
        }
        k += 1;
    }
    n
}

#[verifier::loop_isolation(false)]
fn plan_bucket(
    pl: &mut Planner,
    members: &Vec<PlanMember>,
    cur: &Vec<String>,
    all_dirs: &Vec<String>,
    facts: &Vec<ContentFacts>,
    leaf: &str,
    sep: char,
)
    requires
        cur.len() == members.len(),
        files_inside(members@),
    ensures
        st_view(*final(pl)) == run_bucket(
            st_view(*old(pl)),
            members@,
            texts(cur@),
            texts(all_dirs@),
            facts@,
            leaf@,
            sep,
        ),
{
    let lv = chars_of(leaf);
    let merging = bucket_size_exec(members, &lv) > 1;
    pl.used = Vec::new();
    pl.anchored = false;
    assert(claims_view(pl.used@) =~= Seq::<(Seq<char>, Seq<char>)>::empty());
    let ghost st0 = st_view(*pl);
    let mut k: usize = 0;
    while k < members.len()
        invariant
            0 <= k <= members.len(),
            st_view(*pl) == bucket_fold(st0, members@, texts(cur@), texts(all_dirs@), facts@, leaf@, merging, sep, k as int),
        decreases members.len() - k,
    {
        let l = chars_of(members[k].leaf.as_str());
        if chars_eq(&l, &lv) {
            plan_member(pl, members, cur, all_dirs, facts, k, leaf, merging, sep);
        }
        k += 1;
    }
}

/// Whether `r` is the plan of the group described by the arguments (see
/// [`plan_group`]).
pub open spec fn group_plan_matches(
    r: GroupPlanning,
    display: Seq<char>,
    designer: Seq<char>,
    root: Seq<char>,
    model_dir: Seq<char>,
    members: Seq<PlanMember>,
    all_dirs: Seq<String>,
    facts: Seq<ContentFacts>,
    base: Option<Seq<char>>,
    sep: char,
) -> bool {
    &&& outside_at(members, root, sep, 0) matches Some(j) ==> (r matches GroupPlanning::Skipped(sk) && sk.group_name@ == display
        && sk.reason@ == outside_text(members[j].dir@))
    &&& outside_at(members, root, sep, 0) is None ==> {
        let w = wholesale_spec(base, root, model_dir, texts(all_dirs), members, sep);
        let ad = texts(all_dirs);
        &&& (w is None && tangled_at(members, ad, sep, 0) is Some) ==> (r matches GroupPlanning::Skipped(sk)
            && sk.group_name@ == display && sk.reason@ == tangled_text(members[tangled_at(members, ad, sep, 0).unwrap()].dir@))
        &&& (w is Some || tangled_at(members, ad, sep, 0) is None) ==> exists|order: Seq<Seq<char>>| {
            let st = buckets_fold(start_state(members, w, model_dir), members, cur_spec(members, w, model_dir), ad, facts, order, sep, order.len() as int);
            &&& #[trigger] leaf_order_ok(order, members)
            &&& st.exhausted ==> r is OutOfNames
            &&& !st.exhausted ==> (r matches GroupPlanning::Planned(g) && {
                &&& g.group_name@ == display
                &&& g.designer@ == designer
                &&& g.target_dir@ == model_dir
                &&& ops_view(g.ops@) == st.ops
                &&& texts(g.notes@) == st.notes
                &&& texts(g.old_dirs@) == st.old_dirs
                &&& g.clean == (st.ops.len() == 0)
            })
        }
    }
}

/// The plan of one model group, given its display name and designer, the
/// catalog root, the model folder the layout wants (`model_dir`), its
/// members in catalog order (each with the leaf the layout wants and its
/// files), every catalog directory, what the disk says of the files'
/// contents, the members' common ancestor (`base`), and the separator.
///
/// A group with a member outside the root, or (when its base cannot move
/// wholesale) with another model's folder inside a member, is skipped with
/// the reason. Otherwise the base moves to the model folder in one rename
/// when it can; then each leaf's bucket (leaves in increasing order) is
/// anchored by one member's folder rename where possible, the other
/// members' files merging in by name.
#[verifier::loop_isolation(false)]
pub fn plan_group(
    display: &str,
    designer: &str,
    root: &str,
    model_dir: &str,
    members: &Vec<PlanMember>,
    all_dirs: &Vec<String>,
    facts: &Vec<ContentFacts>,
    base: &Option<String>,
    sep: char,
) -> (r: GroupPlanning)
    requires
        files_inside(members@),
        base matches Some(b) ==> forall|i: int| 0 <= i < members@.len() ==> b@.len() <= (#[trigger] members@[i]).dir@.len(),
    ensures
        group_plan_matches(r, display@, designer@, root@, model_dir@, members@, all_dirs@, facts@, opt_text(*base), sep),
{
    match outside_member(members, root, sep) {
        Some(j) => {
            let mut reason = chars_of(members[j].dir.as_str());
            append_str(&mut reason, " is outside the catalog root");
            return GroupPlanning::Skipped(NormalizeSkip { group_name: lit(display), reason: string_of(&reason) });
        },
        None => {},
    }
    let w = wholesale_base(base, root, model_dir, all_dirs, members, sep);
    let ghost wv = opt_text(w);
    let mut cur: Vec<String> = Vec::new();
    let mut pl = Planner {
        ops: Vec::new(),
        notes: Vec::new(),
        old_dirs: Vec::new(),
        used: Vec::new(),
        anchored: false,
        exhausted: false,
    };
    match &w {
        Some(b) => {
            let bv = chars_of(b.as_str());
            let md = chars_of(model_dir);
            let mut i: usize = 0;
            while i < members.len()
                invariant
                    0 <= i <= members.len(),
                    texts(cur@) == cur_spec(members@, wv, model_dir@).take(i as int),
            decreases members.len() - i,
            {
                let dv = chars_of(members[i].dir.as_str());
                assert(b@.len() <= members@[i as int].dir@.len());
                let rest = slice(&dv, bv.len(), dv.len());
                let mut c = md.clone();
                append_chars(&mut c, &rest);
                let ghost pre = texts(cur@);
                cur.push(string_of(&c));
                assert(texts(cur@) =~= cur_spec(members@, wv, model_dir@).take(i + 1));
                i += 1;
            }
            let op = NormalizeOp { from: b.clone(), to: lit(model_dir), kind: lit("dir"), pose: None };
            pl.ops.push(op);
            pl.old_dirs.push(b.clone());
        },
        None => {
            match tangled_member(members, all_dirs, sep) {
                Some(j) => {
                    let mut reason: Vec<char> = Vec::new();
                    append_str(&mut reason, "other models' folders are nested inside ");
                    append_str(&mut reason, members[j].dir.as_str());
                    assert(reason@ =~= tangled_text(members@[j as int].dir@));
                    return GroupPlanning::Skipped(NormalizeSkip { group_name: lit(display), reason: string_of(&reason) });
                },
                None => {},
            }
            let mut i: usize = 0;
            while i < members.len()
                invariant
                    0 <= i <= members.len(),
                    texts(cur@) == cur_spec(members@, wv, model_dir@).take(i as int),
                    texts(pl.old_dirs@) == cur_spec(members@, wv, model_dir@).take(i as int),
                    pl.used@.len() == 0,
                    pl.notes@.len() == 0,
                    pl.ops@.len() == 0,
                    !pl.anchored,
                    !pl.exhausted,
                decreases members.len() - i,
            {
                cur.push(members[i].dir.clone());
                pl.old_dirs.push(members[i].dir.clone());
                assert(texts(cur@) =~= cur_spec(members@, wv, model_dir@).take(i + 1));
                assert(texts(pl.old_dirs@) =~= cur_spec(members@, wv, model_dir@).take(i + 1));
                i += 1;
            }
        },
    }
    assert(texts(cur@) =~= cur_spec(members@, wv, model_dir@));
    assert(st_view(pl) == start_state(members@, wv, model_dir@)) by {
        assert(claims_view(pl.used@) =~= Seq::<(Seq<char>, Seq<char>)>::empty());
        assert(texts(pl.notes@) =~= Seq::<Seq<char>>::empty());
        if wv is Some {
            assert(ops_view(pl.ops@) =~= seq![(wv.unwrap(), model_dir@, "dir"@, None::<Seq<char>>)]);
            assert(texts(pl.old_dirs@) =~= seq![wv.unwrap()]);
        } else {
            assert(ops_view(pl.ops@) =~= Seq::<OpView>::empty());
        }
    }
    let order = leaf_order(members);
    let ghost ov = texts(order@);
    let ghost st0 = st_view(pl);
    let mut k: usize = 0;
    while k < order.len()
        invariant
            0 <= k <= order.len(),
            cur.len() == members.len(),
            st_view(pl) == buckets_fold(st0, members@, texts(cur@), texts(all_dirs@), facts@, ov, sep, k as int),
        decreases order.len() - k,
    {
        assert(ov[k as int] == order@[k as int]@);
        plan_bucket(&mut pl, members, &cur, all_dirs, facts, order[k].as_str(), sep);
        k += 1;
    }
    if pl.exhausted {
        return GroupPlanning::OutOfNames;
    }
    let clean = pl.ops.len() == 0;
    GroupPlanning::Planned(NormalizeGroupPlan {
        group_name: lit(display),
        designer: lit(designer),
        target_dir: lit(model_dir),
        ops: pl.ops,
        old_dirs: pl.old_dirs,
        notes: pl.notes,
        clean,
    })
}


/// The path `PathBuf` builds by pushing `parts` in turn.
pub uninterp spec fn joined_path(parts: Seq<Seq<char>>) -> Seq<char>;

/// `PathBuf` collected from path components given as text.
#[verifier::external_body]
fn path_from_components(parts: &Vec<String>) -> (r: String)
    ensures
        r@ == joined_path(texts(parts@)),
{
    parts.iter().collect::<std::path::PathBuf>().to_string_lossy().into_owned()
}

/// How many leading components `a` and `b` share.
pub open spec fn shared_len(a: Seq<Seq<char>>, b: Seq<Seq<char>>) -> nat
    decreases a.len(),
{
    if a.len() == 0 || b.len() == 0 || a[0] != b[0] {
        0
    } else {
        1 + shared_len(a.drop_first(), b.drop_first())
    }
}

/// The components every one of the first `k` directories starts with.
pub open spec fn common_components(dirs: Seq<Seq<char>>, k: int) -> Seq<Seq<char>>
    decreases k,
{
    if k <= 1 || k > dirs.len() {
        if dirs.len() > 0 { components_of(dirs[0]) } else { Seq::empty() }
    } else {
        let acc = common_components(dirs, k - 1);
        acc.take(shared_len(acc, components_of(dirs[k - 1])) as int)
    }
}

/// The deepest directory containing every one of `dirs` (by path
/// components), if they share any component at all.
pub open spec fn common_ancestor_spec(dirs: Seq<Seq<char>>) -> Option<Seq<char>> {
    if dirs.len() == 0 {
        None
    } else {
        let acc = common_components(dirs, dirs.len() as int);
        if acc.len() == 0 { None } else { Some(joined_path(acc)) }
    }
}

#[verifier::loop_isolation(false)]
fn shared_len_exec(a: &Vec<String>, b: &Vec<String>) -> (r: usize)
    ensures
        r == shared_len(texts(a@), texts(b@)),
        r <= a.len(),
{
    let ghost av = texts(a@);
    let ghost bv = texts(b@);
    let mut i: usize = 0;
    assert(av.skip(0) =~= av);
    assert(bv.skip(0) =~= bv);
    while i < a.len() && i < b.len() && chars_eq(&chars_of(a[i].as_str()), &chars_of(b[i].as_str()))
        invariant
            i <= a.len(),
            i <= b.len(),
            shared_len(av, bv) == i + shared_len(av.skip(i as int), bv.skip(i as int)),
        decreases a.len() - i,
    {
        assert(av.skip(i as int)[0] == av[i as int]);
        assert(bv.skip(i as int)[0] == bv[i as int]);
        assert(av.skip(i as int).drop_first() =~= av.skip(i + 1));
        assert(bv.skip(i as int).drop_first() =~= bv.skip(i + 1));
        i += 1;
    }
    proof {
        if i < a.len() && i < b.len() {
            assert(av.skip(i as int)[0] == av[i as int]);
            assert(bv.skip(i as int)[0] == bv[i as int]);
        }
    }
    i
}

/// The deepest directory containing every member directory.
#[verifier::loop_isolation(false)]
pub fn common_ancestor(dirs: &Vec<String>) -> (r: Option<String>)
    ensures
        opt_text(r) == common_ancestor_spec(texts(dirs@)),
{
    if dirs.len() == 0 {
        return None;
    }
    let ghost dv = texts(dirs@);
    let mut acc = crate::manifest::path_components(dirs[0].as_str());
    assert(crate::manifest::string_views(acc@) =~= texts(acc@));
    let mut k: usize = 1;
    while k < dirs.len()
        invariant
            1 <= k <= dirs.len(),
            texts(acc@) == common_components(dv, k as int),
        decreases dirs.len() - k,
    {
        let other = crate::manifest::path_components(dirs[k].as_str());
        assert(crate::manifest::string_views(other@) =~= texts(other@));
        let shared = shared_len_exec(&acc, &other);
        acc.truncate(shared);
        assert(texts(acc@) =~= common_components(dv, k as int).take(shared as int));
        k += 1;
    }
    if acc.len() == 0 {
        None
    } else {
        Some(path_from_components(&acc))
    }
}


/// Whether a group's inputs hold what the planner relies on: every file
/// lies inside its member directory, and no member directory is shorter
/// than the members' common ancestor (the planner re-roots a member by
/// cutting the ancestor's length off its folder).
pub open spec fn plannable(members: Seq<PlanMember>) -> bool {
    &&& files_inside(members)
    &&& common_ancestor_spec(dirs_of(members)) matches Some(b) ==> forall|i: int|
        0 <= i < members.len() ==> b.len() <= (#[trigger] members[i]).dir@.len()
}

#[verifier::loop_isolation(false)]
fn plannable_exec(members: &Vec<PlanMember>, base: &Option<String>) -> (r: bool)
    ensures
        r == (files_inside(members@) && (opt_text(*base) matches Some(b) ==> forall|i: int|
            0 <= i < members@.len() ==> b.len() <= (#[trigger] members@[i]).dir@.len())),
{
    let mut i: usize = 0;
    while i < members.len()
        invariant
            0 <= i <= members.len(),
            forall|x: int, k: int|
                0 <= x < i && 0 <= k < members@[x].files@.len() ==> starts_with(
                    (#[trigger] members@[x].files@[k]).path@,
                    members@[x].dir@,
                ),
            opt_text(*base) matches Some(b) ==> forall|x: int| 0 <= x < i ==> b.len() <= (#[trigger] members@[x]).dir@.len(),
        decreases members.len() - i,
    {
        let dv = chars_of(members[i].dir.as_str());
        match base {
            Some(b) => {
                let bv = chars_of(b.as_str());
                if bv.len() > dv.len() {
                    return false;
                }
            },
            None => {},
        }
        let mut k: usize = 0;
        while k < members[i].files.len()
            invariant
                0 <= k <= members@[i as int].files@.len(),
                dv@ == members@[i as int].dir@,
                forall|y: int| 0 <= y < k ==> starts_with((#[trigger] members@[i as int].files@[y]).path@, members@[i as int].dir@),
            decreases members@[i as int].files@.len() - k,
        {
            let pv = chars_of(members[i].files[k].path.as_str());
            if !starts_with_exec(&pv, &dv) {
                return false;
            }
            k += 1;
        }
        i += 1;
    }
    true
}

/// The plan of one group, its base the members' common ancestor; `None`
/// when the group's inputs are not [`plannable`].
pub fn plan_group_checked(
    display: &str,
    designer: &str,
    root: &str,
    model_dir: &str,
    members: &Vec<PlanMember>,
    all_dirs: &Vec<String>,
    facts: &Vec<ContentFacts>,
    sep: char,
) -> (r: Option<GroupPlanning>)
    ensures
        plannable(members@) ==> (r matches Some(g) && group_plan_matches(
            g,
            display@,
            designer@,
            root@,
            model_dir@,
            members@,
            all_dirs@,
            facts@,
            common_ancestor_spec(dirs_of(members@)),
            sep,
        )),
        !plannable(members@) ==> r is None,
{
    let mut dirs: Vec<String> = Vec::new();
    let mut i: usize = 0;
    while i < members.len()
        invariant
            0 <= i <= members.len(),
            texts(dirs@) == dirs_of(members@).take(i as int),
        decreases members.len() - i,
    {
        let ghost pre = texts(dirs@);
        let d = members[i].dir.clone();
        dirs.push(d);
        assert(texts(dirs@) =~= pre.push(d@));
        assert(texts(dirs@) =~= dirs_of(members@).take(i + 1));
        i += 1;
    }
    assert(texts(dirs@) =~= dirs_of(members@));
    let base = common_ancestor(&dirs);
    if !plannable_exec(members, &base) {
        return None;
    }
    Some(plan_group(display, designer, root, model_dir, members, all_dirs, facts, &base, sep))
}

/// What the filters and the catalog say about planning a group at all.
#[derive(Debug, Clone)]
pub enum GroupGate {
    /// A filter leaves the group out of this plan.
    Excluded,
    /// The group is reported as skipped.
    Skip(NormalizeSkip),
    /// The group is planned under this designer.
    Plan(String),
}

/// The reason a group without a designer is skipped.
pub open spec fn no_designer_text() -> Seq<char> {
    "no designer set — give the model a designer first"@
}

/// Decides whether group `display` is planned: a group filter must match
/// its name and a designer filter its designer (the first member that
/// states one), ignoring ASCII case and the filter's surrounding
/// whitespace; a group without a designer is skipped.
pub fn group_gate(
    display: &str,
    designers: &Vec<Option<String>>,
    group_filter: Option<&str>,
    designer_filter: Option<&str>,
) -> (r: GroupGate)
    ensures
        (group_filter matches Some(f) && !eq_ignore_ascii_case(display@, trim(f@))) ==> r is Excluded,
        !(group_filter matches Some(f) && !eq_ignore_ascii_case(display@, trim(f@))) ==> {
            let d = first_some_spec(designers@, 0);
            &&& (designer_filter matches Some(f) && !(d matches Some(dv) && eq_ignore_ascii_case(dv, trim(f@)))) ==> r is Excluded
            &&& !(designer_filter matches Some(f) && !(d matches Some(dv) && eq_ignore_ascii_case(dv, trim(f@)))) ==> {
                &&& d is None ==> (r matches GroupGate::Skip(sk) && sk.group_name@ == display@ && sk.reason@ == no_designer_text())
                &&& d matches Some(dv) ==> (r matches GroupGate::Plan(x) && x@ == dv)
            }
        },
{
    let dv = chars_of(display);
    match group_filter {
        Some(f) => {
            let fv = trim_chars(&chars_of(f));
            if !chars_eq_ignore_ascii_case(&dv, &fv) {
                return GroupGate::Excluded;
            }
        },
        None => {},
    }
    let designer = first_some(designers);
    match designer_filter {
        Some(f) => {
            let fv = trim_chars(&chars_of(f));
            let ok = match &designer {
                Some(d) => chars_eq_ignore_ascii_case(&chars_of(d.as_str()), &fv),
                None => false,
            };
            if !ok {
                return GroupGate::Excluded;
            }
        },
        None => {},
    }
    match designer {
        Some(d) => GroupGate::Plan(d),
        None => GroupGate::Skip(NormalizeSkip { group_name: lit(display), reason: lit("no designer set — give the model a designer first") }),
    }
}

/// The whole plan: the groups with moves to make, the groups skipped, how
/// many groups already match the layout, and the number of moves.
#[derive(Debug, Clone)]
pub struct NormalizePlan {
    pub groups: Vec<NormalizeGroupPlan>,
    pub skipped: Vec<NormalizeSkip>,
    pub clean_groups: u32,
    pub total_ops: u32,
}

/// The moves of the first `k` outcomes.
pub open spec fn ops_total(outcomes: Seq<GroupPlanning>, k: int) -> int
    decreases k,
{
    if k <= 0 || k > outcomes.len() {
        0
    } else {
        ops_total(outcomes, k - 1) + match outcomes[k - 1] {
            GroupPlanning::Planned(g) => g.ops@.len() as int,
            _ => 0,
        }
    }
}

/// The clean groups among the first `k` outcomes.
pub open spec fn clean_total(outcomes: Seq<GroupPlanning>, k: int) -> int
    decreases k,
{
    if k <= 0 || k > outcomes.len() {
        0
    } else {
        clean_total(outcomes, k - 1) + match outcomes[k - 1] {
            GroupPlanning::Planned(g) => if g.clean { 1int } else { 0 },
            _ => 0,
        }
    }
}

/// The planned groups with moves among the first `k` outcomes, in order,
/// exactly as they were planned.
pub open spec fn planned_groups(outcomes: Seq<GroupPlanning>, k: int) -> Seq<NormalizeGroupPlan>
    decreases k,
{
    if k <= 0 || k > outcomes.len() {
        Seq::empty()
    } else {
        let prev = planned_groups(outcomes, k - 1);
        match outcomes[k - 1] {
            GroupPlanning::Planned(g) => if !g.clean { prev.push(g) } else { prev },
            _ => prev,
        }
    }
}

/// The moves of `groups`, added up.
pub open spec fn ops_sum(groups: Seq<NormalizeGroupPlan>) -> int
    decreases groups.len(),
{
    if groups.len() == 0 {
        0
    } else {
        ops_sum(groups.drop_last()) + groups.last().ops@.len()
    }
}

/// What a listed group says, by its text: name, designer, target folder,
/// moves, notes, folders that empty out, and whether it is clean.
pub type GroupView = (Seq<char>, Seq<char>, Seq<char>, Seq<OpView>, Seq<Seq<char>>, Seq<Seq<char>>, bool);

/// The view of a planned group.
pub open spec fn group_view(g: NormalizeGroupPlan) -> GroupView {
    (g.group_name@, g.designer@, g.target_dir@, ops_view(g.ops@), texts(g.notes@), texts(g.old_dirs@), g.clean)
}

/// The skips among the first `k` outcomes, in order: (group, reason).
pub open spec fn skips(outcomes: Seq<GroupPlanning>, k: int) -> Seq<(Seq<char>, Seq<char>)>
    decreases k,
{
    if k <= 0 || k > outcomes.len() {
        Seq::empty()
    } else {
        let prev = skips(outcomes, k - 1);
        match outcomes[k - 1] {
            GroupPlanning::Skipped(sk) => prev.push((sk.group_name@, sk.reason@)),
            _ => prev,
        }
    }
}

/// Some outcome ran out of numbered names.
pub open spec fn any_out_of_names(outcomes: Seq<GroupPlanning>) -> bool {
    exists|k: int| 0 <= k < outcomes.len() && #[trigger] outcomes[k] is OutOfNames
}

proof fn lemma_totals_nonneg(outcomes: Seq<GroupPlanning>, k: int)
    ensures
        0 <= ops_total(outcomes, k),
        0 <= clean_total(outcomes, k) <= k || k <= 0 || k > outcomes.len(),
    decreases k,
{
    if k > 0 && k <= outcomes.len() {
        lemma_totals_nonneg(outcomes, k - 1);
    }
}

proof fn lemma_totals_mono(outcomes: Seq<GroupPlanning>, j: int, k: int)
    requires
        0 <= j <= k <= outcomes.len(),
    ensures
        ops_total(outcomes, j) <= ops_total(outcomes, k),
    decreases k - j,
{
    if j < k {
        lemma_totals_mono(outcomes, j, k - 1);
    }
}

/// Every planned outcome is marked clean exactly when it has no moves.
pub open spec fn clean_means_no_moves(outcomes: Seq<GroupPlanning>) -> bool {
    forall|k: int| 0 <= k < outcomes.len() ==> (#[trigger] outcomes[k] matches GroupPlanning::Planned(g) ==> g.clean
        == (g.ops@.len() == 0))
}

/// The plan of all groups, from each group's outcome in group order;
/// `None` when some group ran out of numbered names. When every planned
/// outcome is clean exactly when it has no moves, every group the plan
/// lists has moves.
#[verifier::loop_isolation(false)]
pub fn assemble_plan(outcomes: Vec<GroupPlanning>) -> (r: Option<NormalizePlan>)
    requires
        ops_total(outcomes@, outcomes@.len() as int) <= u32::MAX,
        outcomes@.len() <= u32::MAX,
    ensures
        any_out_of_names(outcomes@) ==> r is None,
        clean_means_no_moves(outcomes@) ==> (r matches Some(p) ==> forall|k: int|
            0 <= k < p.groups@.len() ==> (#[trigger] p.groups@[k]).ops@.len() > 0),
        !any_out_of_names(outcomes@) ==> (r matches Some(p) && {
            &&& p.groups@ == planned_groups(outcomes@, outcomes@.len() as int)
            &&& forall|k: int| 0 <= k < p.groups@.len() ==> !(#[trigger] p.groups@[k]).clean
            &&& p.skipped@.map_values(|sk: NormalizeSkip| (sk.group_name@, sk.reason@)) == skips(outcomes@, outcomes@.len() as int)
            &&& p.clean_groups == clean_total(outcomes@, outcomes@.len() as int)
            &&& p.total_ops == ops_total(outcomes@, outcomes@.len() as int)
        }),
{
    let ghost ov = outcomes@;
    let mut groups: Vec<NormalizeGroupPlan> = Vec::new();
    let mut skipped: Vec<NormalizeSkip> = Vec::new();
    let mut clean: u32 = 0;
    let mut total: u32 = 0;
    let mut k: usize = 0;
    let n = outcomes.len();
    let mut rest = outcomes;
    while k < n
        invariant
            0 <= k <= n,
            n == ov.len(),
            rest@ == ov.skip(k as int),
            forall|x: int| 0 <= x < k ==> !(#[trigger] ov[x] is OutOfNames),
            groups@ == planned_groups(ov, k as int),
            forall|x: int| 0 <= x < groups@.len() ==> !(#[trigger] groups@[x]).clean,
            clean_means_no_moves(ov) ==> forall|x: int| 0 <= x < groups@.len() ==> (#[trigger] groups@[x]).ops@.len() > 0,
            skipped@.map_values(|sk: NormalizeSkip| (sk.group_name@, sk.reason@)) == skips(ov, k as int),
            clean as int == clean_total(ov, k as int),
            total as int == ops_total(ov, k as int),
            clean <= k,
        decreases n - k,
    {
        proof {
            lemma_totals_mono(ov, k + 1, n as int);
            lemma_totals_nonneg(ov, k as int);
        }
        assert(rest@[0] == ov[k as int]);
        let o = rest.remove(0);
        assert(rest@ =~= ov.skip(k + 1));
        assert(o == ov[k as int]);
        match o {
            GroupPlanning::Planned(g) => {
                total = total + g.ops.len() as u32;
                if g.clean {
                    clean = clean + 1;
                } else {
                    groups.push(g);
                }
            },
            GroupPlanning::Skipped(sk) => {
                let ghost pre = skipped@;
                skipped.push(sk);
                assert(skipped@.map_values(|sk: NormalizeSkip| (sk.group_name@, sk.reason@)) =~= pre.map_values(|sk: NormalizeSkip| (sk.group_name@, sk.reason@)).push((skipped@[pre.len() as int].group_name@, skipped@[pre.len() as int].reason@)));
            },
            GroupPlanning::OutOfNames => {
                return None;
            },
        }
        k += 1;
    }
    Some(NormalizePlan { groups, skipped, clean_groups: clean, total_ops: total })
}


/// The indices among the first `k` whose key is `key`, in order.
pub open spec fn indices_with(keys: Seq<Seq<char>>, key: Seq<char>, k: int) -> Seq<int>
    decreases k,
{
    if k <= 0 || k > keys.len() {
        Seq::empty()
    } else if keys[k - 1] == key {
        indices_with(keys, key, k - 1).push(k - 1)
    } else {
        indices_with(keys, key, k - 1)
    }
}

/// The grouping key of each display name: its lowercase.
pub open spec fn group_keys(names: Seq<String>) -> Seq<Seq<char>> {
    names.map_values(|n: String| lowercase(n@))
}

/// Groups members by display name, ignoring case: one group per distinct
/// lowercased name, groups in increasing order of that key, each holding
/// its members' indices in catalog order.
pub fn group_members(names: &Vec<String>) -> (r: Vec<Vec<usize>>)
    ensures
        exists|order: Seq<Seq<char>>| {
            &&& #[trigger] sorted_distinct_ok(order, group_keys(names@))
            &&& r@.len() == order.len()
            &&& forall|g: int| 0 <= g < r@.len() ==> (#[trigger] r@[g])@.map_values(|x: usize| x as int)
                == indices_with(group_keys(names@), order[g], names@.len() as int)
        },
{
    let mut keys: Vec<String> = Vec::new();
    let mut i: usize = 0;
    while i < names.len()
        invariant
            0 <= i <= names.len(),
            texts(keys@) == group_keys(names@).take(i as int),
        decreases names.len() - i,
    {
        let ghost pre = texts(keys@);
        let l = to_lowercase(names[i].as_str());
        keys.push(l);
        assert(texts(keys@) =~= pre.push(l@));
        assert(texts(keys@) =~= group_keys(names@).take(i + 1));
        i += 1;
    }
    assert(texts(keys@) =~= group_keys(names@));
    let order = sorted_distinct(&keys);
    let ghost kv = texts(keys@);
    let ghost ov = texts(order@);
    let mut out: Vec<Vec<usize>> = Vec::new();
    let mut g: usize = 0;
    while g < order.len()
        invariant
            0 <= g <= order.len(),
            kv == texts(keys@),
            ov == texts(order@),
            keys.len() == names.len(),
            out@.len() == g,
            forall|x: int| 0 <= x < g ==> (#[trigger] out@[x])@.map_values(|y: usize| y as int)
                == indices_with(kv, ov[x], kv.len() as int),
        decreases order.len() - g,
    {
        let key = chars_of(order[g].as_str());
        assert(key@ == ov[g as int]);
        let mut idxs: Vec<usize> = Vec::new();
        let mut k: usize = 0;
        while k < keys.len()
            invariant
                0 <= k <= keys.len(),
                kv == texts(keys@),
                key@ == ov[g as int],
                idxs@.map_values(|y: usize| y as int) == indices_with(kv, key@, k as int),
            decreases keys.len() - k,
        {
            let kc = chars_of(keys[k].as_str());
            assert(kv[k as int] == kc@);
            if chars_eq(&kc, &key) {
                let ghost pre = idxs@;
                idxs.push(k);
                assert(idxs@.map_values(|y: usize| y as int) =~= pre.map_values(|y: usize| y as int).push(k as int));
            }
            k += 1;
        }
        out.push(idxs);
        g += 1;
    }
    assert(sorted_distinct_ok(ov, group_keys(names@)));
    out
}


/// The images among `names` (file names): those whose extension,
/// lowercased, is an image extension.
pub open spec fn image_names_spec(names: Seq<String>, k: int) -> Seq<Seq<char>>
    decreases k,
{
    if k <= 0 || k > names.len() {
        Seq::empty()
    } else {
        let prev = image_names_spec(names, k - 1);
        match extension_of(names[k - 1]@) {
            Some(e) => if is_image_extension(lowercase(e)) { prev.push(names[k - 1]@) } else { prev },
            None => prev,
        }
    }
}

/// The image files among `names`, in order.
pub fn image_names(names: &Vec<String>) -> (r: Vec<String>)
    ensures
        texts(r@) == image_names_spec(names@, names@.len() as int),
{
    let mut out: Vec<String> = Vec::new();
    let mut i: usize = 0;
    while i < names.len()
        invariant
            0 <= i <= names.len(),
            texts(out@) == image_names_spec(names@, i as int),
        decreases names.len() - i,
    {
        match path_extension(names[i].as_str()) {
            Some(e) => {
                let l = to_lowercase(e.as_str());
                if image_extension(l.as_str()) {
                    let ghost pre = texts(out@);
                    let n = names[i].clone();
                    out.push(n);
                    assert(texts(out@) =~= pre.push(n@));
                }
            },
            None => {},
        }
        i += 1;
    }
    out
}

/// How many times `c` occurs in `s`.
pub open spec fn count_char(s: Seq<char>, c: char) -> nat
    decreases s.len(),
{
    if s.len() == 0 {
        0
    } else {
        count_char(s.drop_last(), c) + if s.last() == c { 1nat } else { 0nat }
    }
}

/// `s` repeated `n` times.
pub open spec fn repeat(s: Seq<char>, n: nat) -> Seq<char>
    decreases n,
{
    if n == 0 {
        Seq::empty()
    } else {
        repeat(s, (n - 1) as nat) + s
    }
}

/// The images a leaf's `model.json` references: its own, else (for a leaf
/// strictly inside the model folder) the model folder's, reached with one
/// `../` per separator between the two; else none.
pub open spec fn member_images_spec(own: Seq<Seq<char>>, root_images: Seq<Seq<char>>, member_dir: Seq<char>, model_dir: Seq<char>, sep: char) -> Seq<Seq<char>> {
    if own.len() > 0 {
        own
    } else if under_sep(member_dir, model_dir, sep) && member_dir != model_dir {
        let depth = count_char(member_dir.subrange(model_dir.len() as int, member_dir.len() as int), sep);
        root_images.map_values(|img: Seq<char>| repeat("../"@, depth) + img)
    } else {
        Seq::empty()
    }
}

/// The image references of a leaf's `model.json`.
pub fn member_images(own: Vec<String>, root_images: &Vec<String>, member_dir: &str, model_dir: &str, sep: char) -> (r: Vec<String>)
    ensures
        texts(r@) == member_images_spec(texts(own@), texts(root_images@), member_dir@, model_dir@, sep),
{
    if own.len() > 0 {
        return own;
    }
    let dv = chars_of(member_dir);
    let mv = chars_of(model_dir);
    if !(under_chars(&dv, &mv, sep) && !chars_eq(&dv, &mv)) {
        let e: Vec<String> = Vec::new();
        assert(texts(e@) =~= Seq::<Seq<char>>::empty());
        return e;
    }
    let rest = slice(&dv, mv.len(), dv.len());
    let mut depth: usize = 0;
    let mut j: usize = 0;
    while j < rest.len()
        invariant
            0 <= j <= rest.len(),
            depth == count_char(rest@.take(j as int), sep),
            depth <= j,
        decreases rest.len() - j,
    {
        assert(rest@.take(j + 1).drop_last() =~= rest@.take(j as int));
        if rest[j] == sep {
            depth += 1;
        }
        j += 1;
    }
    assert(rest@.take(rest.len() as int) =~= rest@);
    let mut up: Vec<char> = Vec::new();
    let mut t: usize = 0;
    while t < depth
        invariant
            0 <= t <= depth,
            up@ == repeat("../"@, t as nat),
        decreases depth - t,
    {
        append_str(&mut up, "../");
        t += 1;
    }
    let ghost rv = texts(root_images@);
    let mut out: Vec<String> = Vec::new();
    let mut k: usize = 0;
    while k < root_images.len()
        invariant
            0 <= k <= root_images.len(),
            up@ == repeat("../"@, depth as nat),
            rv == texts(root_images@),
            texts(out@) == rv.map_values(|img: Seq<char>| repeat("../"@, depth as nat) + img).take(k as int),
        decreases root_images.len() - k,
    {
        let mut c = up.clone();
        append_str(&mut c, root_images[k].as_str());
        let ghost pre = texts(out@);
        let cs = string_of(&c);
        assert(rv[k as int] == root_images@[k as int]@);
        assert(cs@ == repeat("../"@, depth as nat) + rv[k as int]);
        out.push(cs);
        assert(texts(out@) =~= pre.push(cs@));
        assert(texts(out@) =~= rv.map_values(|img: Seq<char>| repeat("../"@, depth as nat) + img).take(k + 1));
        k += 1;
    }
    assert(rv.map_values(|img: Seq<char>| repeat("../"@, depth as nat) + img).take(root_images.len() as int)
        =~= rv.map_values(|img: Seq<char>| repeat("../"@, depth as nat) + img));
    out
}

/// The pose a leaf's `model.json` states at directory level: none once
/// its files carry poses, so the two can't disagree after a rescan.
pub fn dir_pose(has_file_poses: bool, pose: Option<String>) -> (r: Option<String>)
    ensures
        has_file_poses ==> r is None,
        !has_file_poses ==> opt_text(r) == opt_text(pose),
{
    if has_file_poses {
        None
    } else {
        pose
    }
}


/// A move only renames in place when the names differ in ASCII case alone;
/// a case-insensitive volume reports such a destination as existing.
pub open spec fn case_only(from: Seq<char>, to: Seq<char>) -> bool {
    eq_ignore_ascii_case(from, to) && from != to
}

/// Whether a "dir" or "file" move may go ahead, given whether its source
/// and destination exist on disk; the error otherwise.
pub fn check_move(from: &str, to: &str, from_exists: bool, to_exists: bool) -> (r: Result<(), String>)
    ensures
        !from_exists ==> (r matches Err(m) && m@ == "Source not found: "@ + from@),
        from_exists && to_exists && !case_only(from@, to@) ==> (r matches Err(m) && m@ == "Destination already exists: "@ + to@),
        from_exists && !(to_exists && !case_only(from@, to@)) ==> r is Ok,
{
    if !from_exists {
        let mut m: Vec<char> = Vec::new();
        append_str(&mut m, "Source not found: ");
        append_str(&mut m, from);
        return Err(string_of(&m));
    }
    let fv = chars_of(from);
    let tv = chars_of(to);
    let case_only_rename = chars_eq_ignore_ascii_case(&fv, &tv) && !chars_eq(&fv, &tv);
    if to_exists && !case_only_rename {
        let mut m: Vec<char> = Vec::new();
        append_str(&mut m, "Destination already exists: ");
        append_str(&mut m, to);
        return Err(string_of(&m));
    }
    Ok(())
}

/// Whether a "drop" may delete `from`: the kept copy must still be there
/// and `from` must still be identical to it (anything may have changed
/// since planning); the error otherwise.
pub fn check_drop(from: &str, to_is_file: bool, from_is_file: bool, identical: bool) -> (r: Result<(), String>)
    ensures
        !to_is_file ==> (r matches Err(m) && m@ == "Kept copy missing, duplicate left in place: "@ + from@),
        to_is_file && !(from_is_file && identical) ==> (r matches Err(m)
            && m@ == "No longer identical to the kept copy, left in place: "@ + from@),
        to_is_file && from_is_file && identical ==> r is Ok,
{
    if !to_is_file {
        let mut m: Vec<char> = Vec::new();
        append_str(&mut m, "Kept copy missing, duplicate left in place: ");
        append_str(&mut m, from);
        return Err(string_of(&m));
    }
    if !from_is_file || !identical {
        let mut m: Vec<char> = Vec::new();
        append_str(&mut m, "No longer identical to the kept copy, left in place: ");
        append_str(&mut m, from);
        return Err(string_of(&m));
    }
    Ok(())
}

/// The pose worth recording for a moved file: a pose that is not blank.
pub fn pose_to_record(pose: Option<&str>) -> (r: Option<String>)
    ensures
        r matches Some(p) ==> (pose matches Some(q) && p@ == q@ && trim(q@).len() > 0),
        r is None ==> (pose is None || trim(pose.unwrap()@).len() == 0),
{
    match pose {
        Some(p) => {
            let t = trim_chars(&chars_of(p));
            if t.len() > 0 {
                Some(lit(p))
            } else {
                None
            }
        },
        None => None,
    }
}


/// The number `first_free_from` finds is free.
proof fn lemma_first_free(name: Seq<char>, taken: Seq<Seq<char>>, n: int)
    ensures
        first_free_from(name, taken, n) matches Some(m) ==> numbered_free(name, m, taken) && 2 <= m <= MAX_NUMBER,
    decreases MAX_NUMBER + 1 - n,
{
    if n >= 2 && n <= MAX_NUMBER && !numbered_free(name, n as nat, taken) {
        lemma_first_free(name, taken, n + 1);
    }
}

/// A clashing file's numbered name is one no file of its build folder
/// claimed: its lowercase is not among the claimed names.
pub proof fn numbered_name_is_free(name: Seq<char>, taken: Seq<Seq<char>>)
    ensures
        numbered_spec(name, taken) matches Some(c) ==> !taken.contains(lowercase(c)),
{
    lemma_first_free(name, taken, 2);
}

proof fn lemma_bucket_size_at_most_one(members: Seq<PlanMember>, leaf: Seq<char>, k: int)
    requires
        forall|i: int, j: int| 0 <= i < j < members.len() ==> (#[trigger] members[i]).leaf@ != (#[trigger] members[j]).leaf@,
    ensures
        bucket_size(members, leaf, k) <= 1,
        bucket_size(members, leaf, k) == 1 ==> exists|i: int| 0 <= i < k && i < members.len() && #[trigger] members[i].leaf@ == leaf,
    decreases k,
{
    if k > 0 && k <= members.len() {
        lemma_bucket_size_at_most_one(members, leaf, k - 1);
        if members[k - 1].leaf@ == leaf && bucket_size(members, leaf, k - 1) == 1 {
            let i = choose|i: int| 0 <= i < k - 1 && i < members.len() && #[trigger] members[i].leaf@ == leaf;
            assert(members[i].leaf@ != members[k - 1].leaf@);
        }
    }
}

proof fn lemma_bucket_in_place(
    st: PlanSt,
    members: Seq<PlanMember>,
    all_dirs: Seq<Seq<char>>,
    facts: Seq<ContentFacts>,
    leaf: Seq<char>,
    sep: char,
    k: int,
)
    requires
        st.ops.len() == 0,
        !st.exhausted,
        forall|i: int| 0 <= i < members.len() ==> (#[trigger] members[i]).dir@ == members[i].leaf@,
    ensures
        bucket_fold(st, members, dirs_of(members), all_dirs, facts, leaf, false, sep, k).ops.len() == 0,
        !bucket_fold(st, members, dirs_of(members), all_dirs, facts, leaf, false, sep, k).exhausted,
    decreases k,
{
    if k > 0 && k <= members.len() {
        lemma_bucket_in_place(st, members, all_dirs, facts, leaf, sep, k - 1);
        assert(dirs_of(members)[k - 1] == members[k - 1].dir@);
    }
}

proof fn lemma_buckets_in_place(
    members: Seq<PlanMember>,
    model_dir: Seq<char>,
    all_dirs: Seq<Seq<char>>,
    facts: Seq<ContentFacts>,
    order: Seq<Seq<char>>,
    sep: char,
    k: int,
)
    requires
        forall|i: int| 0 <= i < members.len() ==> (#[trigger] members[i]).dir@ == members[i].leaf@,
        forall|i: int, j: int| 0 <= i < j < members.len() ==> (#[trigger] members[i]).leaf@ != (#[trigger] members[j]).leaf@,
    ensures
        buckets_fold(start_state(members, None, model_dir), members, dirs_of(members), all_dirs, facts, order, sep, k).ops.len() == 0,
        !buckets_fold(start_state(members, None, model_dir), members, dirs_of(members), all_dirs, facts, order, sep, k).exhausted,
    decreases k,
{
    if k > 0 && k <= order.len() {
        lemma_buckets_in_place(members, model_dir, all_dirs, facts, order, sep, k - 1);
        let prev = buckets_fold(start_state(members, None, model_dir), members, dirs_of(members), all_dirs, facts, order, sep, k - 1);
        let leaf = order[k - 1];
        lemma_bucket_size_at_most_one(members, leaf, members.len() as int);
        let fresh = PlanSt { ops: prev.ops, notes: prev.notes, old_dirs: prev.old_dirs, used: Seq::empty(), anchored: false, exhausted: prev.exhausted };
        lemma_bucket_in_place(fresh, members, all_dirs, facts, leaf, sep, members.len() as int);
    }
}

/// A group whose members already sit in their own build folders moves
/// nothing: when no member is outside the root, no other model's folder
/// lies inside a member, the base does not move wholesale, each member's
/// directory is its desired leaf, and no two members share a leaf, the
/// plan is clean.
pub proof fn in_place_group_is_clean(
    r: GroupPlanning,
    display: Seq<char>,
    designer: Seq<char>,
    root: Seq<char>,
    model_dir: Seq<char>,
    members: Seq<PlanMember>,
    all_dirs: Seq<String>,
    facts: Seq<ContentFacts>,
    base: Option<Seq<char>>,
    sep: char,
)
    requires
        group_plan_matches(r, display, designer, root, model_dir, members, all_dirs, facts, base, sep),
        outside_at(members, root, sep, 0) is None,
        wholesale_spec(base, root, model_dir, texts(all_dirs), members, sep) is None,
        tangled_at(members, texts(all_dirs), sep, 0) is None,
        forall|i: int| 0 <= i < members.len() ==> (#[trigger] members[i]).dir@ == members[i].leaf@,
        forall|i: int, j: int| 0 <= i < j < members.len() ==> (#[trigger] members[i]).leaf@ != (#[trigger] members[j]).leaf@,
    ensures
        r matches GroupPlanning::Planned(g) && g.clean && g.ops@.len() == 0,
{
    let ad = texts(all_dirs);
    let order = choose|order: Seq<Seq<char>>| #[trigger] leaf_order_ok(order, members) && {
        let st = buckets_fold(start_state(members, None, model_dir), members, cur_spec(members, None, model_dir), ad, facts, order, sep, order.len() as int);
        &&& st.exhausted ==> r is OutOfNames
        &&& !st.exhausted ==> (r matches GroupPlanning::Planned(g) && {
            &&& g.group_name@ == display
            &&& g.designer@ == designer
            &&& g.target_dir@ == model_dir
            &&& ops_view(g.ops@) == st.ops
            &&& texts(g.notes@) == st.notes
            &&& texts(g.old_dirs@) == st.old_dirs
            &&& g.clean == (st.ops.len() == 0)
        })
    };
    lemma_buckets_in_place(members, model_dir, ad, facts, order, sep, order.len() as int);
}


/// Strictly increasing.
pub open spec fn increasing(o: Seq<Seq<char>>) -> bool {
    forall|a: int, b: int| 0 <= a < b < o.len() ==> lex_lt(#[trigger] o[a], #[trigger] o[b])
}

proof fn lemma_increasing_same_elements(o1: Seq<Seq<char>>, o2: Seq<Seq<char>>)
    requires
        increasing(o1),
        increasing(o2),
        forall|a: int| 0 <= a < o1.len() ==> o2.contains(#[trigger] o1[a]),
        forall|a: int| 0 <= a < o2.len() ==> o1.contains(#[trigger] o2[a]),
    ensures
        o1 == o2,
    decreases o1.len(),
{
    if o1.len() == 0 {
        if o2.len() > 0 {
            assert(o1.contains(o2[0]));
        }
        assert(o1 =~= o2);
    } else {
        assert(o2.contains(o1[0]));
        let j = choose|j: int| 0 <= j < o2.len() && o2[j] == o1[0];
        assert(o1.contains(o2[0]));
        let i = choose|i: int| 0 <= i < o1.len() && o1[i] == o2[0];
        if j > 0 {
            assert(lex_lt(o2[0], o2[j]));
            if i > 0 {
                assert(lex_lt(o1[0], o1[i]));
                lemma_lex_transitive(o1[0], o2[0], o1[0]);
            }
            lemma_lex_irreflexive(o1[0]);
        }
        assert(o1[0] == o2[0]);
        let r1 = o1.drop_first();
        let r2 = o2.drop_first();
        assert forall|a: int| 0 <= a < r1.len() implies r2.contains(#[trigger] r1[a]) by {
            assert(r1[a] == o1[a + 1]);
            assert(o2.contains(o1[a + 1]));
            let k = choose|k: int| 0 <= k < o2.len() && o2[k] == o1[a + 1];
            assert(lex_lt(o1[0], o1[a + 1]));
            if k == 0 {
                lemma_lex_irreflexive(o1[0]);
            }
            assert(r2[k - 1] == o2[k]);
        }
        assert forall|a: int| 0 <= a < r2.len() implies r1.contains(#[trigger] r2[a]) by {
            assert(r2[a] == o2[a + 1]);
            assert(o1.contains(o2[a + 1]));
            let k = choose|k: int| 0 <= k < o1.len() && o1[k] == o2[a + 1];
            assert(lex_lt(o2[0], o2[a + 1]));
            if k == 0 {
                lemma_lex_irreflexive(o2[0]);
            }
            assert(r1[k - 1] == o1[k]);
        }
        lemma_increasing_same_elements(r1, r2);
        assert(o1 =~= seq![o1[0]] + r1);
        assert(o2 =~= seq![o2[0]] + r2);
    }
}

/// The order of a set of keys is determined by the keys: two orders that
/// each list every key once, increasing, are the same.
pub proof fn sorted_order_is_unique(o1: Seq<Seq<char>>, o2: Seq<Seq<char>>, keys: Seq<Seq<char>>)
    requires
        sorted_distinct_ok(o1, keys),
        sorted_distinct_ok(o2, keys),
    ensures
        o1 == o2,
{
    assert forall|a: int| 0 <= a < o1.len() implies o2.contains(#[trigger] o1[a]) by {
        assert(keys.contains(o1[a]));
        let i = choose|i: int| 0 <= i < keys.len() && keys[i] == o1[a];
        assert(o2.contains(keys[i]));
    }
    assert forall|a: int| 0 <= a < o2.len() implies o1.contains(#[trigger] o2[a]) by {
        assert(keys.contains(o2[a]));
        let i = choose|i: int| 0 <= i < keys.len() && keys[i] == o2[a];
        assert(o1.contains(keys[i]));
    }
    lemma_increasing_same_elements(o1, o2);
}


/// What may be deleted with an emptied folder: the catalog's own sidecars
/// and operating-system litter, as files.
pub open spec fn is_litter(name: Seq<char>, is_file: bool) -> bool {
    is_file && (name == "model.json"@ || name == "release.json"@ || name == ".DS_Store"@ || name == "Thumbs.db"@)
}

/// Whether a folder holding `entries` (name, is a file) holds nothing but
/// litter, so sweeping may remove it; user files are never deleted.
pub fn only_litter(entries: &Vec<(String, bool)>) -> (r: bool)
    ensures
        r == forall|k: int| 0 <= k < entries.len() ==> is_litter(#[trigger] entries@[k].0@, entries@[k].1),
{
    let mut k: usize = 0;
    while k < entries.len()
        invariant
            0 <= k <= entries.len(),
            forall|x: int| 0 <= x < k ==> is_litter(#[trigger] entries@[x].0@, entries@[x].1),
        decreases entries.len() - k,
    {
        let n = chars_of(entries[k].0.as_str());
        let litter = entries[k].1 && (eq_lit_local(&n, "model.json") || eq_lit_local(&n, "release.json")
            || eq_lit_local(&n, ".DS_Store") || eq_lit_local(&n, "Thumbs.db"));
        if !litter {
            return false;
        }
        k += 1;
    }
    true
}

} // verus!

verus! {

/// What the catalog gives for planning one model group: its display name,
/// the designers its members state (in member order), the model folder
/// the layout wants for it, and its members.
#[derive(Debug, Clone)]
pub struct GroupInput {
    pub display: String,
    pub designers: Vec<Option<String>>,
    pub model_dir: String,
    pub members: Vec<PlanMember>,
}

/// The text of an optional filter.
pub open spec fn opt_str(o: Option<&str>) -> Option<Seq<char>> {
    match o {
        Some(s) => Some(s@),
        None => None,
    }
}

/// How [`group_gate`] decides a group: `None` when a filter leaves it out,
/// `Some(None)` when it is skipped for want of a designer, and
/// `Some(Some(d))` when it is planned under designer `d`.
pub open spec fn gate_spec(
    display: Seq<char>,
    designers: Seq<Option<String>>,
    group_filter: Option<Seq<char>>,
    designer_filter: Option<Seq<char>>,
) -> Option<Option<Seq<char>>> {
    let d = first_some_spec(designers, 0);
    if group_filter matches Some(f) && !eq_ignore_ascii_case(display, trim(f)) {
        None
    } else if designer_filter matches Some(f) && !(d matches Some(dv) && eq_ignore_ascii_case(dv, trim(f))) {
        None
    } else {
        Some(d)
    }
}

/// Whether and how the filters let group `g` into the plan.
pub open spec fn gate_of(g: GroupInput, group_filter: Option<Seq<char>>, designer_filter: Option<Seq<char>>) -> Option<Option<Seq<char>>> {
    gate_spec(g.display@, g.designers@, group_filter, designer_filter)
}

/// The indices, among the first `k` groups, of those the filters let in.
pub open spec fn gated(
    groups: Seq<GroupInput>,
    group_filter: Option<Seq<char>>,
    designer_filter: Option<Seq<char>>,
    k: int,
) -> Seq<int>
    decreases k,
{
    if k <= 0 || k > groups.len() {
        Seq::empty()
    } else if gate_of(groups[k - 1], group_filter, designer_filter) is Some {
        gated(groups, group_filter, designer_filter, k - 1).push(k - 1)
    } else {
        gated(groups, group_filter, designer_filter, k - 1)
    }
}

/// `o` is how planning group `g` comes out under gate `gate`: skipped for
/// want of a designer, or planned under the designer as [`plan_group`]
/// plans it, its base the members' common ancestor.
pub open spec fn outcome_fits(
    o: GroupPlanning,
    g: GroupInput,
    gate: Option<Option<Seq<char>>>,
    root: Seq<char>,
    all_dirs: Seq<String>,
    facts: Seq<ContentFacts>,
    sep: char,
) -> bool {
    match gate {
        Some(None) => o matches GroupPlanning::Skipped(sk) && sk.group_name@ == g.display@ && sk.reason@
            == no_designer_text(),
        Some(Some(d)) => plannable(g.members@) && group_plan_matches(
            o,
            g.display@,
            d,
            root,
            g.model_dir@,
            g.members@,
            all_dirs,
            facts,
            common_ancestor_spec(dirs_of(g.members@)),
            sep,
        ),
        None => false,
    }
}

/// `outs` are the outcomes of the groups the filters let in, in group
/// order.
pub open spec fn catalog_outcomes(
    outs: Seq<GroupPlanning>,
    groups: Seq<GroupInput>,
    group_filter: Option<Seq<char>>,
    designer_filter: Option<Seq<char>>,
    root: Seq<char>,
    all_dirs: Seq<String>,
    facts: Seq<ContentFacts>,
    sep: char,
) -> bool {
    let idx = gated(groups, group_filter, designer_filter, groups.len() as int);
    &&& outs.len() == idx.len()
    &&& forall|k: int| 0 <= k < outs.len() ==> outcome_fits(
        #[trigger] outs[k],
        groups[idx[k]],
        gate_of(groups[idx[k]], group_filter, designer_filter),
        root,
        all_dirs,
        facts,
        sep,
    )
}

/// `p` is the plan assembled from `outs`: the groups with moves exactly as
/// they were planned (each with moves to make), the skips, the clean count,
/// and the number of moves, which is the listed groups' moves added up.
pub open spec fn plan_assembled(p: NormalizePlan, outs: Seq<GroupPlanning>) -> bool {
    &&& p.groups@ == planned_groups(outs, outs.len() as int)
    &&& forall|k: int| 0 <= k < p.groups@.len() ==> !(#[trigger] p.groups@[k]).clean && p.groups@[k].ops@.len() > 0
    &&& p.total_ops == ops_sum(p.groups@)
    &&& p.skipped@.map_values(|sk: NormalizeSkip| (sk.group_name@, sk.reason@)) == skips(outs, outs.len() as int)
    &&& p.clean_groups == clean_total(outs, outs.len() as int)
    &&& p.total_ops == ops_total(outs, outs.len() as int)
}

/// A planned outcome is clean exactly when it has no moves.
proof fn lemma_fits_clean(
    o: GroupPlanning,
    g: GroupInput,
    gate: Option<Option<Seq<char>>>,
    root: Seq<char>,
    all_dirs: Seq<String>,
    facts: Seq<ContentFacts>,
    sep: char,
)
    requires
        outcome_fits(o, g, gate, root, all_dirs, facts, sep),
    ensures
        o matches GroupPlanning::Planned(p) ==> p.clean == (p.ops@.len() == 0),
{
    if let Some(Some(d)) = gate {
        if let GroupPlanning::Planned(p) = o {
            let base = common_ancestor_spec(dirs_of(g.members@));
            let ad = texts(all_dirs);
            if outside_at(g.members@, root, sep, 0) is None {
                let w = wholesale_spec(base, root, g.model_dir@, ad, g.members@, sep);
                if w is Some || tangled_at(g.members@, ad, sep, 0) is None {
                    let order = choose|order: Seq<Seq<char>>| {
                        let st = buckets_fold(start_state(g.members@, w, g.model_dir@), g.members@, cur_spec(g.members@, w, g.model_dir@), ad, facts, order, sep, order.len() as int);
                        &&& #[trigger] leaf_order_ok(order, g.members@)
                        &&& st.exhausted ==> o is OutOfNames
                        &&& !st.exhausted ==> (o matches GroupPlanning::Planned(g2) && {
                            &&& g2.group_name@ == g.display@
                            &&& g2.designer@ == d
                            &&& g2.target_dir@ == g.model_dir@
                            &&& ops_view(g2.ops@) == st.ops
                            &&& texts(g2.notes@) == st.notes
                            &&& texts(g2.old_dirs@) == st.old_dirs
                            &&& g2.clean == (st.ops.len() == 0)
                        })
                    };
                    assert(ops_view(p.ops@).len() == p.ops@.len());
                }
            }
        }
    }
}

/// Plans the whole catalog from its groups in group order: each group the
/// filters let in is skipped for want of a designer or planned under its
/// designer as [`plan_group`] plans it, and the outcomes are assembled as
/// [`assemble_plan`] does; every group the plan lists has moves to make.
/// `None` when a group let in cannot be planned from what was given, when
/// a group ran out of numbered names, or when the moves (or outcomes)
/// outnumber what a `u32` counts.
#[verifier::loop_isolation(false)]
pub fn plan_catalog(
    root: &str,
    groups: &Vec<GroupInput>,
    all_dirs: &Vec<String>,
    facts: &Vec<ContentFacts>,
    sep: char,
    group_filter: Option<&str>,
    designer_filter: Option<&str>,
) -> (r: Option<NormalizePlan>)
    ensures
        (exists|i: int|
            0 <= i < groups.len() && (#[trigger] gate_of(groups@[i], opt_str(group_filter), opt_str(designer_filter))
                matches Some(Some(_))) && !plannable(groups@[i].members@)) ==> r is None,
        (forall|i: int|
            0 <= i < groups.len() && (#[trigger] gate_of(groups@[i], opt_str(group_filter), opt_str(designer_filter))
                matches Some(Some(_))) ==> plannable(groups@[i].members@)) ==> exists|outs: Seq<GroupPlanning>| {
            &&& #[trigger] catalog_outcomes(outs, groups@, opt_str(group_filter), opt_str(designer_filter), root@, all_dirs@, facts@, sep)
            &&& r matches Some(p) ==> plan_assembled(p, outs)
            &&& r is None <==> (any_out_of_names(outs) || ops_total(outs, outs.len() as int) > u32::MAX || outs.len() > u32::MAX)
        },
{
    let ghost gf = opt_str(group_filter);
    let ghost df = opt_str(designer_filter);
    let mut outs: Vec<GroupPlanning> = Vec::new();
    let mut i: usize = 0;
    while i < groups.len()
        invariant
            0 <= i <= groups.len(),
            gf == opt_str(group_filter),
            df == opt_str(designer_filter),
            outs@.len() == gated(groups@, gf, df, i as int).len(),
            forall|j: int| 0 <= j < i && (#[trigger] gate_of(groups@[j], gf, df) matches Some(Some(_))) ==> plannable(groups@[j].members@),
            forall|x: int| 0 <= x < gated(groups@, gf, df, i as int).len() ==> 0 <= #[trigger] gated(groups@, gf, df, i as int)[x] < i,
            forall|k: int| 0 <= k < outs@.len() ==> outcome_fits(
                #[trigger] outs@[k],
                groups@[gated(groups@, gf, df, i as int)[k]],
                gate_of(groups@[gated(groups@, gf, df, i as int)[k]], gf, df),
                root@,
                all_dirs@,
                facts@,
                sep,
            ),
        decreases groups.len() - i,
    {
        let g = &groups[i];
        let ghost prev = gated(groups@, gf, df, i as int);
        let gate = group_gate(g.display.as_str(), &g.designers, group_filter, designer_filter);
        match gate {
            GroupGate::Excluded => {
                assert(gate_of(groups@[i as int], gf, df) is None);
                assert(gated(groups@, gf, df, i + 1) == prev);
            },
            GroupGate::Skip(sk) => {
                assert(gate_of(groups@[i as int], gf, df) == Some(None::<Seq<char>>));
                assert(gated(groups@, gf, df, i + 1) == prev.push(i as int));
                outs.push(GroupPlanning::Skipped(sk));
            },
            GroupGate::Plan(d) => {
                assert(gate_of(groups@[i as int], gf, df) == Some(Some(d@)));
                assert(gated(groups@, gf, df, i + 1) == prev.push(i as int));
                match plan_group_checked(
                    g.display.as_str(),
                    d.as_str(),
                    root,
                    g.model_dir.as_str(),
                    &g.members,
                    all_dirs,
                    facts,
                    sep,
                ) {
                    Some(o) => {
                        outs.push(o);
                    },
                    None => {
                        return None;
                    },
                }
            },
        }
        i += 1;
    }
    let ghost ov = outs@;
    proof {
        assert(catalog_outcomes(ov, groups@, gf, df, root@, all_dirs@, facts@, sep));
        assert forall|k: int| 0 <= k < ov.len() implies (#[trigger] ov[k] matches GroupPlanning::Planned(g) ==> g.clean
            == (g.ops@.len() == 0)) by {
            let idx = gated(groups@, gf, df, groups@.len() as int);
            lemma_fits_clean(ov[k], groups@[idx[k]], gate_of(groups@[idx[k]], gf, df), root@, all_dirs@, facts@, sep);
        }
        assert(clean_means_no_moves(ov));
    }
    if outs.len() > 4294967295usize {
        return None;
    }
    let mut total: u64 = 0;
    let mut k: usize = 0;
    while k < outs.len()
        invariant
            0 <= k <= outs.len(),
            ov == outs@,
            total as int == ops_total(ov, k as int),
            total <= u32::MAX,
        decreases outs.len() - k,
    {
        let n: usize = match &outs[k] {
            GroupPlanning::Planned(g) => g.ops.len(),
            _ => 0,
        };
        if n as u64 > 4294967295u64 - total {
            proof {
                lemma_totals_mono(ov, k + 1, ov.len() as int);
            }
            return None;
        }
        total = total + n as u64;
        k += 1;
    }
    let r = assemble_plan(outs);
    proof {
        lemma_ops_sum(ov, ov.len() as int);
    }
    r
}

/// When clean outcomes carry no moves, the moves of all outcomes are the
/// moves of the listed groups.
proof fn lemma_ops_sum(outs: Seq<GroupPlanning>, k: int)
    requires
        clean_means_no_moves(outs),
        0 <= k <= outs.len(),
    ensures
        ops_total(outs, k) == ops_sum(planned_groups(outs, k)),
    decreases k,
{
    if k > 0 {
        lemma_ops_sum(outs, k - 1);
        let prev = planned_groups(outs, k - 1);
        if let GroupPlanning::Planned(g) = outs[k - 1] {
            if !g.clean {
                assert(prev.push(g).drop_last() =~= prev);
            }
        }
    }
}

} // verus!

verus! {

/// What the assembled plan reads of one outcome: whether it is planned,
/// skipped or out of names, the skipped group and the reason, and what the
/// planned group says.
pub open spec fn outcome_summary(o: GroupPlanning) -> (int, Seq<char>, Seq<char>, GroupView) {
    let none: GroupView = (Seq::empty(), Seq::empty(), Seq::empty(), Seq::empty(), Seq::empty(), Seq::empty(), false);
    match o {
        GroupPlanning::Planned(g) => (0, Seq::empty(), Seq::empty(), group_view(g)),
        GroupPlanning::Skipped(sk) => (1, sk.group_name@, sk.reason@, none),
        GroupPlanning::OutOfNames => (2, Seq::empty(), Seq::empty(), none),
    }
}

/// Two outcomes that both fit a group agree on all the plan reads of them.
proof fn lemma_fits_agree(
    o1: GroupPlanning,
    o2: GroupPlanning,
    g: GroupInput,
    gate: Option<Option<Seq<char>>>,
    root: Seq<char>,
    all_dirs: Seq<String>,
    facts: Seq<ContentFacts>,
    sep: char,
)
    requires
        outcome_fits(o1, g, gate, root, all_dirs, facts, sep),
        outcome_fits(o2, g, gate, root, all_dirs, facts, sep),
    ensures
        outcome_summary(o1) == outcome_summary(o2),
{
    if let Some(Some(d)) = gate {
        let members = g.members@;
        let base = common_ancestor_spec(dirs_of(members));
        let ad = texts(all_dirs);
        if outside_at(members, root, sep, 0) is None {
            let w = wholesale_spec(base, root, g.model_dir@, ad, members, sep);
            if w is Some || tangled_at(members, ad, sep, 0) is None {
                let pick = |order: Seq<Seq<char>>, o: GroupPlanning| {
                    let st = buckets_fold(start_state(members, w, g.model_dir@), members, cur_spec(members, w, g.model_dir@), ad, facts, order, sep, order.len() as int);
                    &&& leaf_order_ok(order, members)
                    &&& st.exhausted ==> o is OutOfNames
                    &&& !st.exhausted ==> (o matches GroupPlanning::Planned(p) && {
                        &&& p.group_name@ == g.display@
                        &&& p.designer@ == d
                        &&& p.target_dir@ == g.model_dir@
                        &&& ops_view(p.ops@) == st.ops
                        &&& texts(p.notes@) == st.notes
                        &&& texts(p.old_dirs@) == st.old_dirs
                        &&& p.clean == (st.ops.len() == 0)
                    })
                };
                let order1 = choose|order: Seq<Seq<char>>| #[trigger] leaf_order_ok(order, members) && pick(order, o1);
                let order2 = choose|order: Seq<Seq<char>>| #[trigger] leaf_order_ok(order, members) && pick(order, o2);
                sorted_order_is_unique(order1, order2, leaves_of(members));
            }
        }
    }
}

/// Two outcome sequences that both fit the same catalog agree on every
/// total of the first `k`.
proof fn lemma_outcomes_agree(
    outs1: Seq<GroupPlanning>,
    outs2: Seq<GroupPlanning>,
    k: int,
)
    requires
        outs1.len() == outs2.len(),
        0 <= k <= outs1.len(),
        forall|x: int| 0 <= x < outs1.len() ==> outcome_summary(#[trigger] outs1[x]) == outcome_summary(outs2[x]),
    ensures
        planned_groups(outs1, k).map_values(|g: NormalizeGroupPlan| group_view(g)) == planned_groups(outs2, k).map_values(
            |g: NormalizeGroupPlan| group_view(g),
        ),
        skips(outs1, k) == skips(outs2, k),
        clean_total(outs1, k) == clean_total(outs2, k),
        ops_total(outs1, k) == ops_total(outs2, k),
    decreases k,
{
    if k > 0 {
        lemma_outcomes_agree(outs1, outs2, k - 1);
        let a = outs1[k - 1];
        let b = outs2[k - 1];
        assert(outcome_summary(a) == outcome_summary(b));
        let p1 = planned_groups(outs1, k - 1);
        let p2 = planned_groups(outs2, k - 1);
        match a {
            GroupPlanning::Planned(ga) => {
                if let GroupPlanning::Planned(gb) = b {
                    assert(ops_view(ga.ops@).len() == ga.ops@.len());
                    assert(ops_view(gb.ops@).len() == gb.ops@.len());
                    assert(group_view(ga) == group_view(gb));
                    if !ga.clean {
                        assert(p1.push(ga).map_values(|g: NormalizeGroupPlan| group_view(g)) =~= p1.map_values(
                            |g: NormalizeGroupPlan| group_view(g),
                        ).push(group_view(ga)));
                        assert(p2.push(gb).map_values(|g: NormalizeGroupPlan| group_view(g)) =~= p2.map_values(
                            |g: NormalizeGroupPlan| group_view(g),
                        ).push(group_view(gb)));
                    }
                }
            },
            _ => {},
        }
    }
}

/// Planning the same catalog twice gives the same plan: any two outcome
/// sequences that fit the same groups, filters, root, directories, disk
/// facts and separator list the same groups with moves (the same names,
/// designers, target folders, moves, notes and emptied folders), the same
/// skips, the same number of clean groups and of moves, and run out of
/// names alike.
pub proof fn repeated_plans_agree(
    outs1: Seq<GroupPlanning>,
    outs2: Seq<GroupPlanning>,
    groups: Seq<GroupInput>,
    group_filter: Option<Seq<char>>,
    designer_filter: Option<Seq<char>>,
    root: Seq<char>,
    all_dirs: Seq<String>,
    facts: Seq<ContentFacts>,
    sep: char,
)
    requires
        catalog_outcomes(outs1, groups, group_filter, designer_filter, root, all_dirs, facts, sep),
        catalog_outcomes(outs2, groups, group_filter, designer_filter, root, all_dirs, facts, sep),
    ensures
        planned_groups(outs1, outs1.len() as int).map_values(|g: NormalizeGroupPlan| group_view(g)) == planned_groups(
            outs2,
            outs2.len() as int,
        ).map_values(|g: NormalizeGroupPlan| group_view(g)),
        skips(outs1, outs1.len() as int) == skips(outs2, outs2.len() as int),
        clean_total(outs1, outs1.len() as int) == clean_total(outs2, outs2.len() as int),
        ops_total(outs1, outs1.len() as int) == ops_total(outs2, outs2.len() as int),
        any_out_of_names(outs1) == any_out_of_names(outs2),
{
    let idx = gated(groups, group_filter, designer_filter, groups.len() as int);
    assert forall|x: int| 0 <= x < outs1.len() implies outcome_summary(#[trigger] outs1[x]) == outcome_summary(outs2[x]) by {
        lemma_fits_agree(outs1[x], outs2[x], groups[idx[x]], gate_of(groups[idx[x]], group_filter, designer_filter), root, all_dirs, facts, sep);
    }
    lemma_outcomes_agree(outs1, outs2, outs1.len() as int);
    if any_out_of_names(outs1) {
        let k = choose|k: int| 0 <= k < outs1.len() && #[trigger] outs1[k] is OutOfNames;
        assert(outcome_summary(outs1[k]).0 == 2);
        assert(outs2[k] is OutOfNames);
    }
    if any_out_of_names(outs2) {
        let k = choose|k: int| 0 <= k < outs2.len() && #[trigger] outs2[k] is OutOfNames;
        assert(outcome_summary(outs1[k]) == outcome_summary(outs2[k]));
        assert(outs1[k] is OutOfNames);
    }
}


/// Two plans of the same catalog are equal: what [`plan_catalog`] returns
/// for the same groups, filters, root, directories, disk facts and
/// separator lists the same groups (names, designers, target folders,
/// moves, notes, emptied folders), the same skips, and the same clean and
/// move counts, whichever outcomes it was assembled from.
pub proof fn catalog_plans_agree(
    p1: NormalizePlan,
    p2: NormalizePlan,
    outs1: Seq<GroupPlanning>,
    outs2: Seq<GroupPlanning>,
    groups: Seq<GroupInput>,
    group_filter: Option<Seq<char>>,
    designer_filter: Option<Seq<char>>,
    root: Seq<char>,
    all_dirs: Seq<String>,
    facts: Seq<ContentFacts>,
    sep: char,
)
    requires
        catalog_outcomes(outs1, groups, group_filter, designer_filter, root, all_dirs, facts, sep),
        catalog_outcomes(outs2, groups, group_filter, designer_filter, root, all_dirs, facts, sep),
        plan_assembled(p1, outs1),
        plan_assembled(p2, outs2),
    ensures
        p1.groups@.map_values(|g: NormalizeGroupPlan| group_view(g)) == p2.groups@.map_values(|g: NormalizeGroupPlan| group_view(g)),
        p1.skipped@.map_values(|sk: NormalizeSkip| (sk.group_name@, sk.reason@)) == p2.skipped@.map_values(
            |sk: NormalizeSkip| (sk.group_name@, sk.reason@),
        ),
        p1.clean_groups == p2.clean_groups,
        p1.total_ops == p2.total_ops,
{
    repeated_plans_agree(outs1, outs2, groups, group_filter, designer_filter, root, all_dirs, facts, sep);
}

} // verus!
