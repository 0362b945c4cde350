//! The scanner's model assembly. The walk itself (reading directories and
//! `model.json`/`release.json` sidecars) happens outside the library; what
//! it found arrives here as plain records, and this module decides which
//! directories are models, what each is called, which release and designer
//! it belongs to, its support status, pose and date, and which image
//! previews it.
use vstd::prelude::*;
use crate::catalog::{image_extension_listed, model_extension_listed, scanned_extensions_are_the_listed_ones, image_extension, is_image_extension, is_model_extension, model_extension, FileRow, ModelRow};
use crate::error::AppError;
use crate::manifest::{components_of, path_components, string_views};
use crate::paths::{file_name_of, opt_chars, path_file_name};
use crate::normalize::{lex_less, lex_lt, lemma_lex_irreflexive, lemma_lex_total, lemma_lex_transitive};
use crate::identity::{filename_support, support_from_filename, pose_lexicon, pose_words_are_poses};
use crate::paths::{extension_of, path_extension};
use crate::identity::{
    alnum_key_chars, alnum_key_of, date_of_chars, generic_segment, is_generic_chars,
    pose_of_chars, prettified, prettify_chars, segment_date, segment_pose, segment_support,
    split_trailing_pose_chars, support_of_chars, trailing_pose_split,
};
use crate::text::{
    append_chars, append_str, chars_eq, chars_of, contains, contains_exec, eq_lit, lowercase,
    starts_with, starts_with_exec, string_of, to_lowercase, trim,
};

verus! {

/// One directory on the way from a model directory up to the top of the
/// filesystem: its path and its final component (none for a root).
#[derive(Debug, Clone)]
pub struct Ancestor {
    pub path: String,
    pub name: Option<String>,
}

/// The view of an optional string.
pub open spec fn opt_view(o: Option<String>) -> Option<Seq<char>> {
    match o {
        Some(s) => Some(s@),
        None => None,
    }
}

/// The view of an ancestor: (path, name).
pub open spec fn ancestor_view(a: Ancestor) -> (Seq<char>, Option<Seq<char>>) {
    (a.path@, opt_view(a.name))
}

/// The views of a list of ancestors.
pub open spec fn ancestry_view(s: Seq<Ancestor>) -> Seq<(Seq<char>, Option<Seq<char>>)> {
    s.map_values(|a: Ancestor| ancestor_view(a))
}

/// What climbing a model directory's folder stack has established.
pub struct IdentityFacts {
    pub pose: Option<Seq<char>>,
    pub support: Option<Seq<char>>,
    pub date: Option<Seq<char>>,
    pub base_name: Option<Seq<char>>,
    pub base_dir: Option<Seq<char>>,
}

/// Nothing established yet.
pub open spec fn no_facts() -> IdentityFacts {
    IdentityFacts { pose: None, support: None, date: None, base_name: None, base_dir: None }
}

/// `a` unless it is unset, then `b` (`Option::or`).
pub open spec fn or_else(a: Option<Seq<char>>, b: Option<Seq<char>>) -> Option<Seq<char>> {
    if a.is_some() {
        a
    } else {
        b
    }
}

/// One step of the climb, at the directory `path` named `seg`. The nearest
/// date wins; a support folder sets the support status (nearest wins);
/// until a real name is found, a pose marker sets the pose (nearest wins)
/// and the first folder that is neither packaging nor a pose becomes the
/// base name, its own trailing pose marker (if any) peeled off. Above the
/// name, short folders are collections, not poses.
pub open spec fn step_facts(f: IdentityFacts, path: Seq<char>, seg: Seq<char>) -> IdentityFacts {
    let date = or_else(f.date, segment_date(seg));
    let sup = segment_support(seg);
    if sup.is_some() {
        IdentityFacts {
            pose: f.pose,
            support: or_else(f.support, Some(sup.unwrap()@)),
            date,
            base_name: f.base_name,
            base_dir: f.base_dir,
        }
    } else if f.base_name.is_none() && segment_pose(seg).is_some() {
        IdentityFacts {
            pose: or_else(f.pose, segment_pose(seg)),
            support: f.support,
            date,
            base_name: f.base_name,
            base_dir: f.base_dir,
        }
    } else if f.base_name.is_none() && !generic_segment(seg) {
        IdentityFacts {
            pose: or_else(f.pose, trailing_pose_split(seg).1),
            support: f.support,
            date,
            base_name: Some(trailing_pose_split(seg).0),
            base_dir: Some(path),
        }
    } else {
        IdentityFacts {
            pose: f.pose,
            support: f.support,
            date,
            base_name: f.base_name,
            base_dir: f.base_dir,
        }
    }
}

/// The facts established by climbing `steps` (path, name) in order.
pub open spec fn climb_facts(steps: Seq<(Seq<char>, Seq<char>)>) -> IdentityFacts
    decreases steps.len(),
{
    if steps.len() == 0 {
        no_facts()
    } else {
        step_facts(climb_facts(steps.drop_last()), steps.last().0, steps.last().1)
    }
}

/// How many leading ancestors the identity climb visits: it stops at the
/// catalog root (`root_at`) and at a directory without a name.
pub open spec fn climb_len(anc: Seq<(Seq<char>, Option<Seq<char>>)>, root_at: Option<int>, i: int) -> int
    decreases anc.len() - i,
{
    if i >= anc.len() || i < 0 || root_at == Some(i) || anc[i].1.is_none() {
        i
    } else {
        climb_len(anc, root_at, i + 1)
    }
}

/// The (path, name) steps the identity climb visits.
pub open spec fn climb_steps(anc: Seq<(Seq<char>, Option<Seq<char>>)>, root_at: Option<int>) -> Seq<(Seq<char>, Seq<char>)> {
    anc.take(climb_len(anc, root_at, 0)).map_values(|a: (Seq<char>, Option<Seq<char>>)| (a.0, a.1.unwrap()))
}

/// What a heuristic model's folder stack says about it.
pub struct InferredModel {
    pub name: String,
    /// The base name without the pose suffix; variants of one model share
    /// it.
    pub group_name: String,
    pub pose: Option<String>,
    pub support_status: Option<String>,
    pub release_date: Option<String>,
    /// The ancestor that gave the base name: the model's identity root.
    pub base_dir: Option<String>,
}

/// The group name of a heuristic model: its base name, or when nothing but
/// packaging lies between it and the root, its own prettified folder name.
pub open spec fn inferred_group(f: IdentityFacts, leaf: Seq<char>) -> Seq<char> {
    match f.base_name {
        Some(b) => b,
        None => prettified(leaf),
    }
}

/// The display name: the group name, followed by the pose when both a base
/// name and a pose were found.
pub open spec fn inferred_name(f: IdentityFacts, leaf: Seq<char>) -> Seq<char> {
    if f.pose.is_some() && f.base_name.is_some() {
        inferred_group(f, leaf) + " "@ + f.pose.unwrap()
    } else {
        inferred_group(f, leaf)
    }
}

/// The identity the climb over `anc` establishes for a model directory
/// whose own final component (or whole path, without one) is `leaf`.
pub open spec fn identity_matches(
    m: InferredModel,
    anc: Seq<(Seq<char>, Option<Seq<char>>)>,
    root_at: Option<int>,
    leaf: Seq<char>,
) -> bool {
    let f = climb_facts(climb_steps(anc, root_at));
    &&& m.group_name@ == inferred_group(f, leaf)
    &&& m.name@ == inferred_name(f, leaf)
    &&& opt_view(m.pose) == f.pose
    &&& opt_view(m.support_status) == f.support
    &&& opt_view(m.release_date) == f.date
    &&& opt_view(m.base_dir) == f.base_dir
}

fn opt_chars_to_string(o: &Option<Vec<char>>) -> (r: Option<String>)
    ensures
        opt_view(r) == match o {
            Some(v) => Some(v@),
            None => None::<Seq<char>>,
        },
{
    match o {
        Some(v) => Some(string_of(v)),
        None => None,
    }
}

/// Reads identity out of a stacked library layout such as
/// `<release-05-2026>/<model>/<unsupported>/<A>`: climbs from the model
/// directory toward the catalog root (`ancestors[root_at]`) until a folder
/// names the model, keeping what the packaging folders said as metadata.
pub fn infer_model_identity(ancestors: &Vec<Ancestor>, root_at: Option<usize>, leaf: &str) -> (r: InferredModel)
    ensures
        identity_matches(
            r,
            ancestry_view(ancestors@),
            match root_at {
                Some(k) => Some(k as int),
                None => None,
            },
            leaf@,
        ),
{
    let ghost anc = ancestry_view(ancestors@);
    let ghost root = match root_at {
        Some(k) => Some(k as int),
        None => None::<int>,
    };
    let mut pose: Option<Vec<char>> = None;
    let mut support: Option<Vec<char>> = None;
    let mut date: Option<Vec<char>> = None;
    let mut base_name: Option<Vec<char>> = None;
    let mut base_dir: Option<Vec<char>> = None;
    let mut i: usize = 0;
    let ghost mut steps: Seq<(Seq<char>, Seq<char>)> = Seq::empty();
    loop
        invariant
            anc == ancestry_view(ancestors@),
            root == (match root_at {
                Some(k) => Some(k as int),
                None => None::<int>,
            }),
            0 <= i <= ancestors.len(),
            climb_len(anc, root, 0) == climb_len(anc, root, i as int),
            steps == anc.take(i as int).map_values(
                |a: (Seq<char>, Option<Seq<char>>)| (a.0, a.1.unwrap()),
            ),
            forall|k: int| 0 <= k < i ==> (#[trigger] anc[k]).1.is_some(),
            ({
                let f = climb_facts(steps);
                &&& (match pose { Some(v) => Some(v@), None => None::<Seq<char>> }) == f.pose
                &&& (match support { Some(v) => Some(v@), None => None::<Seq<char>> }) == f.support
                &&& (match date { Some(v) => Some(v@), None => None::<Seq<char>> }) == f.date
                &&& (match base_name { Some(v) => Some(v@), None => None::<Seq<char>> }) == f.base_name
                &&& (match base_dir { Some(v) => Some(v@), None => None::<Seq<char>> }) == f.base_dir
            }),
        ensures
            climb_len(anc, root, 0) == i as int,
            steps == anc.take(i as int).map_values(
                |a: (Seq<char>, Option<Seq<char>>)| (a.0, a.1.unwrap()),
            ),
            ({
                let f = climb_facts(steps);
                &&& (match pose { Some(v) => Some(v@), None => None::<Seq<char>> }) == f.pose
                &&& (match support { Some(v) => Some(v@), None => None::<Seq<char>> }) == f.support
                &&& (match date { Some(v) => Some(v@), None => None::<Seq<char>> }) == f.date
                &&& (match base_name { Some(v) => Some(v@), None => None::<Seq<char>> }) == f.base_name
                &&& (match base_dir { Some(v) => Some(v@), None => None::<Seq<char>> }) == f.base_dir
            }),
        decreases ancestors.len() - i,
    {
        if i >= ancestors.len() {
            break;
        }
        if root_at == Some(i) {
            break;
        }
        assert(anc[i as int] == ancestor_view(ancestors@[i as int]));
        let seg_s = match &ancestors[i].name {
            Some(n) => n,
            None => {
                break;
            },
        };
        let seg = chars_of(seg_s.as_str());
        let path = chars_of(ancestors[i].path.as_str());
        let ghost f = climb_facts(steps);
        let ghost next = steps.push((path@, seg@));
        proof {
            assert(next.drop_last() =~= steps);
        }
        if date.is_none() {
            date = date_of_chars(&seg);
        }
        match support_of_chars(&seg) {
            Some(st) => {
                if support.is_none() {
                    support = Some(chars_of(st));
                }
            },
            None => {
                if base_name.is_none() {
                    match pose_of_chars(&seg) {
                        Some(p) => {
                            if pose.is_none() {
                                pose = Some(p);
                            }
                        },
                        None => {
                            if !is_generic_chars(&seg) {
                                let (b, t) = split_trailing_pose_chars(&seg);
                                if pose.is_none() {
                                    pose = t;
                                }
                                base_name = Some(b);
                                base_dir = Some(path);
                            }
                        },
                    }
                }
            },
        }
        proof {
            assert(climb_facts(next) == step_facts(f, path@, seg@));
            assert(anc.take(i + 1).map_values(|a: (Seq<char>, Option<Seq<char>>)| (a.0, a.1.unwrap()))
                =~= next);
        }
        proof {
            steps = next;
        }
        i += 1;
    }
    proof {
        assert(climb_steps(anc, root) =~= steps);
    }
    let leaf_v = chars_of(leaf);
    let group: Vec<char> = match &base_name {
        Some(b) => b.clone(),
        None => prettify_chars(&leaf_v),
    };
    let mut name = group.clone();
    if base_name.is_some() {
        match &pose {
            Some(p) => {
                append_str(&mut name, " ");
                append_chars(&mut name, p);
            },
            None => {},
        }
    }
    InferredModel {
        name: string_of(&name),
        group_name: string_of(&group),
        pose: opt_chars_to_string(&pose),
        support_status: opt_chars_to_string(&support),
        release_date: opt_chars_to_string(&date),
        base_dir: opt_chars_to_string(&base_dir),
    }
}

} // verus!

verus! {

/// The first studio of `designers` (from index `j` on) whose alphanumeric
/// key occurs in `key`.
pub open spec fn first_designer(key: Seq<char>, designers: Seq<String>, j: int) -> Option<Seq<char>>
    decreases designers.len() - j,
{
    if j < 0 || j >= designers.len() {
        None
    } else if contains(key, alnum_key_of(designers[j]@)) {
        Some(designers[j]@)
    } else {
        first_designer(key, designers, j + 1)
    }
}

/// The designer a folder stack names: climbing from ancestor `i` up to and
/// including the catalog root, the first folder whose name contains a
/// listed studio (alphanumerics only, lowercased).
pub open spec fn designer_search(
    anc: Seq<(Seq<char>, Option<Seq<char>>)>,
    root_at: Option<int>,
    designers: Seq<String>,
    i: int,
) -> Option<Seq<char>>
    decreases anc.len() - i,
{
    if i < 0 || i >= anc.len() {
        None
    } else {
        let hit = match anc[i].1 {
            Some(seg) => first_designer(alnum_key_of(seg), designers, 0),
            None => None,
        };
        if hit.is_some() {
            hit
        } else if root_at == Some(i) {
            None
        } else {
            designer_search(anc, root_at, designers, i + 1)
        }
    }
}

/// The first listed studio a folder stack names, as a fallback designer for
/// trees whose release does not state one.
#[verifier::loop_isolation(false)]
pub fn infer_designer(ancestors: &Vec<Ancestor>, root_at: Option<usize>, designers: &Vec<String>) -> (r: Option<String>)
    ensures
        opt_view(r) == designer_search(
            ancestry_view(ancestors@),
            match root_at {
                Some(k) => Some(k as int),
                None => None,
            },
            designers@,
            0,
        ),
{
    let ghost anc = ancestry_view(ancestors@);
    let ghost root = match root_at {
        Some(k) => Some(k as int),
        None => None::<int>,
    };
    let mut keys: Vec<Vec<char>> = Vec::new();
    let mut j: usize = 0;
    while j < designers.len()
        invariant
            0 <= j <= designers.len(),
            keys.len() == j,
            forall|k: int| 0 <= k < j ==> (#[trigger] keys@[k])@ == alnum_key_of(designers@[k]@),
        decreases designers.len() - j,
    {
        let dv = chars_of(designers[j].as_str());
        keys.push(alnum_key_chars(&dv));
        j += 1;
    }
    let mut i: usize = 0;
    while i < ancestors.len()
        invariant
            anc == ancestry_view(ancestors@),
            root == (match root_at {
                Some(k) => Some(k as int),
                None => None::<int>,
            }),
            0 <= i <= ancestors.len(),
            keys.len() == designers.len(),
            forall|k: int| 0 <= k < keys.len() ==> (#[trigger] keys@[k])@ == alnum_key_of(designers@[k]@),
            designer_search(anc, root, designers@, 0) == designer_search(anc, root, designers@, i as int),
        decreases ancestors.len() - i,
    {
        assert(anc[i as int] == ancestor_view(ancestors@[i as int]));
        match &ancestors[i].name {
            Some(seg) => {
                let sv = chars_of(seg.as_str());
                let key = alnum_key_chars(&sv);
                let mut k: usize = 0;
                while k < designers.len()
                    invariant
                        0 <= k <= designers.len(),
                        keys.len() == designers.len(),
                        forall|x: int| 0 <= x < keys.len() ==> (#[trigger] keys@[x])@ == alnum_key_of(designers@[x]@),
                        first_designer(key@, designers@, 0) == first_designer(key@, designers@, k as int),
                    decreases designers.len() - k,
                {
                    if contains_exec(&key, &keys[k]) {
                        assert(first_designer(key@, designers@, k as int) == Some(designers@[k as int]@));
                        assert(anc[i as int].1 == Some(seg@));
                        let d = designers[k].clone();
                        return Some(d);
                    }
                    k += 1;
                }
            },
            None => {},
        }
        if root_at == Some(i) {
            return None;
        }
        i += 1;
    }
    None
}

/// A release.json found during the walk: the directory it sits in, the
/// release's name, and its designer when it states one.
#[derive(Debug, Clone)]
pub struct ReleaseInfo {
    pub dir: String,
    pub name: String,
    pub designer: Option<String>,
}

/// Index of the first release sitting in directory `path`, from `j` on.
pub open spec fn release_at(releases: Seq<ReleaseInfo>, path: Seq<char>, j: int) -> Option<int>
    decreases releases.len() - j,
{
    if j < 0 || j >= releases.len() {
        None
    } else if releases[j].dir@ == path {
        Some(j)
    } else {
        release_at(releases, path, j + 1)
    }
}

/// The release in the closest ancestor (from ancestor `i` up) that holds
/// one.
pub open spec fn release_search(anc: Seq<(Seq<char>, Option<Seq<char>>)>, releases: Seq<ReleaseInfo>, i: int) -> Option<int>
    decreases anc.len() - i,
{
    if i < 0 || i >= anc.len() {
        None
    } else if release_at(releases, anc[i].0, 0).is_some() {
        release_at(releases, anc[i].0, 0)
    } else {
        release_search(anc, releases, i + 1)
    }
}

/// The release in the closest ancestor directory, if any (its index).
#[verifier::loop_isolation(false)]
pub fn nearest_release(releases: &Vec<ReleaseInfo>, ancestors: &Vec<Ancestor>) -> (r: Option<usize>)
    ensures
        r.is_some() == release_search(ancestry_view(ancestors@), releases@, 0).is_some(),
        r.is_some() ==> r.unwrap() as int == release_search(ancestry_view(ancestors@), releases@, 0).unwrap()
            && r.unwrap() < releases.len(),
{
    let ghost anc = ancestry_view(ancestors@);
    let mut i: usize = 0;
    while i < ancestors.len()
        invariant
            anc == ancestry_view(ancestors@),
            0 <= i <= ancestors.len(),
            release_search(anc, releases@, 0) == release_search(anc, releases@, i as int),
        decreases ancestors.len() - i,
    {
        assert(anc[i as int] == ancestor_view(ancestors@[i as int]));
        let pv = chars_of(ancestors[i].path.as_str());
        let mut j: usize = 0;
        while j < releases.len()
            invariant
                0 <= j <= releases.len(),
                pv@ == anc[i as int].0,
                release_at(releases@, pv@, 0) == release_at(releases@, pv@, j as int),
            decreases releases.len() - j,
        {
            let dv = chars_of(releases[j].dir.as_str());
            if chars_eq(&dv, &pv) {
                assert(release_at(releases@, pv@, j as int) == Some(j as int));
                assert(release_search(anc, releases@, i as int) == Some(j as int));
                return Some(j);
            }
            j += 1;
        }
        i += 1;
    }
    None
}

/// What a `model.json` beside the files says.
#[derive(Debug, Clone)]
pub struct ModelMeta {
    pub name: String,
    pub description: Option<String>,
    pub id: Option<String>,
    pub tags: Vec<String>,
    /// Its first image, resolved against the model directory, when that
    /// file exists.
    pub preview: Option<String>,
}

/// Everything the walk gathered about one directory.
#[derive(Debug, Clone)]
pub struct ScannedDir {
    pub dir_path: String,
    pub model_files: u32,
    pub model_bytes: i64,
    pub first_image: Option<String>,
    pub metadata: Option<ModelMeta>,
    /// A presupported-only format (.lys/.chitu) was seen here.
    pub has_presupported_format: bool,
    /// The support status the first hinting file name stated.
    pub filename_support: Option<String>,
    /// The directory itself, then its parents up to the top.
    pub ancestors: Vec<Ancestor>,
    /// Which of `ancestors` is the catalog root, if any.
    pub root_at: Option<usize>,
}

/// The first image of any directory under `dir_path` (its path followed by
/// `sep`), taking directories in the walk's path order.
pub open spec fn descendant_image_spec(dirs: Seq<ScannedDir>, dir_path: Seq<char>, sep: char, j: int) -> Option<Seq<char>>
    decreases dirs.len() - j,
{
    if j < 0 || j >= dirs.len() {
        None
    } else if starts_with(dirs[j].dir_path@, dir_path.push(sep)) && dirs[j].first_image.is_some() {
        opt_view(dirs[j].first_image)
    } else {
        descendant_image_spec(dirs, dir_path, sep, j + 1)
    }
}

/// First image found in any subdirectory of `dir_path`.
pub fn descendant_image(dirs: &Vec<ScannedDir>, dir_path: &str, sep: char) -> (r: Option<String>)
    ensures
        opt_view(r) == descendant_image_spec(dirs@, dir_path@, sep, 0),
{
    let mut prefix = chars_of(dir_path);
    prefix.push(sep);
    let mut j: usize = 0;
    while j < dirs.len()
        invariant
            0 <= j <= dirs.len(),
            prefix@ == dir_path@.push(sep),
            descendant_image_spec(dirs@, dir_path@, sep, 0) == descendant_image_spec(dirs@, dir_path@, sep, j as int),
        decreases dirs.len() - j,
    {
        let kv = chars_of(dirs[j].dir_path.as_str());
        if starts_with_exec(&kv, &prefix) {
            match &dirs[j].first_image {
                Some(img) => {
                    return Some(img.clone());
                },
                None => {},
            }
        }
        j += 1;
    }
    None
}

/// Index of the first directory record for path `key`, from `j` on.
pub open spec fn dir_at(dirs: Seq<ScannedDir>, key: Seq<char>, j: int) -> Option<int>
    decreases dirs.len() - j,
{
    if j < 0 || j >= dirs.len() {
        None
    } else if dirs[j].dir_path@ == key {
        Some(j)
    } else {
        dir_at(dirs, key, j + 1)
    }
}

/// The image recorded for directory `key`, if it was walked and had one.
pub open spec fn image_of(dirs: Seq<ScannedDir>, key: Seq<char>) -> Option<Seq<char>> {
    match dir_at(dirs, key, 0) {
        Some(k) => opt_view(dirs[k].first_image),
        None => None,
    }
}

/// The first image on the way from ancestor `i` up to and including
/// `base`.
pub open spec fn ancestor_image_from(dirs: Seq<ScannedDir>, anc: Seq<(Seq<char>, Option<Seq<char>>)>, base: Seq<char>, i: int) -> Option<Seq<char>>
    decreases anc.len() - i,
{
    if i < 0 || i >= anc.len() {
        None
    } else if image_of(dirs, anc[i].0).is_some() {
        image_of(dirs, anc[i].0)
    } else if anc[i].0 == base {
        None
    } else {
        ancestor_image_from(dirs, anc, base, i + 1)
    }
}

/// The render at a heuristic model's identity root: the first image on the
/// path from the directory's parent up to (and including) `base_dir`; none
/// when there is no identity root or the files sit at it already.
pub open spec fn ancestor_image_spec(dirs: Seq<ScannedDir>, anc: Seq<(Seq<char>, Option<Seq<char>>)>, base_dir: Option<Seq<char>>, dir_path: Seq<char>) -> Option<Seq<char>> {
    match base_dir {
        None => None,
        Some(base) => if base == dir_path {
            None
        } else {
            ancestor_image_from(dirs, anc, base, 1)
        },
    }
}

fn image_of_exec(dirs: &Vec<ScannedDir>, key: &Vec<char>) -> (r: Option<String>)
    ensures
        opt_view(r) == image_of(dirs@, key@),
{
    let mut j: usize = 0;
    while j < dirs.len()
        invariant
            0 <= j <= dirs.len(),
            dir_at(dirs@, key@, 0) == dir_at(dirs@, key@, j as int),
        decreases dirs.len() - j,
    {
        let kv = chars_of(dirs[j].dir_path.as_str());
        if chars_eq(&kv, key) {
            return match &dirs[j].first_image {
                Some(img) => Some(img.clone()),
                None => None,
            };
        }
        j += 1;
    }
    None
}

/// The first image between a directory's parent and its identity root.
pub fn ancestor_image(dirs: &Vec<ScannedDir>, ancestors: &Vec<Ancestor>, dir_path: &str, base_dir: Option<&str>) -> (r: Option<String>)
    ensures
        opt_view(r) == ancestor_image_spec(
            dirs@,
            ancestry_view(ancestors@),
            match base_dir {
                Some(b) => Some(b@),
                None => None,
            },
            dir_path@,
        ),
{
    let base = match base_dir {
        Some(b) => chars_of(b),
        None => {
            return None;
        },
    };
    let dv = chars_of(dir_path);
    if chars_eq(&base, &dv) {
        return None;
    }
    let ghost anc = ancestry_view(ancestors@);
    let mut i: usize = 1;
    while i < ancestors.len()
        invariant
            anc == ancestry_view(ancestors@),
            1 <= i,
            base_dir matches Some(b) && base@ == b@,
            base@ != dir_path@,
            ancestor_image_spec(dirs@, anc, Some(base@), dir_path@) == ancestor_image_from(dirs@, anc, base@, i as int),
        decreases ancestors.len() - i,
    {
        assert(anc[i as int] == ancestor_view(ancestors@[i as int]));
        let key = chars_of(ancestors[i].path.as_str());
        let img = image_of_exec(dirs, &key);
        if img.is_some() {
            return img;
        }
        if chars_eq(&key, &base) {
            return None;
        }
        i += 1;
    }
    None
}

} // verus!

verus! {

/// What one scan found: the model files, one model per directory that
/// directly holds model files, and the tags their `model.json` files gave
/// (directory, tag).
#[derive(Debug, Clone)]
pub struct ScanOutcome {
    pub files: Vec<FileRow>,
    pub models: Vec<ModelRow>,
    pub metadata_tags: Vec<(String, String)>,
}

/// The catalog root as an index into the ancestors.
pub open spec fn root_index(root_at: Option<usize>) -> Option<int> {
    match root_at {
        Some(k) => Some(k as int),
        None => None,
    }
}

/// The name a directory falls back to: its own final component, else its
/// whole path.
pub open spec fn leaf_of(d: ScannedDir) -> Seq<char> {
    if d.ancestors@.len() > 0 && d.ancestors@[0].name is Some {
        d.ancestors@[0].name.unwrap()@
    } else {
        d.dir_path@
    }
}

/// The image beside a directory's files, else the first one in a folder
/// beneath it.
pub open spec fn own_image(d: ScannedDir, dirs: Seq<ScannedDir>, sep: char) -> Option<Seq<char>> {
    or_else(opt_view(d.first_image), descendant_image_spec(dirs, d.dir_path@, sep, 0))
}

/// The support status the files themselves state when no folder does: a
/// presupported-only format, else a hint in a file name.
pub open spec fn file_support(d: ScannedDir) -> Option<Seq<char>> {
    if d.has_presupported_format {
        Some("supported"@)
    } else {
        opt_view(d.filename_support)
    }
}

/// The release a directory belongs to: the one in its closest ancestor.
pub open spec fn release_of(d: ScannedDir, releases: Seq<ReleaseInfo>) -> Option<int> {
    release_search(ancestry_view(d.ancestors@), releases, 0)
}

/// The designer of a model: its release's, when that states one, else the
/// first listed studio its folders name.
pub open spec fn designer_of(d: ScannedDir, releases: Seq<ReleaseInfo>, designers: Seq<String>) -> Option<Seq<char>> {
    let stated = match release_of(d, releases) {
        Some(j) => opt_view(releases[j].designer),
        None => None,
    };
    or_else(stated, designer_search(ancestry_view(d.ancestors@), root_index(d.root_at), designers, 0))
}

/// The facts the folder stack above a heuristic model establishes.
pub open spec fn facts_of(d: ScannedDir) -> IdentityFacts {
    climb_facts(climb_steps(ancestry_view(d.ancestors@), root_index(d.root_at)))
}

/// Whether `row` is the model the scan assembles for directory `d`.
/// A `model.json` names the model outright; without one, the folder stack
/// does (and also gives its pose, support status and date).
pub open spec fn row_matches(
    row: ModelRow,
    d: ScannedDir,
    dirs: Seq<ScannedDir>,
    releases: Seq<ReleaseInfo>,
    designers: Seq<String>,
    sep: char,
) -> bool {
    let f = facts_of(d);
    let leaf = leaf_of(d);
    &&& row.dir_path@ == d.dir_path@
    &&& row.file_count == d.model_files
    &&& row.total_size_bytes == d.model_bytes
    &&& row.variant is None
    &&& row.scale is None
    &&& row.sculptor is None
    &&& opt_view(row.release_name) == (match release_of(d, releases) {
        Some(j) => Some(releases[j].name@),
        None => None,
    })
    &&& opt_view(row.designer) == designer_of(d, releases, designers)
    &&& match d.metadata {
        Some(meta) => {
            &&& row.name@ == meta.name@
            &&& opt_view(row.description) == opt_view(meta.description)
            &&& opt_view(row.uuid) == opt_view(meta.id)
            &&& row.source@ == "metadata"@
            &&& opt_view(row.preview_path) == or_else(opt_view(meta.preview), own_image(d, dirs, sep))
            &&& row.pose is None
            &&& opt_view(row.support_status) == file_support(d)
            &&& row.release_date is None
            &&& opt_view(row.group_name) == Some(meta.name@)
        },
        None => {
            &&& row.name@ == inferred_name(f, leaf)
            &&& row.description is None
            &&& row.uuid is None
            &&& row.source@ == "heuristic"@
            &&& opt_view(row.preview_path) == or_else(
                own_image(d, dirs, sep),
                ancestor_image_spec(dirs, ancestry_view(d.ancestors@), f.base_dir, d.dir_path@),
            )
            &&& opt_view(row.pose) == f.pose
            &&& opt_view(row.support_status) == or_else(f.support, file_support(d))
            &&& opt_view(row.release_date) == f.date
            &&& opt_view(row.group_name) == Some(inferred_group(f, leaf))
        },
    }
}

fn clone_opt(o: &Option<String>) -> (r: Option<String>)
    ensures
        opt_view(r) == opt_view(*o),
{
    match o {
        Some(s) => Some(s.clone()),
        None => None,
    }
}

fn or_else_exec(a: Option<String>, b: Option<String>) -> (r: Option<String>)
    ensures
        opt_view(r) == or_else(opt_view(a), opt_view(b)),
{
    match a {
        Some(x) => Some(x),
        None => b,
    }
}

fn lit(s: &str) -> (r: String)
    ensures
        r@ == s@,
{
    crate::text::string_from_str(s)
}

/// The support status a directory's own files state.
fn file_support_exec(d: &ScannedDir) -> (r: Option<String>)
    ensures
        opt_view(r) == file_support(*d),
{
    if d.has_presupported_format {
        Some(lit("supported"))
    } else {
        clone_opt(&d.filename_support)
    }
}

/// The model the scan records for directory `d` (which directly holds
/// model files), given everything else the walk found.
pub fn assemble_model(
    d: &ScannedDir,
    dirs: &Vec<ScannedDir>,
    releases: &Vec<ReleaseInfo>,
    designers: &Vec<String>,
    sep: char,
) -> (r: ModelRow)
    ensures
        row_matches(r, *d, dirs@, releases@, designers@, sep),
{
    let release = nearest_release(releases, &d.ancestors);
    let (release_name, stated_designer) = match release {
        Some(j) => (Some(releases[j].name.clone()), clone_opt(&releases[j].designer)),
        None => (None, None),
    };
    let inferred_designer = infer_designer(&d.ancestors, d.root_at, designers);
    let designer = or_else_exec(stated_designer, inferred_designer);
    let own = match &d.first_image {
        Some(img) => Some(img.clone()),
        None => descendant_image(dirs, d.dir_path.as_str(), sep),
    };
    let leaf: String = if d.ancestors.len() > 0 && d.ancestors[0].name.is_some() {
        match &d.ancestors[0].name {
            Some(n) => n.clone(),
            None => d.dir_path.clone(),
        }
    } else {
        d.dir_path.clone()
    };
    assert(leaf@ == leaf_of(*d));
    match &d.metadata {
        Some(meta) => {
            let preview = or_else_exec(clone_opt(&meta.preview), own);
            ModelRow {
                dir_path: d.dir_path.clone(),
                name: meta.name.clone(),
                description: clone_opt(&meta.description),
                designer,
                release_name,
                preview_path: preview,
                source: lit("metadata"),
                uuid: clone_opt(&meta.id),
                file_count: d.model_files,
                total_size_bytes: d.model_bytes,
                variant: None,
                pose: None,
                scale: None,
                support_status: file_support_exec(d),
                release_date: None,
                sculptor: None,
                group_name: Some(meta.name.clone()),
            }
        },
        None => {
            let inferred = infer_model_identity(&d.ancestors, d.root_at, leaf.as_str());
            let borrowed = match &inferred.base_dir {
                Some(b) => ancestor_image(dirs, &d.ancestors, d.dir_path.as_str(), Some(b.as_str())),
                None => ancestor_image(dirs, &d.ancestors, d.dir_path.as_str(), None),
            };
            let preview = or_else_exec(own, borrowed);
            let support = or_else_exec(clone_opt(&inferred.support_status), file_support_exec(d));
            ModelRow {
                dir_path: d.dir_path.clone(),
                name: inferred.name,
                description: None,
                designer,
                release_name,
                preview_path: preview,
                source: lit("heuristic"),
                uuid: None,
                file_count: d.model_files,
                total_size_bytes: d.model_bytes,
                variant: None,
                pose: inferred.pose,
                scale: None,
                support_status: support,
                release_date: inferred.release_date,
                sculptor: None,
                group_name: Some(inferred.group_name),
            }
        },
    }
}


/// Indices of the directories that directly hold model files, in order.
pub open spec fn model_indices(dirs: Seq<ScannedDir>) -> Seq<int>
    decreases dirs.len(),
{
    if dirs.len() == 0 {
        Seq::empty()
    } else if dirs.last().model_files > 0 {
        model_indices(dirs.drop_last()).push(dirs.len() - 1)
    } else {
        model_indices(dirs.drop_last())
    }
}

/// The (directory, tag) pairs a directory's `model.json` gives.
pub open spec fn tags_of(d: ScannedDir) -> Seq<(Seq<char>, Seq<char>)> {
    match d.metadata {
        Some(m) => m.tags@.map_values(|t: String| (d.dir_path@, t@)),
        None => Seq::empty(),
    }
}

/// The tags of every model directory, in directory order.
pub open spec fn all_tags(dirs: Seq<ScannedDir>) -> Seq<(Seq<char>, Seq<char>)>
    decreases dirs.len(),
{
    if dirs.len() == 0 {
        Seq::empty()
    } else if dirs.last().model_files > 0 {
        all_tags(dirs.drop_last()) + tags_of(dirs.last())
    } else {
        all_tags(dirs.drop_last())
    }
}

/// A list of string pairs, by their characters.
pub open spec fn pair_views(v: Seq<(String, String)>) -> Seq<(Seq<char>, Seq<char>)> {
    v.map_values(|p: (String, String)| (p.0@, p.1@))
}

/// Model indices never point past the list.
proof fn lemma_model_indices_bounded(dirs: Seq<ScannedDir>)
    ensures
        forall|k: int| 0 <= k < model_indices(dirs).len() ==> 0 <= #[trigger] model_indices(dirs)[k] < dirs.len(),
    decreases dirs.len(),
{
    if dirs.len() > 0 {
        lemma_model_indices_bounded(dirs.drop_last());
        let p = model_indices(dirs.drop_last());
        assert forall|k: int| 0 <= k < model_indices(dirs).len() implies 0 <= #[trigger] model_indices(dirs)[k] < dirs.len() by {
            if k < p.len() {
                assert(model_indices(dirs)[k] == p[k]);
            }
        }
    }
}

/// Assembles the scan's outcome from the walk: `files` as indexed, and one
/// model per directory of `dirs` that directly holds model files, in the
/// order of `dirs`, with the tags of those that carry a `model.json`.
pub fn assemble_scan(
    files: Vec<FileRow>,
    dirs: &Vec<ScannedDir>,
    releases: &Vec<ReleaseInfo>,
    designers: &Vec<String>,
    sep: char,
) -> (r: ScanOutcome)
    ensures
        r.files@ == files@,
        r.models.len() == model_indices(dirs@).len(),
        forall|k: int|
            0 <= k < r.models.len() ==> row_matches(
                #[trigger] r.models@[k],
                dirs@[model_indices(dirs@)[k]],
                dirs@,
                releases@,
                designers@,
                sep,
            ),
        pair_views(r.metadata_tags@) == all_tags(dirs@),
{
    let mut models: Vec<ModelRow> = Vec::new();
    let mut tags: Vec<(String, String)> = Vec::new();
    let mut i: usize = 0;
    while i < dirs.len()
        invariant
            0 <= i <= dirs.len(),
            models.len() == model_indices(dirs@.take(i as int)).len(),
            forall|k: int|
                0 <= k < models.len() ==> row_matches(
                    #[trigger] models@[k],
                    dirs@[model_indices(dirs@.take(i as int))[k]],
                    dirs@,
                    releases@,
                    designers@,
                    sep,
                ),
            pair_views(tags@) == all_tags(dirs@.take(i as int)),
        decreases dirs.len() - i,
    {
        let ghost before = dirs@.take(i as int);
        let ghost after = dirs@.take(i + 1);
        assert(after.drop_last() =~= before);
        assert(after.last() == dirs@[i as int]);
        proof {
            lemma_model_indices_bounded(before);
        }
        let d = &dirs[i];
        if d.model_files > 0 {
            let row = assemble_model(d, dirs, releases, designers, sep);
            let ghost pre = models@;
            models.push(row);
            assert forall|k: int| 0 <= k < models.len() implies row_matches(
                #[trigger] models@[k],
                dirs@[model_indices(after)[k]],
                dirs@,
                releases@,
                designers@,
                sep,
            ) by {
                if k < pre.len() {
                    assert(models@[k] == pre[k]);
                    assert(model_indices(after)[k] == model_indices(before)[k]);
                    assert(before[model_indices(before)[k]] == dirs@[model_indices(before)[k]]);
                }
            }
            match &d.metadata {
                Some(meta) => {
                    let ghost tpre = tags@;
                    let mut t: usize = 0;
                    while t < meta.tags.len()
                        invariant
                            0 <= t <= meta.tags.len(),
                            pair_views(tags@) == pair_views(tpre) + tags_of(*d).take(t as int),
                            d.metadata == Some(*meta),
                        decreases meta.tags.len() - t,
                    {
                        let ghost tv = tags@;
                        tags.push((d.dir_path.clone(), meta.tags[t].clone()));
                        assert(pair_views(tags@) =~= pair_views(tv).push((d.dir_path@, meta.tags@[t as int]@)));
                        assert(tags_of(*d).take(t + 1) =~= tags_of(*d).take(t as int).push(tags_of(*d)[t as int]));
                        t += 1;
                    }
                    assert(tags_of(*d).take(meta.tags.len() as int) =~= tags_of(*d));
                },
                None => {
                    assert(tags_of(*d) =~= Seq::<(Seq<char>, Seq<char>)>::empty());
                    assert(all_tags(after) =~= all_tags(before));
                },
            }
        } else {
            assert(model_indices(after) == model_indices(before));
        }
        i += 1;
    }
    assert(dirs@.take(dirs.len() as int) =~= dirs@);
    ScanOutcome { files, models, metadata_tags: tags }
}


/// What an entry of the walk is to the scanner.
#[derive(Debug, Clone, Copy, PartialEq, Eq, Structural)]
pub enum EntryKind {
    /// A printable model file: indexed, and counted for its directory.
    ModelFile,
    /// A preview image for its directory.
    Image,
    /// The directory's `model.json`.
    ModelSidecar,
    /// The directory's `release.json`.
    ReleaseSidecar,
    /// Anything else, ignored.
    Other,
}

/// How the scanner treats a file named `file_name` whose lowercased
/// extension is `ext`: by extension first, then by the sidecar names.
pub open spec fn entry_kind(file_name: Seq<char>, ext: Seq<char>) -> EntryKind {
    if is_model_extension(ext) {
        EntryKind::ModelFile
    } else if is_image_extension(ext) {
        EntryKind::Image
    } else if file_name == "model.json"@ {
        EntryKind::ModelSidecar
    } else if file_name == "release.json"@ {
        EntryKind::ReleaseSidecar
    } else {
        EntryKind::Other
    }
}

/// Classifies one file of the walk.
pub fn classify_entry(file_name: &str, ext: &str) -> (r: EntryKind)
    ensures
        r == entry_kind(file_name@, ext@),
{
    if model_extension(ext) {
        EntryKind::ModelFile
    } else if image_extension(ext) {
        EntryKind::Image
    } else {
        let nv = chars_of(file_name);
        if eq_lit(&nv, "model.json") {
            EntryKind::ModelSidecar
        } else if eq_lit(&nv, "release.json") {
            EntryKind::ReleaseSidecar
        } else {
            EntryKind::Other
        }
    }
}

/// The extension the scanner files an entry under: the path's extension,
/// lowercased, or empty.
pub fn entry_extension(path: &str) -> (r: String)
    ensures
        r@ == match extension_of(path@) {
            Some(e) => lowercase(e),
            None => Seq::empty(),
        },
{
    match path_extension(path) {
        Some(e) => to_lowercase(e.as_str()),
        None => string_of(&Vec::new()),
    }
}

/// Formats that only ship presupported.
pub open spec fn is_presupported_format(ext: Seq<char>) -> bool {
    ext == "lys"@ || ext == "chitu"@ || ext == "chitubox"@
}

/// A directory the walk has just reached: nothing counted yet.
pub fn new_scanned_dir(dir_path: String, ancestors: Vec<Ancestor>, root_at: Option<usize>) -> (r: ScannedDir)
    ensures
        r.dir_path@ == dir_path@,
        r.ancestors@ == ancestors@,
        r.root_at == root_at,
        r.model_files == 0,
        r.model_bytes == 0,
        r.first_image is None,
        r.metadata is None,
        !r.has_presupported_format,
        r.filename_support is None,
{
    ScannedDir {
        dir_path,
        model_files: 0,
        model_bytes: 0,
        first_image: None,
        metadata: None,
        has_presupported_format: false,
        filename_support: None,
        ancestors,
        root_at,
    }
}

/// Counts one model file of `size` bytes, named `file_name` with
/// lowercased extension `ext`, in its directory: a presupported-only
/// format marks the directory, and the first file name hinting at a
/// support status is kept.
pub fn note_model_file(dir: &mut ScannedDir, file_name: &str, ext: &str, size: i64)
    requires
        old(dir).model_files < u32::MAX,
        i64::MIN <= old(dir).model_bytes + size <= i64::MAX,
    ensures
        final(dir).model_files == old(dir).model_files + 1,
        final(dir).model_bytes == old(dir).model_bytes + size,
        final(dir).has_presupported_format == (old(dir).has_presupported_format || is_presupported_format(ext@)),
        opt_view(final(dir).filename_support) == or_else(
            opt_view(old(dir).filename_support),
            match filename_support(file_name@) {
                Some(s) => Some(s@),
                None => None,
            },
        ),
        final(dir).dir_path == old(dir).dir_path,
        final(dir).first_image == old(dir).first_image,
        final(dir).metadata == old(dir).metadata,
        final(dir).ancestors == old(dir).ancestors,
        final(dir).root_at == old(dir).root_at,
{
    dir.model_files = dir.model_files + 1;
    dir.model_bytes = dir.model_bytes + size;
    let ev = chars_of(ext);
    if eq_lit(&ev, "lys") || eq_lit(&ev, "chitu") || eq_lit(&ev, "chitubox") {
        dir.has_presupported_format = true;
    }
    if dir.filename_support.is_none() {
        match support_from_filename(file_name) {
            Some(s) => {
                dir.filename_support = Some(lit(s));
            },
            None => {},
        }
    }
}

/// Records an image of the directory; only the first one found is kept.
pub fn note_image(dir: &mut ScannedDir, path: String)
    ensures
        opt_view(final(dir).first_image) == or_else(opt_view(old(dir).first_image), Some(path@)),
        final(dir).dir_path == old(dir).dir_path,
        final(dir).model_files == old(dir).model_files,
        final(dir).model_bytes == old(dir).model_bytes,
        final(dir).metadata == old(dir).metadata,
        final(dir).has_presupported_format == old(dir).has_presupported_format,
        final(dir).filename_support == old(dir).filename_support,
        final(dir).ancestors == old(dir).ancestors,
        final(dir).root_at == old(dir).root_at,
{
    if dir.first_image.is_none() {
        dir.first_image = Some(path);
    }
}

/// Files counted between two progress reports.
pub const SCAN_PROGRESS_STRIDE: u32 = 250;

/// Whether the walk reports progress after counting its `seen`-th model
/// file.
pub fn scan_progress_due(seen: u32) -> (r: bool)
    ensures
        r == (seen % SCAN_PROGRESS_STRIDE == 0),
{
    seen % SCAN_PROGRESS_STRIDE == 0
}

/// Whether the walk skips an entry (and everything beneath it): its name
/// starts with a dot.
pub fn is_hidden(name: Option<&str>) -> (r: bool)
    ensures
        r == (name matches Some(n) && n@.len() > 0 && n@[0] == '.'),
{
    match name {
        Some(n) => {
            let v = chars_of(n);
            v.len() > 0 && v[0] == '.'
        },
        None => false,
    }
}

/// A release read from a `release.json` in `dir`: an empty designer means
/// the release names none.
pub fn release_from_sidecar(dir: String, name: String, designer: String) -> (r: ReleaseInfo)
    ensures
        r.dir@ == dir@,
        r.name@ == name@,
        opt_view(r.designer) == if designer@.len() == 0 { None } else { Some(designer@) },
{
    let empty = designer.as_str().unicode_len() == 0;
    ReleaseInfo { dir, name, designer: if empty { None } else { Some(designer) } }
}

/// The refusal of a catalog root that is not a directory.
pub open spec fn not_a_directory_text(shown: Seq<char>) -> Seq<char> {
    "Catalog root '"@ + shown + "' is not a directory"@
}

/// A scan refuses a root that is not an existing directory.
pub fn root_not_a_directory(shown: &str) -> (r: AppError)
    ensures
        r matches AppError::NotFoundError(m) && m@ == not_a_directory_text(shown@),
{
    let mut v: Vec<char> = Vec::new();
    append_str(&mut v, "Catalog root '");
    append_str(&mut v, shown);
    append_str(&mut v, "' is not a directory");
    assert(v@ =~= not_a_directory_text(shown@));
    AppError::NotFoundError(string_of(&v))
}

/// The error a cancelled scan ends with.
pub fn scan_cancelled() -> (r: AppError)
    ensures
        r matches AppError::UserCancelled(m) && m@ == "Scan cancelled"@,
{
    AppError::UserCancelled(lit("Scan cancelled"))
}

/// Variants of one model share a group: a heuristic model's name is its
/// group name, or its group name followed by a space and its pose.
pub proof fn variants_share_their_group(f: IdentityFacts, leaf: Seq<char>)
    ensures
        inferred_name(f, leaf) == inferred_group(f, leaf) || (f.pose matches Some(p) && inferred_name(f, leaf)
            == inferred_group(f, leaf) + " "@ + p),
{
}

} // verus!

verus! {

/// How many of `files` lie directly in directory `dir`.
pub open spec fn count_in(files: Seq<FileRow>, dir: Seq<char>) -> nat
    decreases files.len(),
{
    if files.len() == 0 {
        0
    } else {
        count_in(files.drop_last(), dir) + if files.last().dir_path@ == dir { 1nat } else { 0nat }
    }
}

/// The bytes of the files of `files` that lie directly in `dir`.
pub open spec fn bytes_in(files: Seq<FileRow>, dir: Seq<char>) -> int
    decreases files.len(),
{
    if files.len() == 0 {
        0
    } else {
        bytes_in(files.drop_last(), dir) + if files.last().dir_path@ == dir { files.last().size_bytes as int } else { 0 }
    }
}

/// The walk's record so far agrees with the files it indexed: each
/// directory counts exactly the model files directly in it and their
/// bytes, directories come in increasing path order with no path twice,
/// and no indexed file lies in a directory without an entry.
pub open spec fn tallied(files: Seq<FileRow>, dirs: Seq<ScannedDir>) -> bool {
    &&& forall|i: int| 0 <= i < dirs.len() ==> (#[trigger] dirs[i]).model_files == count_in(files, dirs[i].dir_path@)
        && dirs[i].model_bytes == bytes_in(files, dirs[i].dir_path@)
    &&& forall|i: int, j: int| 0 <= i < j < dirs.len() ==> lex_lt(#[trigger] dirs[i].dir_path@, #[trigger] dirs[j].dir_path@)
    &&& forall|d: Seq<char>| #![trigger count_in(files, d)]
        (forall|i: int| 0 <= i < dirs.len() ==> #[trigger] dirs[i].dir_path@ != d) ==> count_in(files, d) == 0
            && bytes_in(files, d) == 0
}

/// A directory with no entry holds none of the indexed files.
proof fn lemma_absent_dir(files: Seq<FileRow>, dirs: Seq<ScannedDir>, d: Seq<char>)
    requires
        tallied(files, dirs),
        forall|i: int| 0 <= i < dirs.len() ==> #[trigger] dirs[i].dir_path@ != d,
    ensures
        count_in(files, d) == 0,
        bytes_in(files, d) == 0,
{
    assert(count_in(files, d) == 0 && bytes_in(files, d) == 0);
}

/// Indexing one more file adds it to its directory's count and bytes only.
proof fn lemma_count_push(files: Seq<FileRow>, row: FileRow, e: Seq<char>)
    ensures
        count_in(files.push(row), e) == count_in(files, e) + (if row.dir_path@ == e { 1nat } else { 0nat }),
        bytes_in(files.push(row), e) == bytes_in(files, e) + (if row.dir_path@ == e { row.size_bytes as int } else { 0 }),
{
    assert(files.push(row).drop_last() =~= files);
    assert(files.push(row).last() == row);
}

/// What a catalog walk has recorded so far: the model files it indexed, in
/// walk order, and one entry per directory it found something in, in path
/// order.
#[derive(Debug)]
pub struct ScanTally {
    pub files: Vec<FileRow>,
    pub dirs: Vec<ScannedDir>,
}

impl ScanTally {
    /// Whether the record agrees with itself (see [`tallied`]).
    pub open spec fn wf(&self) -> bool {
        tallied(self.files@, self.dirs@)
    }

    /// Nothing recorded yet.
    pub fn new() -> (r: ScanTally)
        ensures
            r.wf(),
            r.files@.len() == 0,
            r.dirs@.len() == 0,
    {
        let r = ScanTally { files: Vec::new(), dirs: Vec::new() };
        assert forall|d: Seq<char>| #![trigger count_in(r.files@, d)]
            (forall|i: int| 0 <= i < r.dirs@.len() ==> #[trigger] r.dirs@[i].dir_path@ != d) implies count_in(r.files@, d) == 0
                && bytes_in(r.files@, d) == 0 by {}
        r
    }

    /// Where directory `dir` stands in path order: the first entry whose
    /// path does not precede it, and whether that entry is `dir` itself.
    fn position(&self, dir: &str) -> (r: (usize, bool))
        requires
            self.wf(),
        ensures
            r.0 <= self.dirs@.len(),
            forall|i: int| 0 <= i < r.0 ==> lex_lt((#[trigger] self.dirs@[i]).dir_path@, dir@),
            r.1 == (r.0 < self.dirs@.len() && self.dirs@[r.0 as int].dir_path@ == dir@),
            !r.1 ==> forall|i: int| r.0 <= i < self.dirs@.len() ==> lex_lt(dir@, (#[trigger] self.dirs@[i]).dir_path@),
            !r.1 ==> forall|i: int| 0 <= i < self.dirs@.len() ==> (#[trigger] self.dirs@[i]).dir_path@ != dir@,
    {
        let key = chars_of(dir);
        let mut k: usize = 0;
        while k < self.dirs.len() && lex_less(&chars_of(self.dirs[k].dir_path.as_str()), &key)
            invariant
                self.wf(),
                key@ == dir@,
                0 <= k <= self.dirs@.len(),
                forall|i: int| 0 <= i < k ==> lex_lt((#[trigger] self.dirs@[i]).dir_path@, dir@),
            decreases self.dirs.len() - k,
        {
            k += 1;
        }
        let found = k < self.dirs.len() && chars_eq(&chars_of(self.dirs[k].dir_path.as_str()), &key);
        proof {
            let ds = self.dirs@;
            lemma_lex_irreflexive(dir@);
            if k < ds.len() {
                lemma_lex_total(ds[k as int].dir_path@, dir@);
                assert(!lex_lt(ds[k as int].dir_path@, dir@));
            }
            if !found {
                assert forall|i: int| k <= i < ds.len() implies lex_lt(dir@, (#[trigger] ds[i]).dir_path@) by {
                    if i > k {
                        assert(lex_lt(ds[k as int].dir_path@, ds[i].dir_path@));
                        lemma_lex_transitive(dir@, ds[k as int].dir_path@, ds[i].dir_path@);
                    }
                }
                assert forall|i: int| 0 <= i < ds.len() implies (#[trigger] ds[i]).dir_path@ != dir@ by {
                    lemma_lex_irreflexive(dir@);
                }
            }
        }
        (k, found)
    }

    /// Makes the entry of directory `dir` at `pos`, where
    /// [`position`](Self::position) found none.
    fn insert_dir(&mut self, pos: usize, dir: String, ancestors: Vec<Ancestor>, root_at: Option<usize>)
        requires
            old(self).wf(),
            pos <= old(self).dirs@.len(),
            forall|i: int| 0 <= i < pos ==> lex_lt((#[trigger] old(self).dirs@[i]).dir_path@, dir@),
            forall|i: int| pos <= i < old(self).dirs@.len() ==> lex_lt(dir@, (#[trigger] old(self).dirs@[i]).dir_path@),
            forall|i: int| 0 <= i < old(self).dirs@.len() ==> (#[trigger] old(self).dirs@[i]).dir_path@ != dir@,
        ensures
            final(self).wf(),
            final(self).files@ == old(self).files@,
            final(self).dirs@.len() == old(self).dirs@.len() + 1,
            final(self).dirs@[pos as int].dir_path@ == dir@,
            final(self).dirs@[pos as int].ancestors@ == ancestors@,
            final(self).dirs@[pos as int].root_at == root_at,
            final(self).dirs@[pos as int].first_image is None,
            final(self).dirs@[pos as int].metadata is None,
            final(self).dirs@[pos as int].model_files == 0,
            final(self).dirs@[pos as int].model_bytes == 0,
            !final(self).dirs@[pos as int].has_presupported_format,
            final(self).dirs@[pos as int].filename_support is None,
            forall|i: int| 0 <= i < pos ==> #[trigger] final(self).dirs@[i] == old(self).dirs@[i],
            forall|i: int| pos < i < final(self).dirs@.len() ==> #[trigger] final(self).dirs@[i] == old(self).dirs@[i - 1],
    {
        let ghost dv = dir@;
        let ghost old_dirs = self.dirs@;
        let d = new_scanned_dir(dir, ancestors, root_at);
        self.dirs.insert(pos, d);
        proof {
            let files = self.files@;
            let ds = self.dirs@;
            assert(tallied(files, old_dirs));
            assert(forall|i: int| 0 <= i < old_dirs.len() ==> #[trigger] old_dirs[i].dir_path@ != dv);
            lemma_absent_dir(files, old_dirs, dv);
            assert forall|i: int| 0 <= i < ds.len() implies (#[trigger] ds[i]).model_files == count_in(files, ds[i].dir_path@)
                && ds[i].model_bytes == bytes_in(files, ds[i].dir_path@) by {
                if i < pos {
                    assert(ds[i] == old_dirs[i]);
                } else if i > pos {
                    assert(ds[i] == old_dirs[i - 1]);
                }
            }
            assert forall|i: int, j: int| 0 <= i < j < ds.len() implies lex_lt(#[trigger] ds[i].dir_path@, #[trigger] ds[j].dir_path@) by {
                if j < pos {
                    assert(ds[i] == old_dirs[i] && ds[j] == old_dirs[j]);
                } else if j == pos {
                    assert(ds[i] == old_dirs[i]);
                } else if i > pos {
                    assert(ds[i] == old_dirs[i - 1] && ds[j] == old_dirs[j - 1]);
                } else if i == pos {
                    assert(ds[j] == old_dirs[j - 1]);
                } else {
                    assert(ds[i] == old_dirs[i] && ds[j] == old_dirs[j - 1]);
                    lemma_lex_transitive(ds[i].dir_path@, dv, ds[j].dir_path@);
                }
            }
            assert forall|e: Seq<char>| #![trigger count_in(files, e)]
                (forall|i: int| 0 <= i < ds.len() ==> #[trigger] ds[i].dir_path@ != e) implies count_in(files, e) == 0
                    && bytes_in(files, e) == 0 by {
                assert forall|i: int| 0 <= i < old_dirs.len() implies #[trigger] old_dirs[i].dir_path@ != e by {
                    if i < pos {
                        assert(ds[i] == old_dirs[i]);
                    } else {
                        assert(ds[i + 1] == old_dirs[i]);
                    }
                }
            }
        }
    }

    /// Counts a model file into its directory's entry and indexes it;
    /// `false` (and nothing recorded) when the directory's count or bytes
    /// would overflow. `ancestors` and `root_at` describe the directory,
    /// for when it is new.
    pub fn record_model_file(&mut self, row: FileRow, ancestors: Vec<Ancestor>, root_at: Option<usize>) -> (ok: bool)
        requires
            old(self).wf(),
        ensures
            final(self).wf(),
            ok == !(exists|i: int|
                0 <= i < old(self).dirs@.len() && #[trigger] old(self).dirs@[i].dir_path@ == row.dir_path@ && (
                old(self).dirs@[i].model_files == u32::MAX || !(i64::MIN <= old(self).dirs@[i].model_bytes + row.size_bytes
                <= i64::MAX))),
            ok ==> final(self).files@ == old(self).files@.push(row),
            ok ==> entry_changed(old(self).dirs@, final(self).dirs@, row.dir_path@, ancestors@, root_at,
                |before: ScannedDir, after: ScannedDir| model_file_noted(before, after, row.file_name@, row.extension@, row.size_bytes)),
            !ok ==> final(self).files@ == old(self).files@ && final(self).dirs@ == old(self).dirs@,
    {
        let ghost old_dirs = self.dirs@;
        let ghost av = ancestors@;
        let ghost rv = row;
        let (pos, found) = self.position(row.dir_path.as_str());
        if found {
            let n = self.dirs[pos].model_files;
            let b = self.dirs[pos].model_bytes;
            if n == u32::MAX || (row.size_bytes > 0 && b > i64::MAX - row.size_bytes) || (row.size_bytes < 0 && b < i64::MIN - row.size_bytes) {
                return false;
            }
        } else {
            self.insert_dir(pos, string_of(&chars_of(row.dir_path.as_str())), ancestors, root_at);
        }
        let ghost mid = self.dirs@;
        let ghost files0 = self.files@;
        let ghost key = row.dir_path@;
        assert(tallied(files0, mid));
        assert(mid[pos as int].dir_path@ == key);
        proof {
            lemma_lex_irreflexive(key);
        }
        assert(count_in(files0.push(row), key) == count_in(files0, key) + 1) by {
            assert(files0.push(row).drop_last() =~= files0);
        }
        let mut d = self.dirs.remove(pos);
        note_model_file(&mut d, row.file_name.as_str(), row.extension.as_str(), row.size_bytes);
        self.dirs.insert(pos, d);
        self.files.push(row);
        proof {
            assert(self.dirs@ =~= mid.update(pos as int, d));
            lemma_entry_changed(old_dirs, mid, self.dirs@, key, av, root_at, pos as int, found,
                |before: ScannedDir, after: ScannedDir| model_file_noted(before, after, rv.file_name@, rv.extension@, rv.size_bytes));
            let files = self.files@;
            let ds = self.dirs@;
            assert(files =~= files0.push(row));
            assert forall|i: int| 0 <= i < ds.len() implies (#[trigger] ds[i]).model_files == count_in(files, ds[i].dir_path@)
                && ds[i].model_bytes == bytes_in(files, ds[i].dir_path@) by {
                lemma_count_push(files0, row, ds[i].dir_path@);
                assert(mid[i].model_files == count_in(files0, mid[i].dir_path@));
                if i != pos {
                    assert(ds[i] == mid[i]);
                    if i < pos {
                        assert(lex_lt(mid[i].dir_path@, mid[pos as int].dir_path@));
                    } else {
                        assert(lex_lt(mid[pos as int].dir_path@, mid[i].dir_path@));
                    }
                    assert(mid[i].dir_path@ != key);
                }
            }
            assert forall|i: int, j: int| 0 <= i < j < ds.len() implies lex_lt(#[trigger] ds[i].dir_path@, #[trigger] ds[j].dir_path@) by {
                assert(ds[i].dir_path == mid[i].dir_path && ds[j].dir_path == mid[j].dir_path);
            }
            assert forall|e: Seq<char>| #![trigger count_in(files, e)]
                (forall|i: int| 0 <= i < ds.len() ==> #[trigger] ds[i].dir_path@ != e) implies count_in(files, e) == 0
                    && bytes_in(files, e) == 0 by {
                assert(ds[pos as int].dir_path@ != e);
                assert forall|i: int| 0 <= i < mid.len() implies #[trigger] mid[i].dir_path@ != e by {
                    assert(ds[i].dir_path == mid[i].dir_path);
                }
                lemma_absent_dir(files0, mid, e);
                lemma_count_push(files0, row, e);
            }
        }
        true
    }

    /// Notes an image in its directory's entry (the first one stays),
    /// making the entry (in path order, with `ancestors` and `root_at`)
    /// when the walk had none for `dir`.
    pub fn record_image(&mut self, dir: &str, path: String, ancestors: Vec<Ancestor>, root_at: Option<usize>)
        requires
            old(self).wf(),
        ensures
            final(self).wf(),
            final(self).files@ == old(self).files@,
            entry_changed(old(self).dirs@, final(self).dirs@, dir@, ancestors@, root_at, |before: ScannedDir, after: ScannedDir|
                same_counts(before, after) && opt_view(after.first_image) == or_else(opt_view(before.first_image), Some(path@))
                && after.metadata == before.metadata),
    {
        let ghost pv = path@;
        let ghost av = ancestors@;
        let ghost old_dirs = self.dirs@;
        let (k, found) = self.position(dir);
        if !found {
            self.insert_dir(k, string_of(&chars_of(dir)), ancestors, root_at);
        }
        let ghost mid = self.dirs@;
        let mut d = self.dirs.remove(k);
        note_image(&mut d, path);
        self.dirs.insert(k, d);
        proof {
            let ds = self.dirs@;
            assert(ds =~= mid.update(k as int, d));
            self.lemma_entry_kept(mid, k as int);
            lemma_entry_changed(old_dirs, mid, ds, dir@, av, root_at, k as int, found, |before: ScannedDir, after: ScannedDir|
                same_counts(before, after) && opt_view(after.first_image) == or_else(opt_view(before.first_image), Some(pv))
                && after.metadata == before.metadata);
        }
    }

    /// Records what a directory's `model.json` says of its model, making
    /// the entry (in path order, with `ancestors` and `root_at`) when the
    /// walk had none for `dir`.
    pub fn record_metadata(&mut self, dir: &str, meta: ModelMeta, ancestors: Vec<Ancestor>, root_at: Option<usize>)
        requires
            old(self).wf(),
        ensures
            final(self).wf(),
            final(self).files@ == old(self).files@,
            entry_changed(old(self).dirs@, final(self).dirs@, dir@, ancestors@, root_at, |before: ScannedDir, after: ScannedDir|
                same_counts(before, after) && after.metadata == Some(meta) && after.first_image == before.first_image),
    {
        let ghost av = ancestors@;
        let ghost old_dirs = self.dirs@;
        let ghost mv = meta;
        let (k, found) = self.position(dir);
        if !found {
            self.insert_dir(k, string_of(&chars_of(dir)), ancestors, root_at);
        }
        let ghost mid = self.dirs@;
        let mut d = self.dirs.remove(k);
        d.metadata = Some(meta);
        self.dirs.insert(k, d);
        proof {
            let ds = self.dirs@;
            assert(ds =~= mid.update(k as int, d));
            self.lemma_entry_kept(mid, k as int);
            lemma_entry_changed(old_dirs, mid, ds, dir@, av, root_at, k as int, found, |before: ScannedDir, after: ScannedDir|
                same_counts(before, after) && after.metadata == Some(mv) && after.first_image == before.first_image);
        }
    }

    /// Changing an entry's image or metadata, and nothing else of it, keeps
    /// the record agreeing with itself.
    proof fn lemma_entry_kept(&self, mid: Seq<ScannedDir>, k: int)
        requires
            tallied(self.files@, mid),
            0 <= k < mid.len(),
            self.dirs@ == mid.update(k, self.dirs@[k]),
            self.dirs@[k].dir_path == mid[k].dir_path,
            self.dirs@[k].model_files == mid[k].model_files,
            self.dirs@[k].model_bytes == mid[k].model_bytes,
        ensures
            self.wf(),
    {
        let ds = self.dirs@;
        assert forall|i: int| 0 <= i < ds.len() implies (#[trigger] ds[i]).dir_path == mid[i].dir_path
            && ds[i].model_files == mid[i].model_files && ds[i].model_bytes == mid[i].model_bytes by {}
        assert forall|i: int, j: int| 0 <= i < j < ds.len() implies lex_lt(#[trigger] ds[i].dir_path@, #[trigger] ds[j].dir_path@) by {
            assert(ds[i].dir_path == mid[i].dir_path && ds[j].dir_path == mid[j].dir_path);
        }
        assert forall|e: Seq<char>| #![trigger count_in(self.files@, e)]
            (forall|i: int| 0 <= i < ds.len() ==> #[trigger] ds[i].dir_path@ != e) implies count_in(self.files@, e) == 0
                && bytes_in(self.files@, e) == 0 by {
            assert forall|i: int| 0 <= i < mid.len() implies #[trigger] mid[i].dir_path@ != e by {
                assert(ds[i].dir_path == mid[i].dir_path);
            }
            lemma_absent_dir(self.files@, mid, e);
        }
    }
}

/// `after` is `before` with one more model file named `file_name`, with
/// extension `ext` and `size` bytes, counted in.
pub open spec fn model_file_noted(before: ScannedDir, after: ScannedDir, file_name: Seq<char>, ext: Seq<char>, size: i64) -> bool {
    &&& after.dir_path == before.dir_path
    &&& after.model_files == before.model_files + 1
    &&& after.model_bytes == before.model_bytes + size
    &&& after.has_presupported_format == (before.has_presupported_format || is_presupported_format(ext))
    &&& opt_view(after.filename_support) == or_else(
        opt_view(before.filename_support),
        match filename_support(file_name) {
            Some(s) => Some(s@),
            None => None,
        },
    )
    &&& after.first_image == before.first_image
    &&& after.metadata == before.metadata
    &&& after.ancestors == before.ancestors
    &&& after.root_at == before.root_at
}

/// Whether the walk had an entry for `dir`.
pub open spec fn has_dir(dirs: Seq<ScannedDir>, dir: Seq<char>) -> bool {
    exists|i: int| 0 <= i < dirs.len() && #[trigger] dirs[i].dir_path@ == dir
}

/// `after` is a fresh entry for `dir`: nothing counted, the given
/// ancestry.
pub open spec fn fresh_entry(after: ScannedDir, dir: Seq<char>, ancestors: Seq<Ancestor>, root_at: Option<usize>) -> bool {
    &&& after.dir_path@ == dir
    &&& after.ancestors@ == ancestors
    &&& after.root_at == root_at
    &&& after.model_files == 0
    &&& after.model_bytes == 0
    &&& !after.has_presupported_format
    &&& after.filename_support is None
}

/// `after` is `before` with only its image and metadata possibly changed.
pub open spec fn same_counts(before: ScannedDir, after: ScannedDir) -> bool {
    &&& after.dir_path == before.dir_path
    &&& after.model_files == before.model_files
    &&& after.model_bytes == before.model_bytes
    &&& after.has_presupported_format == before.has_presupported_format
    &&& after.filename_support == before.filename_support
    &&& after.ancestors == before.ancestors
    &&& after.root_at == before.root_at
}

/// `new_dirs` is `old_dirs` with the entry of `dir` changed as `change`
/// says: in place when there was one, else a fresh entry (nothing counted,
/// no image, no metadata, the given ancestry) changed and inserted in path
/// order.
pub open spec fn entry_changed(
    old_dirs: Seq<ScannedDir>,
    new_dirs: Seq<ScannedDir>,
    dir: Seq<char>,
    ancestors: Seq<Ancestor>,
    root_at: Option<usize>,
    change: spec_fn(ScannedDir, ScannedDir) -> bool,
) -> bool {
    exists|k: int| {
        &&& 0 <= k < new_dirs.len()
        &&& #[trigger] new_dirs[k].dir_path@ == dir
        &&& forall|j: int| 0 <= j < k ==> #[trigger] new_dirs[j] == old_dirs[j]
        &&& if has_dir(old_dirs, dir) {
            &&& new_dirs.len() == old_dirs.len()
            &&& old_dirs[k].dir_path@ == dir
            &&& forall|j: int| k < j < new_dirs.len() ==> #[trigger] new_dirs[j] == old_dirs[j]
            &&& change(old_dirs[k], new_dirs[k])
        } else {
            &&& new_dirs.len() == old_dirs.len() + 1
            &&& forall|j: int| k < j < new_dirs.len() ==> #[trigger] new_dirs[j] == old_dirs[j - 1]
            &&& exists|blank: ScannedDir| fresh_entry(blank, dir, ancestors, root_at) && blank.first_image is None
                && blank.metadata is None && #[trigger] change(blank, new_dirs[k])
        }
    }
}

proof fn lemma_entry_changed(
    old_dirs: Seq<ScannedDir>,
    mid: Seq<ScannedDir>,
    new_dirs: Seq<ScannedDir>,
    dir: Seq<char>,
    ancestors: Seq<Ancestor>,
    root_at: Option<usize>,
    k: int,
    found: bool,
    change: spec_fn(ScannedDir, ScannedDir) -> bool,
)
    requires
        0 <= k < mid.len(),
        mid[k].dir_path@ == dir,
        new_dirs == mid.update(k, new_dirs[k]),
        new_dirs[k].dir_path == mid[k].dir_path,
        change(mid[k], new_dirs[k]),
        found == has_dir(old_dirs, dir),
        found ==> mid == old_dirs,
        !found ==> {
            &&& mid.len() == old_dirs.len() + 1
            &&& forall|j: int| 0 <= j < k ==> #[trigger] mid[j] == old_dirs[j]
            &&& forall|j: int| k < j < mid.len() ==> #[trigger] mid[j] == old_dirs[j - 1]
            &&& fresh_entry(mid[k], dir, ancestors, root_at)
            &&& mid[k].first_image is None
            &&& mid[k].metadata is None
        },
    ensures
        entry_changed(old_dirs, new_dirs, dir, ancestors, root_at, change),
{
    assert(new_dirs[k].dir_path@ == dir);
    assert(forall|j: int| 0 <= j < new_dirs.len() && j != k ==> #[trigger] new_dirs[j] == mid[j]);
    if !found {
        assert(fresh_entry(mid[k], dir, ancestors, root_at) && mid[k].first_image is None && mid[k].metadata is None
            && change(mid[k], new_dirs[k]));
    }
}

/// The scan's result from a walk's record: [`assemble_scan`] over its
/// files and directories, so each model row counts exactly the indexed
/// model files directly in its directory, and their bytes.
pub fn finish_scan(tally: ScanTally, releases: &Vec<ReleaseInfo>, designers: &Vec<String>, sep: char) -> (r: ScanOutcome)
    requires
        tally.wf(),
    ensures
        r.files@ == tally.files@,
        r.models.len() == model_indices(tally.dirs@).len(),
        forall|k: int|
            0 <= k < r.models.len() ==> row_matches(
                #[trigger] r.models@[k],
                tally.dirs@[model_indices(tally.dirs@)[k]],
                tally.dirs@,
                releases@,
                designers@,
                sep,
            ),
        forall|k: int|
            0 <= k < r.models.len() ==> (#[trigger] r.models@[k]).file_count == count_in(r.files@, r.models@[k].dir_path@)
                && r.models@[k].total_size_bytes == bytes_in(r.files@, r.models@[k].dir_path@),
        pair_views(r.metadata_tags@) == all_tags(tally.dirs@),
        forall|f: int| 0 <= f < r.files@.len() ==> exists|k: int|
            0 <= k < r.models.len() && (#[trigger] r.models@[k]).dir_path@ == (#[trigger] r.files@[f]).dir_path@,
{
    let ScanTally { files, dirs } = tally;
    let ghost fv = files@;
    proof {
        lemma_model_indices_bounds(dirs@);
    }
    let r = assemble_scan(files, &dirs, releases, designers, sep);
    proof {
        assert forall|k: int| 0 <= k < r.models.len() implies (#[trigger] r.models@[k]).file_count == count_in(r.files@, r.models@[k].dir_path@)
            && r.models@[k].total_size_bytes == bytes_in(r.files@, r.models@[k].dir_path@) by {
            let i = model_indices(dirs@)[k];
            assert(row_matches(r.models@[k], dirs@[i], dirs@, releases@, designers@, sep));
        }
        assert forall|f: int| 0 <= f < r.files@.len() implies exists|k: int|
            0 <= k < r.models.len() && (#[trigger] r.models@[k]).dir_path@ == (#[trigger] r.files@[f]).dir_path@ by {
            let d = fv[f].dir_path@;
            lemma_count_member(fv, f);
            if forall|i: int| 0 <= i < dirs@.len() ==> #[trigger] dirs@[i].dir_path@ != d {
                lemma_absent_dir(fv, dirs@, d);
            }
            let i = choose|i: int| 0 <= i < dirs@.len() && #[trigger] dirs@[i].dir_path@ == d;
            assert(dirs@[i].model_files == count_in(fv, d));
            lemma_model_index_of(dirs@, i);
            let k = choose|k: int| 0 <= k < model_indices(dirs@).len() && #[trigger] model_indices(dirs@)[k] == i;
            assert(row_matches(r.models@[k], dirs@[i], dirs@, releases@, designers@, sep));
            assert(r.models@[k].dir_path@ == r.files@[f].dir_path@);
        }
    }
    r
}

/// A file counts in its own directory.
proof fn lemma_count_member(files: Seq<FileRow>, f: int)
    requires
        0 <= f < files.len(),
    ensures
        count_in(files, files[f].dir_path@) >= 1,
    decreases files.len(),
{
    if f < files.len() - 1 {
        lemma_count_member(files.drop_last(), f);
        assert(files.drop_last()[f] == files[f]);
    }
}

/// A directory with model files is among the model rows.
proof fn lemma_model_index_of(dirs: Seq<ScannedDir>, i: int)
    requires
        0 <= i < dirs.len(),
        dirs[i].model_files > 0,
    ensures
        exists|k: int| 0 <= k < model_indices(dirs).len() && #[trigger] model_indices(dirs)[k] == i,
    decreases dirs.len(),
{
    let p = model_indices(dirs.drop_last());
    if i == dirs.len() - 1 {
        assert(model_indices(dirs)[p.len() as int] == i);
    } else {
        lemma_model_index_of(dirs.drop_last(), i);
        let k = choose|k: int| 0 <= k < p.len() && #[trigger] p[k] == i;
        if dirs.last().model_files > 0 {
            assert(model_indices(dirs)[k] == p[k]);
        } else {
            assert(model_indices(dirs)[k] == p[k]);
        }
    }
}

/// Every index `model_indices` gives is an index of `dirs`.
proof fn lemma_model_indices_bounds(dirs: Seq<ScannedDir>)
    ensures
        forall|k: int| 0 <= k < model_indices(dirs).len() ==> 0 <= #[trigger] model_indices(dirs)[k] < dirs.len(),
    decreases dirs.len(),
{
    if dirs.len() > 0 {
        lemma_model_indices_bounds(dirs.drop_last());
        let p = model_indices(dirs.drop_last());
        if dirs.last().model_files > 0 {
            assert forall|k: int| 0 <= k < p.len() + 1 implies 0 <= #[trigger] p.push(dirs.len() - 1)[k] < dirs.len() by {
                if k < p.len() {
                    assert(p.push(dirs.len() - 1)[k] == p[k]);
                }
            }
        }
    }
}

} // verus!

verus! {

/// What `Path::parent` gives for `p`: `p` without its final component,
/// as text, or `None` when `p` ends in a root or prefix or is empty.
pub uninterp spec fn parent_of(p: Seq<char>) -> Option<Seq<char>>;

/// `Path::parent` of `p`, as text. Its documentation states that the
/// parent is the path without its final component, so it has fewer
/// components than `p`.
#[verifier::external_body]
fn path_parent(p: &str) -> (r: Option<String>)
    ensures
        opt_chars(r) == parent_of(p@),
        r matches Some(q) ==> components_of(q@).len() < components_of(p@).len(),
{
    std::path::Path::new(p).parent().map(|q| q.to_string_lossy().into_owned())
}

/// Whether two paths are equal as `Path`s are: component by component.
pub(crate) fn same_path(a: &str, b: &Vec<String>) -> (r: bool)
    ensures
        r == (components_of(a@) == string_views(b@)),
{
    let ca = path_components(a);
    if ca.len() != b.len() {
        assert(string_views(ca@).len() != string_views(b@).len());
        return false;
    }
    let mut i: usize = 0;
    while i < ca.len()
        invariant
            0 <= i <= ca.len(),
            ca.len() == b.len(),
            string_views(ca@) == components_of(a@),
            forall|k: int| 0 <= k < i ==> (#[trigger] ca@[k])@ == b@[k]@,
        decreases ca.len() - i,
    {
        if !chars_eq(&chars_of(ca[i].as_str()), &chars_of(b[i].as_str())) {
            assert(string_views(ca@)[i as int] != string_views(b@)[i as int]);
            return false;
        }
        i += 1;
    }
    assert(string_views(ca@) =~= string_views(b@));
    true
}

/// `dir` and its parents up to the top, each with its file name, as the
/// walk records them: the first is `dir` itself and each next one is the
/// previous one's [`parent_of`]; `root_at` is the first of them equal to
/// `root` as a `Path` (component by component).
pub open spec fn ancestry_ok(dir: Seq<char>, root: Seq<char>, out: Seq<Ancestor>, root_at: Option<usize>) -> bool {
    &&& out.len() >= 1
    &&& out[0].path@ == dir
    &&& forall|k: int| 0 <= k < out.len() - 1 ==> parent_of((#[trigger] out[k]).path@) == Some(out[k + 1].path@)
    &&& parent_of(out[out.len() - 1].path@) is None
    &&& forall|k: int| 0 <= k < out.len() ==> opt_view((#[trigger] out[k]).name) == file_name_of(out[k].path@)
    &&& match root_at {
        Some(j) => j < out.len() && components_of(out[j as int].path@) == components_of(root) && forall|k: int|
            0 <= k < j ==> components_of((#[trigger] out[k]).path@) != components_of(root),
        None => forall|k: int| 0 <= k < out.len() ==> components_of((#[trigger] out[k]).path@) != components_of(root),
    }
}

/// Climbs from `dir` to the top of its path, naming each step, and finds
/// the catalog root among the steps.
pub fn ancestry(dir: &str, root: &str) -> (r: (Vec<Ancestor>, Option<usize>))
    ensures
        ancestry_ok(dir@, root@, r.0@, r.1),
{
    let rc = path_components(root);
    let mut out: Vec<Ancestor> = Vec::new();
    let mut root_at: Option<usize> = None;
    let mut current = string_of(&chars_of(dir));
    loop
        invariant
            string_views(rc@) == components_of(root@),
            out.len() == 0 ==> current@ == dir@,
            out.len() > 0 ==> out@[0].path@ == dir@,
            out.len() > 0 ==> parent_of(out@[out.len() - 1].path@) == Some(current@),
            forall|k: int| 0 <= k < out.len() - 1 ==> parent_of((#[trigger] out@[k]).path@) == Some(out@[k + 1].path@),
            forall|k: int| 0 <= k < out.len() ==> opt_view((#[trigger] out@[k]).name) == file_name_of(out@[k].path@),
            match root_at {
                Some(j) => j < out.len() && components_of(out@[j as int].path@) == components_of(root@) && forall|k: int|
                    0 <= k < j ==> components_of((#[trigger] out@[k]).path@) != components_of(root@),
                None => forall|k: int| 0 <= k < out.len() ==> components_of((#[trigger] out@[k]).path@) != components_of(root@),
            },
        decreases components_of(current@).len(),
    {
        if root_at.is_none() && same_path(current.as_str(), &rc) {
            root_at = Some(out.len());
        }
        let name = path_file_name(current.as_str());
        let next = path_parent(current.as_str());
        let ghost cv = current@;
        let ghost pre = out@;
        out.push(Ancestor { path: current, name });
        assert(out@[out.len() - 1].path@ == cv);
        assert forall|k: int| 0 <= k < out@.len() - 1 implies parent_of((#[trigger] out@[k]).path@) == Some(out@[k + 1].path@) by {
            assert(out@[k] == pre[k] || k == pre.len() - 1);
        }
        match next {
            Some(p) => {
                current = p;
            },
            None => {
                return (out, root_at);
            },
        }
    }
}

} // verus!

verus! {

/// `needle` occurs in `hay` at position `at`, as text.
pub open spec fn text_at(hay: Seq<char>, needle: Seq<char>, at: int) -> bool {
    &&& 0 <= at
    &&& at + needle.len() <= hay.len()
    &&& hay.subrange(at, at + needle.len()) == needle
}

/// `needle` occurs somewhere in `hay`, as text.
pub open spec fn occurs_in(hay: Seq<char>, needle: Seq<char>) -> bool {
    exists|at: int| text_at(hay, needle, at)
}

/// Folder `i` of the climb (the first `root` steps, up to and including the
/// catalog root) names studio `j`: the studio's alphanumeric key occurs in
/// the folder's.
pub open spec fn names_studio(anc: Seq<(Seq<char>, Option<Seq<char>>)>, designers: Seq<String>, i: int, j: int) -> bool {
    &&& 0 <= i < anc.len()
    &&& 0 <= j < designers.len()
    &&& anc[i].1 is Some
    &&& occurs_in(alnum_key_of(anc[i].1.unwrap()), alnum_key_of(designers[j]@))
}

/// Step `i` is on the climb: at or below the catalog root.
pub open spec fn on_climb(root_at: Option<int>, i: int) -> bool {
    match root_at {
        Some(r) => 0 <= r ==> i <= r,
        None => true,
    }
}

proof fn lemma_first_designer(key: Seq<char>, designers: Seq<String>, j: int)
    requires
        0 <= j,
    ensures
        first_designer(key, designers, j) matches Some(d) ==> exists|k: int|
            j <= k < designers.len() && #[trigger] designers[k]@ == d && occurs_in(key, alnum_key_of(designers[k]@)),
        (exists|k: int| j <= k < designers.len() && #[trigger] occurs_in(key, alnum_key_of(designers[k]@)))
            ==> first_designer(key, designers, j) is Some,
    decreases designers.len() - j,
{
    if j < designers.len() {
        lemma_first_designer(key, designers, j + 1);
        if contains(key, alnum_key_of(designers[j]@)) {
            let at = choose|at: int| crate::text::occurs_at(key, alnum_key_of(designers[j]@), at);
            assert(text_at(key, alnum_key_of(designers[j]@), at));
            assert(occurs_in(key, alnum_key_of(designers[j]@)));
        } else {
            if exists|k: int| j <= k < designers.len() && #[trigger] occurs_in(key, alnum_key_of(designers[k]@)) {
                let k = choose|k: int| j <= k < designers.len() && #[trigger] occurs_in(key, alnum_key_of(designers[k]@));
                if k == j {
                    let at = choose|at: int| text_at(key, alnum_key_of(designers[k]@), at);
                    assert(crate::text::occurs_at(key, alnum_key_of(designers[j]@), at));
                }
                assert(j + 1 <= k);
            }
        }
    }
}

proof fn lemma_designer_search(
    anc: Seq<(Seq<char>, Option<Seq<char>>)>,
    root_at: Option<int>,
    designers: Seq<String>,
    i: int,
)
    requires
        0 <= i,
    ensures
        designer_search(anc, root_at, designers, i) matches Some(d) ==> exists|k: int, j: int|
            i <= k && (on_climb(root_at, i) ==> on_climb(root_at, k)) && #[trigger] names_studio(anc, designers, k, j)
                && designers[j]@ == d,
        (exists|k: int, j: int| i <= k && (on_climb(root_at, i) ==> on_climb(root_at, k)) && #[trigger] names_studio(anc, designers, k, j))
            ==> designer_search(anc, root_at, designers, i) is Some,
    decreases anc.len() - i,
{
    if i < anc.len() {
        lemma_designer_search(anc, root_at, designers, i + 1);
        match anc[i].1 {
            Some(seg) => {
                lemma_first_designer(alnum_key_of(seg), designers, 0);
                if let Some(d) = first_designer(alnum_key_of(seg), designers, 0) {
                    let j = choose|k: int| 0 <= k < designers.len() && #[trigger] designers[k]@ == d && occurs_in(alnum_key_of(seg), alnum_key_of(designers[k]@));
                    assert(names_studio(anc, designers, i, j));
                }
            },
            None => {},
        }
        if exists|k: int, j: int| i <= k && (on_climb(root_at, i) ==> on_climb(root_at, k)) && #[trigger] names_studio(anc, designers, k, j) {
            let (k, j) = choose|k: int, j: int| i <= k && (on_climb(root_at, i) ==> on_climb(root_at, k)) && #[trigger] names_studio(anc, designers, k, j);
            if k == i {
                let seg = anc[i].1.unwrap();
                assert(occurs_in(alnum_key_of(seg), alnum_key_of(designers[j]@)));
                assert(exists|kk: int| 0 <= kk < designers.len() && #[trigger] occurs_in(alnum_key_of(seg), alnum_key_of(designers[kk]@)));
            } else {
                if root_at == Some(i) {
                    assert(on_climb(root_at, i));
                    assert(!on_climb(root_at, k));
                }
                assert(on_climb(root_at, i + 1) ==> on_climb(root_at, k));
            }
        }
    }
}

/// The designer a folder stack names is a listed studio whose
/// alphanumeric key occurs in the key of some folder on the climb (at or
/// below the catalog root) — the studio is the needle, the folder the
/// haystack — and whenever some folder on the climb names a listed studio
/// that way, a designer is found.
pub proof fn inferred_designer_is_named_by_a_folder(
    anc: Seq<(Seq<char>, Option<Seq<char>>)>,
    root_at: Option<int>,
    designers: Seq<String>,
)
    ensures
        designer_search(anc, root_at, designers, 0) matches Some(d) ==> exists|k: int, j: int|
            on_climb(root_at, k) && #[trigger] names_studio(anc, designers, k, j) && designers[j]@ == d,
        (exists|k: int, j: int| on_climb(root_at, k) && #[trigger] names_studio(anc, designers, k, j))
            ==> designer_search(anc, root_at, designers, 0) is Some,
{
    lemma_designer_search(anc, root_at, designers, 0);
    assert(on_climb(root_at, 0) || !on_climb(root_at, 0));
    if exists|k: int, j: int| on_climb(root_at, k) && #[trigger] names_studio(anc, designers, k, j) {
        let (k, j) = choose|k: int, j: int| on_climb(root_at, k) && #[trigger] names_studio(anc, designers, k, j);
        assert(0 <= k);
    }
}


proof fn lemma_first_designer_first(key: Seq<char>, designers: Seq<String>, j: int)
    requires
        0 <= j,
    ensures
        first_designer(key, designers, j) matches Some(d) ==> exists|k: int| {
            &&& j <= k < designers.len()
            &&& #[trigger] designers[k]@ == d
            &&& occurs_in(key, alnum_key_of(designers[k]@))
            &&& forall|m: int| j <= m < k ==> !#[trigger] occurs_in(key, alnum_key_of(designers[m]@))
        },
        first_designer(key, designers, j) is None ==> forall|m: int|
            j <= m < designers.len() ==> !#[trigger] occurs_in(key, alnum_key_of(designers[m]@)),
    decreases designers.len() - j,
{
    if j < designers.len() {
        lemma_first_designer_first(key, designers, j + 1);
        if contains(key, alnum_key_of(designers[j]@)) {
            let at = choose|at: int| crate::text::occurs_at(key, alnum_key_of(designers[j]@), at);
            assert(text_at(key, alnum_key_of(designers[j]@), at));
            assert(occurs_in(key, alnum_key_of(designers[j]@)));
        } else {
            assert(!occurs_in(key, alnum_key_of(designers[j]@))) by {
                if occurs_in(key, alnum_key_of(designers[j]@)) {
                    let at = choose|at: int| text_at(key, alnum_key_of(designers[j]@), at);
                    assert(crate::text::occurs_at(key, alnum_key_of(designers[j]@), at));
                }
            }
        }
    }
}

/// The folder `k` names no listed studio.
pub open spec fn names_none(anc: Seq<(Seq<char>, Option<Seq<char>>)>, designers: Seq<String>, k: int) -> bool {
    forall|jj: int| !#[trigger] names_studio(anc, designers, k, jj)
}

proof fn lemma_search_first(
    anc: Seq<(Seq<char>, Option<Seq<char>>)>,
    root_at: Option<int>,
    designers: Seq<String>,
    i: int,
)
    requires
        0 <= i,
    ensures
        designer_search(anc, root_at, designers, i) matches Some(d) ==> exists|k: int, j: int| {
            &&& i <= k
            &&& #[trigger] names_studio(anc, designers, k, j)
            &&& designers[j]@ == d
            &&& forall|m: int| i <= m < k ==> #[trigger] names_none(anc, designers, m)
            &&& forall|jj: int| 0 <= jj < j ==> !#[trigger] names_studio(anc, designers, k, jj)
        },
    decreases anc.len() - i,
{
    if i < anc.len() {
        lemma_search_first(anc, root_at, designers, i + 1);
        let hit = match anc[i].1 {
            Some(seg) => first_designer(alnum_key_of(seg), designers, 0),
            None => None,
        };
        match anc[i].1 {
            Some(seg) => {
                lemma_first_designer_first(alnum_key_of(seg), designers, 0);
                if let Some(d) = hit {
                    let j = choose|k: int| {
                        &&& 0 <= k < designers.len()
                        &&& #[trigger] designers[k]@ == d
                        &&& occurs_in(alnum_key_of(seg), alnum_key_of(designers[k]@))
                        &&& forall|m: int| 0 <= m < k ==> !#[trigger] occurs_in(alnum_key_of(seg), alnum_key_of(designers[m]@))
                    };
                    assert(names_studio(anc, designers, i, j));
                    assert forall|jj: int| 0 <= jj < j implies !#[trigger] names_studio(anc, designers, i, jj) by {
                        assert(!occurs_in(alnum_key_of(seg), alnum_key_of(designers[jj]@)));
                    }
                } else {
                    assert(names_none(anc, designers, i)) by {
                        assert forall|jj: int| !#[trigger] names_studio(anc, designers, i, jj) by {
                            if 0 <= jj < designers.len() {
                                assert(!occurs_in(alnum_key_of(seg), alnum_key_of(designers[jj]@)));
                            }
                        }
                    }
                }
            },
            None => {
                assert(names_none(anc, designers, i));
            },
        }
        if hit.is_none() && root_at != Some(i) {
            if let Some(d) = designer_search(anc, root_at, designers, i + 1) {
                let (k, j) = choose|k: int, j: int| {
                    &&& i + 1 <= k
                    &&& #[trigger] names_studio(anc, designers, k, j)
                    &&& designers[j]@ == d
                    &&& forall|m: int| i + 1 <= m < k ==> #[trigger] names_none(anc, designers, m)
                    &&& forall|jj: int| 0 <= jj < j ==> !#[trigger] names_studio(anc, designers, k, jj)
                };
                assert forall|m: int| i <= m < k implies #[trigger] names_none(anc, designers, m) by {
                    if m == i {
                    }
                }
            }
        }
    }
}

/// The designer a folder stack names comes from the nearest folder on the
/// climb that names a listed studio, and is the first listed studio that
/// folder names: no folder below it names one, and no studio listed
/// before it occurs in that folder.
pub proof fn inferred_designer_is_the_nearest_first_listed(
    anc: Seq<(Seq<char>, Option<Seq<char>>)>,
    root_at: Option<int>,
    designers: Seq<String>,
)
    ensures
        designer_search(anc, root_at, designers, 0) matches Some(d) ==> exists|k: int, j: int| {
            &&& #[trigger] names_studio(anc, designers, k, j)
            &&& designers[j]@ == d
            &&& forall|m: int| 0 <= m < k ==> #[trigger] names_none(anc, designers, m)
            &&& forall|jj: int| 0 <= jj < j ==> !#[trigger] names_studio(anc, designers, k, jj)
        },
{
    lemma_search_first(anc, root_at, designers, 0);
}

} // verus!

verus! {

proof fn lemma_first_pose_kept(steps: Seq<(Seq<char>, Seq<char>)>)
    requires
        steps.len() >= 1,
        climb_facts(steps.take(1)).pose is Some,
    ensures
        climb_facts(steps).pose == climb_facts(steps.take(1)).pose,
    decreases steps.len(),
{
    if steps.len() > 1 {
        assert(steps.drop_last().take(1) =~= steps.take(1));
        lemma_first_pose_kept(steps.drop_last());
    } else {
        assert(steps.take(1) =~= steps);
    }
}

/// A model folder named by a documented pose word (sitting, standing,
/// kneeling, ...) that states no support status is a pose of the model
/// above it, never the model itself: the climb keeps that word as the
/// pose whatever lies further up, and once a folder above names the
/// model, the display name is that name, a space and the pose word.
pub proof fn pose_folders_name_a_pose_of_the_model_above(steps: Seq<(Seq<char>, Seq<char>)>)
    requires
        steps.len() >= 1,
        pose_lexicon(lowercase(trim(steps[0].1))),
        segment_support(steps[0].1) is None,
    ensures
        climb_facts(steps).pose == Some(lowercase(trim(steps[0].1))),
        climb_facts(steps).base_name matches Some(b) ==> inferred_name(climb_facts(steps), steps[0].1) == b + " "@
            + lowercase(trim(steps[0].1)),
{
    pose_words_are_poses(steps[0].1);
    let one = steps.take(1);
    assert(one.drop_last() =~= Seq::<(Seq<char>, Seq<char>)>::empty());
    assert(one.last() == steps[0]);
    assert(climb_facts(one.drop_last()) == no_facts());
    assert(segment_pose(steps[0].1).is_some());
    assert(climb_facts(one) == step_facts(no_facts(), steps[0].0, steps[0].1));
    assert(climb_facts(one).pose == Some(lowercase(trim(steps[0].1))));
    lemma_first_pose_kept(steps);
}

/// How the walk files an entry: a listed model extension makes a model
/// file, else a listed image extension an image, else `model.json` and
/// `release.json` are the sidecars, and anything else is ignored; the
/// presupported-only formats are `.lys`, `.chitu` and `.chitubox`.
pub proof fn walk_classifies_by_the_listed_extensions(file_name: Seq<char>, ext: Seq<char>)
    ensures
        model_extension_listed(ext) ==> entry_kind(file_name, ext) == EntryKind::ModelFile,
        !model_extension_listed(ext) && image_extension_listed(ext) ==> entry_kind(file_name, ext) == EntryKind::Image,
        !model_extension_listed(ext) && !image_extension_listed(ext) ==> entry_kind(file_name, ext) == (if file_name
            == "model.json"@ {
            EntryKind::ModelSidecar
        } else if file_name == "release.json"@ {
            EntryKind::ReleaseSidecar
        } else {
            EntryKind::Other
        }),
        is_presupported_format(ext) == (ext == "lys"@ || ext == "chitu"@ || ext == "chitubox"@),
{
    scanned_extensions_are_the_listed_ones(ext);
}

} // verus!
