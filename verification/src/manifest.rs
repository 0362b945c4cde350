//! Rules of the release manifest written at pack time.
use vstd::prelude::*;
use crate::models::{FilePose, StlModel};
use crate::storage::ArchiveFileEntry;
use crate::text::{
    append_chars, chars_eq, chars_of, join, join_words, decimal, decimal_exec, padded, padded_exec, parse_unsigned,
    parse_unsigned_exec, slice, split_by_flags, split_on, string_of, trim, trim_chars, views,
    lemma_split_on_nonempty, digit_char,
};

verus! {

/// The separator predicate "is a slash".
pub open spec fn slash_pred() -> spec_fn(char) -> bool {
    |c: char| c == '/'
}

/// "MM/YYYY" (the builder's input form) as canonical "YYYY-MM": exactly
/// two slash-separated fields, each a decimal number once trimmed, the
/// month 1-12 and at most 255, the year at most 65535 and written without
/// padding. Anything else — already canonical or unrecognized — passes
/// through untouched.
pub open spec fn canonical_date_text(date: Seq<char>) -> Seq<char> {
    let parts = split_on(date, slash_pred());
    if parts.len() == 2 {
        let m = parse_unsigned(trim(parts[0]), 255);
        let y = parse_unsigned(trim(parts[1]), 65535);
        if m.is_some() && y.is_some() && 1 <= m.unwrap() <= 12 {
            decimal(y.unwrap()) + "-"@ + padded(m.unwrap(), 2)
        } else {
            date
        }
    } else {
        date
    }
}

/// Normalizes a release date to "YYYY-MM".
pub fn canonical_date(date: &str) -> (r: String)
    ensures
        r@ == canonical_date_text(date@),
{
    let v = chars_of(date);
    let mut flags: Vec<bool> = Vec::new();
    let mut i: usize = 0;
    while i < v.len()
        invariant
            0 <= i <= v.len(),
            flags.len() == i,
            forall|k: int| 0 <= k < i ==> flags@[k] == slash_pred()(v@[k]),
        decreases v.len() - i,
    {
        flags.push(v[i] == '/');
        i += 1;
    }
    let parts = split_by_flags(&v, &flags, Ghost(slash_pred()));
    if parts.len() == 2 {
        assert(views(parts@)[0] == parts@[0]@ && views(parts@)[1] == parts@[1]@);
        let month = trim_chars(&parts[0]);
        let year = trim_chars(&parts[1]);
        let m = parse_unsigned_exec(&month, 255);
        let y = parse_unsigned_exec(&year, 65535);
        match (m, y) {
            (Some(m), Some(y)) => {
                if 1 <= m && m <= 12 {
                    let mut out = decimal_exec(y);
                    out.push('-');
                    let mm = padded_exec(m, 2);
                    append_chars(&mut out, &mm);
                    proof {
                        reveal_strlit("-");
                        assert(out@ =~= decimal(y as nat) + "-"@ + padded(m as nat, 2));
                    }
                    return string_of(&out);
                }
            },
            _ => {},
        }
    }
    string_of(&v)
}

/// A text without any slash splits into a single field.
proof fn lemma_no_slash_one_field(s: Seq<char>)
    requires
        forall|i: int| 0 <= i < s.len() ==> s[i] != '/',
    ensures
        split_on(s, slash_pred()).len() == 1,
    decreases s.len(),
{
    if s.len() > 0 {
        lemma_no_slash_one_field(s.drop_last());
        lemma_split_on_nonempty(s.drop_last(), slash_pred());
    }
}

proof fn lemma_decimal_digits(n: nat)
    ensures
        forall|i: int| 0 <= i < decimal(n).len() ==> #[trigger] decimal(n)[i] != '/',
    decreases n,
{
    if n >= 10 {
        lemma_decimal_digits(n / 10);
        assert forall|i: int| 0 <= i < decimal(n).len() implies #[trigger] decimal(n)[i] != '/' by {
            if i < decimal(n / 10).len() {
                assert(decimal(n)[i] == decimal(n / 10)[i]);
            } else {
                assert(decimal(n)[i] == digit_char(n % 10));
            }
        }
    }
}

proof fn lemma_padded_digits(n: nat, w: nat)
    ensures
        forall|i: int| 0 <= i < padded(n, w).len() ==> #[trigger] padded(n, w)[i] != '/',
    decreases w,
{
    if w > 0 {
        lemma_padded_digits(n / 10, (w - 1) as nat);
        assert forall|i: int| 0 <= i < padded(n, w).len() implies #[trigger] padded(n, w)[i] != '/' by {
            if i < padded(n / 10, (w - 1) as nat).len() {
                assert(padded(n, w)[i] == padded(n / 10, (w - 1) as nat)[i]);
            } else {
                assert(padded(n, w)[i] == digit_char(n % 10));
            }
        }
    }
}

/// Normalizing a date twice changes nothing more than normalizing it once:
/// a canonical date passes through.
pub proof fn canonical_date_idempotent(date: Seq<char>)
    ensures
        canonical_date_text(canonical_date_text(date)) == canonical_date_text(date),
{
    let once = canonical_date_text(date);
    if once != date {
        let parts = split_on(date, slash_pred());
        let m = parse_unsigned(trim(parts[0]), 255);
        let y = parse_unsigned(trim(parts[1]), 65535);
        lemma_decimal_digits(y.unwrap());
        lemma_padded_digits(m.unwrap(), 2);
        reveal_strlit("-");
        let a = decimal(y.unwrap());
        let b = padded(m.unwrap(), 2);
        assert forall|i: int| 0 <= i < once.len() implies once[i] != '/' by {
            if i < a.len() {
                assert(once[i] == a[i]);
            } else if i == a.len() {
                assert(once[i] == '-');
            } else {
                assert(once[i] == b[i - a.len() - 1]);
            }
        }
        lemma_no_slash_one_field(once);
    }
}


/// What `Path::components` gives for a path, each component as text (the
/// component rules are the host's).
pub uninterp spec fn components_of(p: Seq<char>) -> Seq<Seq<char>>;

/// The characters of each string.
pub open spec fn string_views(v: Seq<String>) -> Seq<Seq<char>> {
    v.map_values(|s: String| s@)
}

/// `Path::components` of `p`, as text.
#[verifier::external_body]
pub(crate) fn path_components(p: &str) -> (r: Vec<String>)
    ensures
        string_views(r@) == components_of(p@),
{
    std::path::Path::new(p).components().map(|c| c.as_os_str().to_string_lossy().into_owned()).collect()
}

/// The name a staged file has inside an archive: its relative path's
/// components joined with `/`, whatever separator the host writes.
pub fn archive_name(rel: &str) -> (r: String)
    ensures
        r@ == join(components_of(rel@), "/"@),
{
    let parts = path_components(rel);
    let mut words: Vec<Vec<char>> = Vec::new();
    let mut i: usize = 0;
    while i < parts.len()
        invariant
            0 <= i <= parts.len(),
            views(words@) == string_views(parts@).take(i as int),
        decreases parts.len() - i,
    {
        let ghost pre = words@;
        let w = chars_of(parts[i].as_str());
        words.push(w);
        assert(views(words@) =~= views(pre).push(w@));
        assert(views(words@) =~= string_views(parts@).take(i + 1));
        i += 1;
    }
    assert(string_views(parts@).take(parts.len() as int) =~= string_views(parts@));
    let slash = chars_of("/");
    let joined = join_words(&words, &slash);
    string_of(&joined)
}

/// One file of a manifest model: its archive name, the checksum and size
/// the packer recorded, and the pose and support status its model gives it.
#[derive(Debug, Clone)]
pub struct ManifestFile {
    pub name: String,
    pub checksum: String,
    pub size_bytes: u64,
    pub pose: Option<String>,
    pub support_status: Option<String>,
}

/// Index of the last entry named `name` (later entries shadow earlier ones
/// of the same name).
pub open spec fn entry_named(entries: Seq<ArchiveFileEntry>, name: Seq<char>) -> Option<int>
    decreases entries.len(),
{
    if entries.len() == 0 {
        None
    } else if entries.last().name@ == name {
        Some(entries.len() - 1)
    } else {
        entry_named(entries.drop_last(), name)
    }
}

/// The part of an archive name after its last `/`.
pub open spec fn basename(name: Seq<char>) -> Seq<char>
    decreases name.len(),
{
    if name.len() == 0 {
        name
    } else if name.last() == '/' {
        Seq::empty()
    } else {
        basename(name.drop_last()).push(name.last())
    }
}

/// Index of the first file pose recorded for base name `base`, from `j` on.
pub open spec fn pose_named(poses: Seq<FilePose>, base: Seq<char>, j: int) -> Option<int>
    decreases poses.len() - j,
{
    if j < 0 || j >= poses.len() {
        None
    } else if poses[j].name@ == base {
        Some(j)
    } else {
        pose_named(poses, base, j + 1)
    }
}

/// The manifest's view of a file: name, checksum, size, pose, support.
pub type FileFacts = (Seq<char>, Seq<char>, u64, Option<Seq<char>>, Option<Seq<char>>);

/// The text of an optional string.
pub open spec fn opt_text(o: Option<String>) -> Option<Seq<char>> {
    match o {
        Some(s) => Some(s@),
        None => None,
    }
}

/// The manifest file for the model file whose archive name is `name`, when
/// it has one and the archive holds it.
pub open spec fn manifest_file_for(name: Option<Seq<char>>, entries: Seq<ArchiveFileEntry>, poses: Seq<FilePose>) -> Option<FileFacts> {
    match name {
        None => None,
        Some(n) => match entry_named(entries, n) {
            None => None,
            Some(k) => {
                let fp = pose_named(poses, basename(n), 0);
                Some((
                    n,
                    entries[k].checksum@,
                    entries[k].size_bytes,
                    match fp {
                        Some(j) => opt_text(poses[j].pose),
                        None => None,
                    },
                    match fp {
                        Some(j) => opt_text(poses[j].support_status),
                        None => None,
                    },
                ))
            },
        },
    }
}

/// The manifest files of a model, in the order of its model files.
pub open spec fn manifest_files_spec(names: Seq<Option<Seq<char>>>, entries: Seq<ArchiveFileEntry>, poses: Seq<FilePose>) -> Seq<FileFacts>
    decreases names.len(),
{
    if names.len() == 0 {
        Seq::empty()
    } else {
        let r = manifest_files_spec(names.drop_last(), entries, poses);
        match manifest_file_for(names.last(), entries, poses) {
            Some(f) => r.push(f),
            None => r,
        }
    }
}

/// A manifest file, by its facts.
pub open spec fn file_facts(f: ManifestFile) -> FileFacts {
    (f.name@, f.checksum@, f.size_bytes, opt_text(f.pose), opt_text(f.support_status))
}

/// The optional archive names, by their text.
pub open spec fn opt_texts(v: Seq<Option<String>>) -> Seq<Option<Seq<char>>> {
    v.map_values(|o: Option<String>| opt_text(o))
}

fn clone_opt(o: &Option<String>) -> (r: Option<String>)
    ensures
        opt_text(r) == opt_text(*o),
{
    match o {
        Some(s) => Some(s.clone()),
        None => None,
    }
}

fn entry_named_exec(entries: &Vec<ArchiveFileEntry>, name: &Vec<char>) -> (r: Option<usize>)
    ensures
        r.is_some() == entry_named(entries@, name@).is_some(),
        r matches Some(k) ==> k as int == entry_named(entries@, name@).unwrap() && k < entries.len(),
{
    let mut end = entries.len();
    assert(entries@.take(end as int) =~= entries@);
    while end > 0
        invariant
            end <= entries.len(),
            entry_named(entries@, name@) == entry_named(entries@.take(end as int), name@),
        decreases end,
    {
        let ev = chars_of(entries[end - 1].name.as_str());
        if chars_eq(&ev, name) {
            return Some(end - 1);
        }
        assert(entries@.take(end as int).drop_last() =~= entries@.take(end - 1));
        end -= 1;
    }
    None
}

fn basename_exec(name: &Vec<char>) -> (r: Vec<char>)
    ensures
        r@ == basename(name@),
{
    let mut start = name.len();
    proof {
        assert(name@.subrange(start as int, name.len() as int) =~= Seq::<char>::empty());
        assert(name@.take(start as int) =~= name@);
        assert(basename(name@) + Seq::<char>::empty() =~= basename(name@));
    }
    while start > 0 && name[start - 1] != '/'
        invariant
            start <= name.len(),
            basename(name@) == basename(name@.take(start as int)) + name@.subrange(start as int, name.len() as int),
        decreases start,
    {
        let ghost t = name@.take(start as int);
        assert(t.drop_last() =~= name@.take(start - 1));
        assert(name@.subrange(start - 1, name.len() as int) =~= seq![t.last()] + name@.subrange(start as int, name.len() as int));
        assert(basename(t) == basename(t.drop_last()).push(t.last()));
        assert(basename(t.drop_last()).push(t.last()) + name@.subrange(start as int, name.len() as int)
            =~= basename(t.drop_last()) + name@.subrange(start - 1, name.len() as int));
        start -= 1;
    }
    proof {
        if start > 0 {
            assert(name@.take(start as int).last() == '/');
        }
        assert(basename(name@.take(start as int)) =~= Seq::<char>::empty());
        assert(name@.subrange(start as int, name.len() as int) == basename(name@));
    }
    slice(name, start, name.len())
}

fn pose_named_exec(poses: &Vec<FilePose>, base: &Vec<char>) -> (r: Option<usize>)
    ensures
        r.is_some() == pose_named(poses@, base@, 0).is_some(),
        r matches Some(j) ==> j as int == pose_named(poses@, base@, 0).unwrap() && j < poses.len(),
{
    let mut j: usize = 0;
    while j < poses.len()
        invariant
            0 <= j <= poses.len(),
            pose_named(poses@, base@, 0) == pose_named(poses@, base@, j as int),
        decreases poses.len() - j,
    {
        let pv = chars_of(poses[j].name.as_str());
        if chars_eq(&pv, base) {
            return Some(j);
        }
        j += 1;
    }
    None
}

/// The manifest files of one model: each model file (given by its archive
/// name, `None` when it lies outside the component) that the component's
/// archive holds, with the checksum and size recorded for it and the pose
/// and support status of the first file pose naming its base name.
pub fn manifest_files(names: &Vec<Option<String>>, entries: &Vec<ArchiveFileEntry>, poses: &Vec<FilePose>) -> (r: Vec<ManifestFile>)
    ensures
        r@.map_values(|f: ManifestFile| file_facts(f)) == manifest_files_spec(opt_texts(names@), entries@, poses@),
{
    let mut out: Vec<ManifestFile> = Vec::new();
    let mut i: usize = 0;
    while i < names.len()
        invariant
            0 <= i <= names.len(),
            out@.map_values(|f: ManifestFile| file_facts(f)) == manifest_files_spec(opt_texts(names@).take(i as int), entries@, poses@),
        decreases names.len() - i,
    {
        let ghost pre = out@;
        assert(opt_texts(names@).take(i + 1).drop_last() =~= opt_texts(names@).take(i as int));
        assert(opt_texts(names@).take(i + 1).last() == opt_text(names@[i as int]));
        match &names[i] {
            Some(n) => {
                let nv = chars_of(n.as_str());
                match entry_named_exec(entries, &nv) {
                    Some(k) => {
                        let base = basename_exec(&nv);
                        let fp = pose_named_exec(poses, &base);
                        let (pose, support) = match fp {
                            Some(j) => (clone_opt(&poses[j].pose), clone_opt(&poses[j].support_status)),
                            None => (None, None),
                        };
                        let f = ManifestFile {
                            name: n.clone(),
                            checksum: entries[k].checksum.clone(),
                            size_bytes: entries[k].size_bytes,
                            pose,
                            support_status: support,
                        };
                        out.push(f);
                        assert(out@.map_values(|f: ManifestFile| file_facts(f)) =~= pre.map_values(|f: ManifestFile| file_facts(f)).push(file_facts(f)));
                    },
                    None => {},
                }
            },
            None => {},
        }
        i += 1;
    }
    assert(opt_texts(names@).take(names.len() as int) =~= opt_texts(names@));
    out
}

/// Whether a component's archive elided any duplicate file.
pub fn component_dedup(entries: &Vec<ArchiveFileEntry>) -> (r: bool)
    ensures
        r == exists|k: int| 0 <= k < entries.len() && !(#[trigger] entries@[k]).stored,
{
    let mut k: usize = 0;
    while k < entries.len()
        invariant
            0 <= k <= entries.len(),
            forall|x: int| 0 <= x < k ==> (#[trigger] entries@[x]).stored,
        decreases entries.len() - k,
    {
        if !entries[k].stored {
            return true;
        }
        k += 1;
    }
    false
}

} // verus!

verus! {

/// One model of a manifest component, as the manifest lists it.
#[derive(Debug, Clone)]
pub struct ManifestModel {
    pub id: Option<String>,
    pub name: String,
    pub custom_name: Option<String>,
    pub description: Option<String>,
    pub group: Option<String>,
    pub tags: Vec<String>,
    pub designer: Option<String>,
    pub sculptor: Option<String>,
    pub variant: Option<String>,
    pub pose: Option<String>,
    pub scale: Option<String>,
    pub support_status: Option<String>,
    pub release_date: Option<String>,
    pub release_name: Option<String>,
    pub base_round_mm: Option<u32>,
    pub base_square_mm: Option<u32>,
    pub preview: Option<String>,
    pub files: Vec<ManifestFile>,
}

/// The text of `o`, or `fallback` when it is absent.
pub open spec fn text_or(o: Option<String>, fallback: Seq<char>) -> Seq<char> {
    match o {
        Some(s) => s@,
        None => fallback,
    }
}

/// `o`, or `fallback` when it is absent.
fn or_text(o: &Option<String>, fallback: &str) -> (r: Option<String>)
    ensures
        r matches Some(s) && s@ == text_or(*o, fallback@),
{
    match o {
        Some(s) => Some(s.clone()),
        None => Some(string_of(&chars_of(fallback))),
    }
}

/// The strings of `v`, copied.
fn copy_strings(v: &Vec<String>) -> (r: Vec<String>)
    ensures
        string_views(r@) == string_views(v@),
{
    let mut out: Vec<String> = Vec::new();
    let mut i: usize = 0;
    while i < v.len()
        invariant
            0 <= i <= v.len(),
            string_views(out@) == string_views(v@.take(i as int)),
        decreases v.len() - i,
    {
        let ghost pre = out@;
        let c = string_of(&chars_of(v[i].as_str()));
        out.push(c);
        assert(string_views(out@) =~= string_views(pre).push(c@));
        assert(string_views(v@.take(i + 1)) =~= string_views(v@.take(i as int)).push(v@[i as int]@));
        i += 1;
    }
    assert(v@.take(v.len() as int) =~= v@);
    out
}

/// The manifest entry of one model of a component, from its `model.json`.
/// `archive_names` are the archive names of its model files in order
/// (`None` for one that lies outside the component), and `preview` the
/// archive name of its first image. Designer, release name and release
/// date fall back to the release's own when the model omits them; its
/// files are those [`manifest_files`] finds in the component's archive.
pub fn manifest_model(
    model: &StlModel,
    archive_names: &Vec<Option<String>>,
    preview: Option<String>,
    entries: &Vec<ArchiveFileEntry>,
    release_designer: &str,
    release_name: &str,
    release_date: &str,
) -> (r: ManifestModel)
    ensures
        opt_text(r.id) == opt_text(model.id),
        r.name@ == model.name@,
        r.custom_name is None,
        opt_text(r.description) == opt_text(model.description),
        opt_text(r.group) == opt_text(model.group),
        string_views(r.tags@) == string_views(model.tags@),
        r.designer matches Some(d) && d@ == text_or(model.designer, release_designer@),
        opt_text(r.sculptor) == opt_text(model.sculptor),
        opt_text(r.variant) == opt_text(model.variant),
        opt_text(r.pose) == opt_text(model.pose),
        opt_text(r.scale) == opt_text(model.scale),
        opt_text(r.support_status) == opt_text(model.support_status),
        r.release_date matches Some(d) && d@ == text_or(model.release_date, release_date@),
        r.release_name matches Some(n) && n@ == text_or(model.release_name, release_name@),
        r.base_round_mm == model.base_round_mm,
        r.base_square_mm == model.base_square_mm,
        opt_text(r.preview) == opt_text(preview),
        r.files@.map_values(|f: ManifestFile| file_facts(f)) == manifest_files_spec(
            opt_texts(archive_names@),
            entries@,
            model.file_poses@,
        ),
{
    ManifestModel {
        id: clone_opt(&model.id),
        name: string_of(&chars_of(model.name.as_str())),
        custom_name: None,
        description: clone_opt(&model.description),
        group: clone_opt(&model.group),
        tags: copy_strings(&model.tags),
        designer: or_text(&model.designer, release_designer),
        sculptor: clone_opt(&model.sculptor),
        variant: clone_opt(&model.variant),
        pose: clone_opt(&model.pose),
        scale: clone_opt(&model.scale),
        support_status: clone_opt(&model.support_status),
        release_date: or_text(&model.release_date, release_date),
        release_name: or_text(&model.release_name, release_name),
        base_round_mm: model.base_round_mm,
        base_square_mm: model.base_square_mm,
        preview,
        files: manifest_files(archive_names, entries, &model.file_poses),
    }
}

/// One packed component as the manifest lists it.
#[derive(Debug, Clone)]
pub struct ManifestComponent {
    pub name: String,
    pub archive: String,
    pub checksum: String,
    pub size_bytes: u64,
    pub dedup: bool,
    pub models: Vec<ManifestModel>,
}

/// The manifest entry of a packed component: its archive is named by the
/// archive file's name, or by the component's when the path has none; it
/// is deduplicated when its archive elided any file.
pub fn manifest_component(
    name: &str,
    archive_file_name: Option<String>,
    checksum: String,
    size_bytes: u64,
    entries: &Vec<ArchiveFileEntry>,
    models: Vec<ManifestModel>,
) -> (r: ManifestComponent)
    ensures
        r.name@ == name@,
        r.archive@ == text_or(archive_file_name, name@),
        r.checksum@ == checksum@,
        r.size_bytes == size_bytes,
        r.dedup == exists|k: int| 0 <= k < entries.len() && !(#[trigger] entries@[k]).stored,
        r.models@ == models@,
{
    let archive = match archive_file_name {
        Some(a) => a,
        None => string_of(&chars_of(name)),
    };
    ManifestComponent {
        name: string_of(&chars_of(name)),
        archive,
        checksum,
        size_bytes,
        dedup: component_dedup(entries),
        models,
    }
}

/// The release a manifest describes: name, designer, and canonical date.
#[derive(Debug, Clone)]
pub struct ManifestRelease {
    pub name: String,
    pub designer: String,
    pub date: String,
}

/// The release part of a manifest, with the release's date in canonical
/// form.
pub fn manifest_release(name: &str, designer: &str, date: &str) -> (r: ManifestRelease)
    ensures
        r.name@ == name@,
        r.designer@ == designer@,
        r.date@ == canonical_date_text(date@),
{
    ManifestRelease {
        name: string_of(&chars_of(name)),
        designer: string_of(&chars_of(designer)),
        date: canonical_date(date),
    }
}

} // verus!
