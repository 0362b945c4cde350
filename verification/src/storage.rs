//! Naming and placement rules of the release builder's staging area:
//! image names, which subfolder a staged file belongs in, relative paths,
//! and what goes into which archive.
use vstd::prelude::*;
use crate::error::AppError;
use crate::identity::non_alnum_pred;
use crate::paths::{extension_of, file_name_of, path_extension, path_file_name};
use crate::text::{
    alphanumeric, append_chars, append_str, chars_of, decimal, decimal_exec, eq_lit,
    is_alphanumeric, lower_chars, lowercase, replace_char, replace_char_exec, split_by_flags,
    split_on, string_of, trim, trim_chars, views, lemma_split_on_nonempty,
};

verus! {

/// What `Path::strip_prefix` gives for `p` and `base`: `p` relative to
/// `base` when `base` is one of its ancestors by path component (the
/// component rules are the host's), as text.
pub uninterp spec fn stripped_of(p: Seq<char>, base: Seq<char>) -> Option<Seq<char>>;

/// `Path::strip_prefix` of `p` by `base`, as text.
#[verifier::external_body]
fn path_strip_prefix(p: &str, base: &str) -> (r: Option<String>)
    ensures
        match r {
            Some(s) => stripped_of(p@, base@) == Some(s@),
            None => stripped_of(p@, base@) is None,
        },
{
    std::path::Path::new(p).strip_prefix(base).ok().map(|r| r.to_string_lossy().into_owned())
}

/// The name an image is copied under: `{model}-main.{ext}` for the first,
/// `{model}-detail_{index}.{ext}` for the rest.
pub open spec fn image_name_text(model_name: Seq<char>, ext: Seq<char>, index: nat) -> Seq<char> {
    if index == 0 {
        model_name + "-main."@ + ext
    } else {
        model_name + "-detail_"@ + decimal(index) + "."@ + ext
    }
}

/// Names an image whose extension is `ext` (empty when it has none).
pub fn image_name(model_name: &str, ext: &str, index: usize) -> (r: String)
    ensures
        r@ == image_name_text(model_name@, ext@, index as nat),
{
    let mut v: Vec<char> = Vec::new();
    append_str(&mut v, model_name);
    if index == 0 {
        append_str(&mut v, "-main.");
    } else {
        append_str(&mut v, "-detail_");
        let d = decimal_exec(index as u64);
        append_chars(&mut v, &d);
        append_str(&mut v, ".");
    }
    append_str(&mut v, ext);
    string_of(&v)
}

/// The text of an optional string, empty when there is none.
pub open spec fn or_empty(o: Option<Seq<char>>) -> Seq<char> {
    match o {
        Some(s) => s,
        None => Seq::empty(),
    }
}

/// Names the `index`-th image of a model after the model, keeping the
/// source file's extension.
pub fn rename_image(model_name: &str, original_path: &str, index: usize) -> (r: String)
    ensures
        r@ == image_name_text(model_name@, or_empty(extension_of(original_path@)), index as nat),
{
    let ext = match path_extension(original_path) {
        Some(e) => e,
        None => string_of(&Vec::new()),
    };
    image_name(model_name, ext.as_str(), index)
}

/// The file-name words that mark a presupported STL.
pub open spec fn is_support_word(w: Seq<char>) -> bool {
    w == "sup"@ || w == "supported"@ || w == "presupported"@ || w == "ps"@
}

/// The subfolder of the model folder a staged file goes into: chitubox
/// files into `chitubox`, lychee files into `lychee`, and an STL whose name
/// carries a support word (split at every non-alphanumeric character) into
/// `supported`; everything else stays in the model folder itself.
pub open spec fn subfolder_for(ext: Seq<char>, file_name: Seq<char>) -> Option<&'static str> {
    let e = lowercase(ext);
    if e == "chitubox"@ {
        Some("chitubox")
    } else if e == "lys"@ {
        Some("lychee")
    } else if e == "stl"@ {
        let words = split_on(lowercase(file_name), non_alnum_pred());
        if exists|i: int| 0 <= i < words.len() && is_support_word(#[trigger] words[i]) {
            Some("supported")
        } else {
            None
        }
    } else {
        None
    }
}

/// The subfolder for a file with extension `ext` and name `file_name`.
#[verifier::loop_isolation(false)]
pub fn subfolder_for_file(ext: &str, file_name: &str) -> (r: Option<&'static str>)
    ensures
        r == subfolder_for(ext@, file_name@),
{
    let ev = chars_of(ext);
    let e = lower_chars(&ev);
    if eq_lit(&e, "chitubox") {
        return Some("chitubox");
    }
    if eq_lit(&e, "lys") {
        return Some("lychee");
    }
    if !eq_lit(&e, "stl") {
        return None;
    }
    let nv = chars_of(file_name);
    let lower = lower_chars(&nv);
    let mut flags: Vec<bool> = Vec::new();
    let mut i: usize = 0;
    while i < lower.len()
        invariant
            0 <= i <= lower.len(),
            flags.len() == i,
            forall|k: int| 0 <= k < i ==> flags@[k] == non_alnum_pred()(lower@[k]),
        decreases lower.len() - i,
    {
        flags.push(!is_alphanumeric(lower[i]));
        i += 1;
    }
    let words = split_by_flags(&lower, &flags, Ghost(non_alnum_pred()));
    let ghost wv = views(words@);
    let mut j: usize = 0;
    while j < words.len()
        invariant
            0 <= j <= words.len(),
            wv == views(words@),
            forall|k: int| 0 <= k < j ==> !is_support_word(#[trigger] wv[k]),
        decreases words.len() - j,
    {
        let w = &words[j];
        assert(wv[j as int] == w@);
        if eq_lit(w, "sup") || eq_lit(w, "supported") || eq_lit(w, "presupported") || eq_lit(
            w,
            "ps",
        ) {
            assert(is_support_word(wv[j as int]));
            return Some("supported");
        }
        j += 1;
    }
    None
}

/// The subfolder of the model folder the staged file `file_path` belongs
/// in (`None`: the model folder itself).
pub fn destination_subfolder(file_path: &str) -> (r: Option<&'static str>)
    ensures
        r == subfolder_for(or_empty(extension_of(file_path@)), or_empty(file_name_of(file_path@))),
{
    let ext = match path_extension(file_path) {
        Some(e) => e,
        None => string_of(&Vec::new()),
    };
    let name = match path_file_name(file_path) {
        Some(n) => n,
        None => string_of(&Vec::new()),
    };
    subfolder_for_file(ext.as_str(), name.as_str())
}

/// The refusal for a path outside the staging directory.
pub open spec fn not_within_text(absolute: Seq<char>, base: Seq<char>) -> Seq<char> {
    "Path '"@ + absolute + "' is not within base directory '"@ + base + "'"@
}

/// `absolute` made relative to `base`, given the component-wise strip of
/// `base` off `absolute` (`None` when `base` is not one of its ancestors).
pub fn relative_or_error(absolute: &str, base: &str, stripped: Option<String>) -> (r: Result<
    String,
    AppError,
>)
    ensures
        stripped matches Some(rel) ==> (r matches Ok(s) && s@ == rel@),
        stripped is None ==> (r matches Err(AppError::InvalidInput(m)) && m@ == not_within_text(
            absolute@,
            base@,
        )),
{
    match stripped {
        Some(rel) => Ok(rel),
        None => {
            let mut v: Vec<char> = Vec::new();
            append_str(&mut v, "Path '");
            append_str(&mut v, absolute);
            append_str(&mut v, "' is not within base directory '");
            append_str(&mut v, base);
            append_str(&mut v, "'");
            assert(v@ =~= not_within_text(absolute@, base@));
            Err(AppError::InvalidInput(string_of(&v)))
        },
    }
}

/// `absolute` relative to `base`, component-aware: a sibling such as
/// `/x/ScratchOld` is not inside `/x/Scratch`.
pub fn convert_to_relative_path(absolute_path: &str, base_dir: &str) -> (r: Result<
    String,
    AppError,
>)
    ensures
        stripped_of(absolute_path@, base_dir@) matches Some(rel) ==> (r matches Ok(s) && s@ == rel),
        stripped_of(absolute_path@, base_dir@) is None ==> (r matches Err(AppError::InvalidInput(m)) && m@
            == not_within_text(absolute_path@, base_dir@)),
{
    let stripped = path_strip_prefix(absolute_path, base_dir);
    relative_or_error(absolute_path, base_dir, stripped)
}

/// The error a failed conversion of one path in a batch is reported with.
pub open spec fn batch_conversion_text(inner: Seq<char>) -> Seq<char> {
    "Failed to convert path to relative: "@ + inner
}

/// Every path of `paths` made relative to `base_dir`, or the first failure.
pub fn convert_to_relative_paths(paths: &[String], base_dir: &str) -> (r: Result<
    Vec<String>,
    AppError,
>)
    ensures
        (forall|i: int| 0 <= i < paths.len() ==> #[trigger] stripped_of(paths@[i]@, base_dir@) is Some) ==> (r matches Ok(v)
            && v.len() == paths.len() && forall|i: int| 0 <= i < paths.len() ==> Some((#[trigger] v@[i])@) == stripped_of(paths@[i]@, base_dir@)),
        (exists|i: int| 0 <= i < paths.len() && #[trigger] stripped_of(paths@[i]@, base_dir@) is None) ==> r is Err,
        r matches Err(e) ==> exists|i: int| {
            &&& 0 <= i < paths.len()
            &&& #[trigger] stripped_of(paths@[i]@, base_dir@) is None
            &&& forall|j: int| 0 <= j < i ==> #[trigger] stripped_of(paths@[j]@, base_dir@) is Some
            &&& e matches AppError::IoError(m) && m@ == batch_conversion_text(not_within_text(paths@[i]@, base_dir@))
        },
{
    let mut out: Vec<String> = Vec::new();
    let mut i: usize = 0;
    while i < paths.len()
        invariant
            0 <= i <= paths.len(),
            out.len() == i,
            forall|j: int| 0 <= j < i ==> #[trigger] stripped_of(paths@[j]@, base_dir@) is Some,
            forall|j: int| 0 <= j < i ==> Some((#[trigger] out@[j])@) == stripped_of(paths@[j]@, base_dir@),
        decreases paths.len() - i,
    {
        match convert_to_relative_path(paths[i].as_str(), base_dir) {
            Ok(rel) => out.push(rel),
            Err(e) => {
                let inner = e.message();
                let mut v: Vec<char> = Vec::new();
                append_str(&mut v, "Failed to convert path to relative: ");
                append_str(&mut v, inner.as_str());
                assert(v@ =~= batch_conversion_text(not_within_text(paths@[i as int]@, base_dir@)));
                return Err(AppError::IoError(string_of(&v)));
            },
        }
        i += 1;
    }
    Ok(out)
}

/// A model or image name as staged: trimmed, lowercased, spaces as
/// underscores.
pub open spec fn clean_name_text(name: Seq<char>) -> Seq<char> {
    replace_char(lowercase(trim(name)), ' ', '_')
}

/// Cleans a name for use in staged file names.
pub fn clean_name(name: &str) -> (r: String)
    ensures
        r@ == clean_name_text(name@),
{
    let v = chars_of(name);
    let t = trim_chars(&v);
    let l = lower_chars(&t);
    let u = replace_char_exec(&l, ' ', '_');
    string_of(&u)
}

/// Whether a file at the top of a release directory also travels in the
/// `.3pk` archive: the JSON metadata and PNG renders do.
pub open spec fn goes_into_3pk(file_name: Seq<char>) -> bool {
    ||| file_name.len() >= 5 && file_name.skip(file_name.len() - 5) == ".json"@
    ||| file_name.len() >= 4 && file_name.skip(file_name.len() - 4) == ".png"@
}

/// Executable [`goes_into_3pk`].
pub fn belongs_in_3pk(file_name: &str) -> (r: bool)
    ensures
        r == goes_into_3pk(file_name@),
{
    let v = chars_of(file_name);
    let json = chars_of(".json");
    let png = chars_of(".png");
    proof {
        reveal_strlit(".json");
        reveal_strlit(".png");
    }
    let a = v.len() >= 5 && {
        let tail = crate::text::slice(&v, v.len() - 5, v.len());
        crate::text::chars_eq(&tail, &json)
    };
    let b = v.len() >= 4 && {
        let tail = crate::text::slice(&v, v.len() - 4, v.len());
        crate::text::chars_eq(&tail, &png)
    };
    a || b
}

/// Sums the (size in KiB, file count) of the three groups a release packs:
/// the group/model directories, the `.3pk` files and the `.zip` files.
pub fn calculate_total_size(
    group_and_model: (u32, u32),
    files_for_3pk: (u32, u32),
    files_for_zip: (u32, u32),
) -> (r: (u32, u32))
    requires
        group_and_model.0 + files_for_3pk.0 + files_for_zip.0 <= u32::MAX,
        group_and_model.1 + files_for_3pk.1 + files_for_zip.1 <= u32::MAX,
    ensures
        r.0 == group_and_model.0 + files_for_3pk.0 + files_for_zip.0,
        r.1 == group_and_model.1 + files_for_3pk.1 + files_for_zip.1,
{
    let total_size = group_and_model.0 + files_for_3pk.0 + files_for_zip.0;
    let total_files = group_and_model.1 + files_for_3pk.1 + files_for_zip.1;
    (total_size, total_files)
}

/// The extension release archives get: the packer always writes ZIP data,
/// whatever compression the settings prefer.
pub fn get_extension_for_compression_type() -> (r: String)
    ensures
        r@ == "zip"@,
{
    string_from_lit("zip")
}

fn string_from_lit(s: &str) -> (r: String)
    ensures
        r@ == s@,
{
    crate::text::string_from_str(s)
}

/// One file an archive accounts for; `stored` is false when its bytes were
/// elided as a duplicate of an earlier entry with the same checksum.
#[derive(Debug, Clone)]
pub struct ArchiveFileEntry {
    /// Path inside the archive.
    pub name: String,
    /// `blake3:<hex>` of the file's content.
    pub checksum: String,
    pub size_bytes: u64,
    pub stored: bool,
}

/// What importing a packed release did.
#[derive(Debug, Clone)]
pub struct ImportOutcome {
    pub release_name: String,
    pub designer: String,
    /// The directory the release landed in.
    pub dest_dir: String,
    pub components: u32,
    pub files: u32,
    /// Per-component problems; the rest of the release still imports.
    pub errors: Vec<String>,
}

/// One packed component: its name, the finished archive, and the per-file
/// accounting the packer returned for it.
#[derive(Debug, Clone)]
pub struct PackedComponent {
    pub name: String,
    pub archive_path: String,
    pub entries: Vec<ArchiveFileEntry>,
}


/// How many of the first `k` sizes equal `size`.
pub open spec fn size_count(sizes: Seq<u64>, size: u64, k: int) -> nat
    decreases k,
{
    if k <= 0 || k > sizes.len() {
        0
    } else {
        size_count(sizes, size, k - 1) + if sizes[k - 1] == size { 1nat } else { 0nat }
    }
}

/// For each file (by size), whether another file shares its size: only
/// those can be duplicates, so only those are hashed before being written.
pub fn repeated_sizes(sizes: &Vec<u64>) -> (r: Vec<bool>)
    ensures
        r.len() == sizes.len(),
        forall|i: int| 0 <= i < sizes.len() ==> r@[i] == (size_count(sizes@, sizes@[i], sizes.len() as int) > 1),
{
    let mut out: Vec<bool> = Vec::new();
    let mut i: usize = 0;
    while i < sizes.len()
        invariant
            0 <= i <= sizes.len(),
            out.len() == i,
            forall|x: int| 0 <= x < i ==> out@[x] == (size_count(sizes@, sizes@[x], sizes.len() as int) > 1),
        decreases sizes.len() - i,
    {
        let mut n: usize = 0;
        let mut k: usize = 0;
        while k < sizes.len()
            invariant
                0 <= k <= sizes.len(),
                i < sizes.len(),
                n == size_count(sizes@, sizes@[i as int], k as int),
                n <= k,
            decreases sizes.len() - k,
        {
            if sizes[k] == sizes[i] {
                n += 1;
            }
            k += 1;
        }
        out.push(n > 1);
        i += 1;
    }
    out
}

/// The checksums already stored in an archive being written; later files
/// with one of them are listed but not stored again.
#[derive(Debug)]
pub struct ArchiveDedup {
    seen: Vec<String>,
}

impl View for ArchiveDedup {
    type V = Seq<Seq<char>>;

    closed spec fn view(&self) -> Seq<Seq<char>> {
        self.seen@.map_values(|s: String| s@)
    }
}

impl ArchiveDedup {
    /// Nothing stored yet.
    pub fn new() -> (r: ArchiveDedup)
        ensures
            r@ == Seq::<Seq<char>>::empty(),
    {
        let r = ArchiveDedup { seen: Vec::new() };
        assert(r@ =~= Seq::<Seq<char>>::empty());
        r
    }

    /// Whether content with `checksum` still has to be stored (it was not
    /// stored before); it counts as stored afterwards either way.
    pub fn first_copy(&mut self, checksum: &str) -> (store: bool)
        ensures
            store == !old(self)@.contains(checksum@),
            store ==> final(self)@ == old(self)@.push(checksum@),
            !store ==> final(self)@ == old(self)@,
    {
        let cv = chars_of(checksum);
        let ghost v = self@;
        assert(v.len() == self.seen@.len());
        let mut k: usize = 0;
        while k < self.seen.len()
            invariant
                0 <= k <= self.seen.len(),
                v == self@,
                cv@ == checksum@,
                v.len() == self.seen@.len(),
                forall|x: int| 0 <= x < self.seen@.len() ==> #[trigger] v[x] == self.seen@[x]@,
                forall|x: int| 0 <= x < k ==> v[x] != checksum@,
            decreases self.seen.len() - k,
        {
            let sv = chars_of(self.seen[k].as_str());
            assert(sv@ == self.seen@[k as int]@);
            assert(v[k as int] == self.seen@[k as int]@);
            if crate::text::chars_eq(&sv, &cv) {
                assert(v[k as int] == checksum@);
                return false;
            }
            k += 1;
        }
        let ghost pre = self@;
        let s = string_of(&cv);
        self.seen.push(s);
        assert(self@ =~= pre.push(checksum@));
        true
    }
}

/// The counters of a compression run.
#[derive(Debug, Clone, Copy, PartialEq, Eq, Structural)]
pub struct CompressionProgress {
    pub total_files: u32,
    pub total_size_kb: u32,
    pub processed_files: u32,
    pub processed_size_kb: u32,
}

impl CompressionProgress {
    /// A run over `total_files` files of `total_size_kb` KiB in all.
    pub fn new(total_files: u32, total_size_kb: u32) -> (r: CompressionProgress)
        ensures
            r == (CompressionProgress { total_files, total_size_kb, processed_files: 0, processed_size_kb: 0 }),
    {
        CompressionProgress { total_files, total_size_kb, processed_files: 0, processed_size_kb: 0 }
    }

    /// Counts one more file of `file_size_kb` KiB unless the run was
    /// cancelled; gives the (size, files) percentages to report.
    pub fn advance(&mut self, file_size_kb: u32, cancelled: bool) -> (r: Option<(u32, u32)>)
        requires
            !cancelled ==> old(self).total_size_kb > 0 && old(self).total_files > 0,
            !cancelled ==> (old(self).processed_size_kb + file_size_kb) * 100 <= u32::MAX,
            !cancelled ==> (old(self).processed_files + 1) * 100 <= u32::MAX,
        ensures
            cancelled ==> r is None && *final(self) == *old(self),
            !cancelled ==> {
                &&& final(self).processed_size_kb == old(self).processed_size_kb + file_size_kb
                &&& final(self).processed_files == old(self).processed_files + 1
                &&& final(self).total_files == old(self).total_files
                &&& final(self).total_size_kb == old(self).total_size_kb
                &&& r == Some((
                    ((final(self).processed_size_kb * 100) / (final(self).total_size_kb as int)) as u32,
                    ((final(self).processed_files * 100) / (final(self).total_files as int)) as u32,
                ))
            },
    {
        if cancelled {
            return None;
        }
        self.processed_size_kb = self.processed_size_kb + file_size_kb;
        self.processed_files = self.processed_files + 1;
        let percent_size = (self.processed_size_kb * 100) / self.total_size_kb;
        let percent_files = (self.processed_files * 100) / self.total_files;
        Some((percent_size, percent_files))
    }
}

} // verus!

verus! {

/// The lowercase hexadecimal BLAKE3 hash of `data`, as `blake3::hash`
/// computes it.
pub uninterp spec fn blake3_hex(data: Seq<u8>) -> Seq<char>;

/// `blake3::hash(data)` as lowercase hexadecimal text.
#[verifier::external_body]
pub(crate) fn blake3_hex_of(data: &[u8]) -> (r: String)
    ensures
        r@ == blake3_hex(data@),
{
    blake3::hash(data).to_hex().to_string()
}

/// The checksum text the archive format records for content `data`:
/// `blake3:` and the hash.
pub open spec fn checksum_text(data: Seq<u8>) -> Seq<char> {
    "blake3:"@ + blake3_hex(data)
}

/// The BLAKE3 hash of `data`, in hexadecimal.
pub fn content_hash(data: &[u8]) -> (r: String)
    ensures
        r@ == blake3_hex(data@),
{
    blake3_hex_of(data)
}

/// The BLAKE3 hash of the first `limit` bytes of `data` (all of it when it
/// is shorter), in hexadecimal: the cheap first look the duplicate scan
/// takes before hashing whole files.
pub fn prefix_hash(data: &[u8], limit: usize) -> (r: String)
    ensures
        r@ == blake3_hex(data@.take(if limit < data@.len() { limit as int } else { data@.len() as int })),
{
    let n = if limit < data.len() { limit } else { data.len() };
    let mut v: Vec<u8> = Vec::new();
    let mut i: usize = 0;
    while i < n
        invariant
            0 <= i <= n <= data.len(),
            v@ == data@.take(i as int),
        decreases n - i,
    {
        v.push(data[i]);
        assert(v@ =~= data@.take(i + 1));
        i += 1;
    }
    blake3_hex_of(v.as_slice())
}

/// The checksum the archive format records for content `data`.
pub fn content_checksum(data: &[u8]) -> (r: String)
    ensures
        r@ == checksum_text(data@),
{
    let mut v = chars_of("blake3:");
    let h = blake3_hex_of(data);
    append_str(&mut v, h.as_str());
    string_of(&v)
}

/// The archive's record of a file named `name` with content `data`: its
/// checksum and size, and whether its bytes are stored — only the first
/// copy of any content is.
pub fn archive_entry(dedup: &mut ArchiveDedup, name: String, data: &[u8]) -> (r: ArchiveFileEntry)
    ensures
        r.name@ == name@,
        r.checksum@ == checksum_text(data@),
        r.size_bytes == data@.len(),
        r.stored == !old(dedup)@.contains(checksum_text(data@)),
        r.stored ==> final(dedup)@ == old(dedup)@.push(checksum_text(data@)),
        !r.stored ==> final(dedup)@ == old(dedup)@,
{
    let checksum = content_checksum(data);
    let stored = dedup.first_copy(checksum.as_str());
    ArchiveFileEntry { name, checksum, size_bytes: data.len() as u64, stored }
}

/// Whether an imported component's archive, whose content is `data`
/// (`None` when it is missing), may be extracted: its checksum must be the
/// manifest's `expected`, as [`component_check`] judges it.
pub fn verify_component(component: &str, archive: &str, data: Option<&[u8]>, expected: &str) -> (r: Result<(), String>)
    ensures
        data is None ==> (r matches Err(m) && m@ == component@ + ": archive '"@ + archive@ + "' is missing"@),
        data matches Some(d) && checksum_text(d@) != expected@ ==> (r matches Err(m)
            && m@ == component@ + ": checksum mismatch — the archive is corrupted or was modified"@),
        data matches Some(d) && checksum_text(d@) == expected@ ==> r is Ok,
{
    match data {
        None => crate::release::component_check(component, archive, false, "", expected),
        Some(d) => {
            let actual = content_checksum(d);
            crate::release::component_check(component, archive, true, actual.as_str(), expected)
        },
    }
}

} // verus!

verus! {

/// The file-name words that mark a presupported STL, as listed.
pub open spec fn support_word_listed(w: Seq<char>) -> bool {
    w == "sup"@ || w == "supported"@ || w == "presupported"@ || w == "ps"@
}

/// An STL whose lowercased name, split at every non-alphanumeric
/// character, holds one of the words `sup`, `supported`, `presupported`
/// or `ps` is staged into `supported`, and a file is staged into
/// `supported` only when it is such an STL.
pub proof fn support_words_stage_into_supported(ext: Seq<char>, file_name: Seq<char>)
    ensures
        lowercase(ext) == "stl"@ && (exists|i: int|
            0 <= i < split_on(lowercase(file_name), non_alnum_pred()).len() && support_word_listed(
                #[trigger] split_on(lowercase(file_name), non_alnum_pred())[i],
            )) ==> subfolder_for(ext, file_name) == Some("supported"),
        subfolder_for(ext, file_name) == Some("supported") ==> lowercase(ext) == "stl"@ && exists|i: int|
            0 <= i < split_on(lowercase(file_name), non_alnum_pred()).len() && support_word_listed(
                #[trigger] split_on(lowercase(file_name), non_alnum_pred())[i],
            ),
{
    let e = lowercase(ext);
    let words = split_on(lowercase(file_name), non_alnum_pred());
    reveal_strlit("stl");
    reveal_strlit("lys");
    reveal_strlit("chitubox");
    assert("stl"@.len() == 3 && "lys"@.len() == 3 && "chitubox"@.len() == 8);
    assert("stl"@[0] != "lys"@[0]);
    if e == "stl"@ {
        if exists|i: int| 0 <= i < words.len() && support_word_listed(#[trigger] words[i]) {
            let i = choose|i: int| 0 <= i < words.len() && support_word_listed(#[trigger] words[i]);
            assert(is_support_word(words[i]));
        }
        if exists|i: int| 0 <= i < words.len() && is_support_word(#[trigger] words[i]) {
            let i = choose|i: int| 0 <= i < words.len() && is_support_word(#[trigger] words[i]);
            assert(support_word_listed(words[i]));
        }
    }
    reveal_strlit("supported");
    reveal_strlit("chitubox");
    reveal_strlit("lychee");
    assert("supported"@.len() == 9);
    assert("chitubox"@.len() == 8);
    assert("lychee"@.len() == 6);
}


/// Where a staged file goes, by its extension (any case): `.chitubox`
/// files into `chitubox`, `.lys` files into `lychee`, an STL into
/// `supported` exactly when a word of its lowercased name (split at every
/// non-alphanumeric character) is `sup`, `supported`, `presupported` or
/// `ps`; anything else stays in the model folder.
pub proof fn staged_subfolder_by_extension(ext: Seq<char>, file_name: Seq<char>)
    ensures
        lowercase(ext) == "chitubox"@ ==> subfolder_for(ext, file_name) == Some("chitubox"),
        lowercase(ext) == "lys"@ ==> subfolder_for(ext, file_name) == Some("lychee"),
        lowercase(ext) == "stl"@ && !(exists|i: int|
            0 <= i < split_on(lowercase(file_name), non_alnum_pred()).len() && support_word_listed(
                #[trigger] split_on(lowercase(file_name), non_alnum_pred())[i],
            )) ==> subfolder_for(ext, file_name) is None,
        lowercase(ext) != "chitubox"@ && lowercase(ext) != "lys"@ && lowercase(ext) != "stl"@ ==> subfolder_for(
            ext,
            file_name,
        ) is None,
{
    let words = split_on(lowercase(file_name), non_alnum_pred());
    reveal_strlit("stl");
    reveal_strlit("lys");
    reveal_strlit("chitubox");
    assert("stl"@.len() == 3 && "lys"@.len() == 3 && "chitubox"@.len() == 8);
    assert("stl"@[0] != "lys"@[0]);
    if exists|i: int| 0 <= i < words.len() && is_support_word(#[trigger] words[i]) {
        let i = choose|i: int| 0 <= i < words.len() && is_support_word(#[trigger] words[i]);
        assert(support_word_listed(words[i]));
    }
}

} // verus!
