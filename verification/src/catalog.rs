//! The catalog's rows and the text of the queries that read them: the
//! scanner's file and model rows, the user-facing records, the full-text
//! search query, and the key that names one pose of a folder.
use vstd::prelude::*;
use crate::text::{
    alphanumeric, append_chars, append_str, chars_of, drop_empty, is_alphanumeric, join,
    join_words, keep_chars, split_by_flags, split_on, split_whitespace, string_of, views,
    ws_words, eq_lit, lemma_split_on_nonempty,
};

verus! {

/// Extensions treated as printable model files during scans.
pub open spec fn is_model_extension(ext: Seq<char>) -> bool {
    ||| ext == "stl"@
    ||| ext == "obj"@
    ||| ext == "3mf"@
    ||| ext == "lys"@
    ||| ext == "chitu"@
    ||| ext == "chitubox"@
    ||| ext == "blend"@
    ||| ext == "gcode"@
}

/// Extensions usable as a model preview image.
pub open spec fn is_image_extension(ext: Seq<char>) -> bool {
    ||| ext == "jpg"@
    ||| ext == "jpeg"@
    ||| ext == "png"@
    ||| ext == "webp"@
    ||| ext == "gif"@
}

/// Whether a (lowercased) extension names a model file.
pub fn model_extension(ext: &str) -> (b: bool)
    ensures
        b == is_model_extension(ext@),
{
    let e = chars_of(ext);
    eq_lit(&e, "stl") || eq_lit(&e, "obj") || eq_lit(&e, "3mf") || eq_lit(&e, "lys") || eq_lit(
        &e,
        "chitu",
    ) || eq_lit(&e, "chitubox") || eq_lit(&e, "blend") || eq_lit(&e, "gcode")
}

/// Whether a (lowercased) extension names a preview image.
pub fn image_extension(ext: &str) -> (b: bool)
    ensures
        b == is_image_extension(ext@),
{
    let e = chars_of(ext);
    eq_lit(&e, "jpg") || eq_lit(&e, "jpeg") || eq_lit(&e, "png") || eq_lit(&e, "webp")
        || eq_lit(&e, "gif")
}

/// One indexed model file.
#[derive(Debug, Clone)]
pub struct FileRow {
    pub path: String,
    pub dir_path: String,
    pub file_name: String,
    pub extension: String,
    pub size_bytes: i64,
    pub modified_at: i64,
}

/// One model: a directory that directly holds model files.
#[derive(Debug, Clone)]
pub struct ModelRow {
    pub dir_path: String,
    pub name: String,
    pub description: Option<String>,
    pub designer: Option<String>,
    pub release_name: Option<String>,
    pub preview_path: Option<String>,
    pub source: String,
    pub uuid: Option<String>,
    pub file_count: u32,
    pub total_size_bytes: i64,
    pub variant: Option<String>,
    pub pose: Option<String>,
    pub scale: Option<String>,
    pub support_status: Option<String>,
    pub release_date: Option<String>,
    pub sculptor: Option<String>,
    /// The logical model this row is a variant of; rows sharing it collapse
    /// into one catalog group.
    pub group_name: Option<String>,
}

/// A per-file pose/variant assignment imported from a `model.json`.
#[derive(Debug, Clone)]
pub struct FileVariantRow {
    pub path: String,
    pub variant: Option<String>,
    pub pose: Option<String>,
    pub support_status: Option<String>,
}

/// The user-editable metadata for one model, saved together.
#[derive(Debug, Clone)]
pub struct ModelMetaUpdate {
    pub custom_name: Option<String>,
    pub variant: Option<String>,
    pub pose: Option<String>,
    pub scale: Option<String>,
    pub support_status: Option<String>,
    pub release_date: Option<String>,
    pub designer: Option<String>,
    pub sculptor: Option<String>,
    pub release_name: Option<String>,
}

/// A user's per-file pose assignment.
#[derive(Debug, Clone)]
pub struct FileVariant {
    pub path: String,
    pub dir_path: String,
    pub variant: Option<String>,
    pub pose: Option<String>,
    pub support_status: Option<String>,
}

/// A tag and how many models carry it.
#[derive(Debug, Clone)]
pub struct TagCount {
    pub tag: String,
    pub count: u32,
}

/// One requested directory move.
#[derive(Debug, Clone)]
pub struct MoveOperation {
    pub from: String,
    pub to: String,
}

/// Outcome of a batch that may partially succeed.
#[derive(Debug, Clone)]
pub struct BatchOutcome {
    pub succeeded: u32,
    pub errors: Vec<String>,
}

/// The SQL expression `expr` with apostrophes (straight and curly) and
/// hyphens removed, the normalization search text is indexed under.
pub open spec fn fts_norm_text(expr: Seq<char>) -> Seq<char> {
    "REPLACE(REPLACE(REPLACE(REPLACE("@ + expr + ", '''', ''), '-', ''), char(8217), ''), char(8216), '')"@
}

/// Wraps `expr` in the search normalization.
pub fn fts_norm(expr: &str) -> (r: String)
    ensures
        r@ == fts_norm_text(expr@),
{
    let mut v: Vec<char> = Vec::new();
    append_str(&mut v, "REPLACE(REPLACE(REPLACE(REPLACE(");
    append_str(&mut v, expr);
    append_str(&mut v, ", '''', ''), '-', ''), char(8217), ''), char(8216), '')");
    assert(v@ =~= fts_norm_text(expr@));
    string_of(&v)
}

/// The name expression the search index stores.
pub open spec fn fts_name_expr() -> Seq<char> {
    "COALESCE(u.custom_name, m.name)"@
}

/// The free-text expression the search index stores: tags, group display
/// name, designer, sculptor, release and variant.
pub open spec fn fts_tags_expr() -> Seq<char> {
    "COALESCE((SELECT group_concat(t.tag, ' ') FROM model_tags t\n                       WHERE t.dir_path = m.dir_path), '')\n                 || ' ' || COALESCE(r.display_name, '')\n                 || ' ' || COALESCE(u.designer, m.designer, '')\n                 || ' ' || COALESCE(u.sculptor, m.sculptor, '')\n                 || ' ' || COALESCE(u.release_name, m.release_name, '')\n                 || ' ' || COALESCE(u.variant, m.variant, '')"@
}

/// The INSERT that (re)builds the search rows of the catalog.
pub open spec fn fts_insert_text() -> Seq<char> {
    "INSERT INTO models_fts (name, description, tags, dir_path)\n         SELECT "@ + fts_norm_text(
        fts_name_expr(),
    ) + ", COALESCE(m.description, ''), "@ + fts_norm_text(fts_tags_expr())
        + ", m.dir_path\n         FROM models m\n         LEFT JOIN model_user_meta u ON u.dir_path = m.dir_path\n         LEFT JOIN group_renames r ON r.source_group = COALESCE(m.group_name, m.name)"@
}

/// The INSERT that (re)builds the search rows; designer and sculptor ride
/// in the free-text column so both are searchable.
pub fn fts_insert_select() -> (r: String)
    ensures
        r@ == fts_insert_text(),
{
    let name = fts_norm("COALESCE(u.custom_name, m.name)");
    let tags = fts_norm(
        "COALESCE((SELECT group_concat(t.tag, ' ') FROM model_tags t\n                       WHERE t.dir_path = m.dir_path), '')\n                 || ' ' || COALESCE(r.display_name, '')\n                 || ' ' || COALESCE(u.designer, m.designer, '')\n                 || ' ' || COALESCE(u.sculptor, m.sculptor, '')\n                 || ' ' || COALESCE(u.release_name, m.release_name, '')\n                 || ' ' || COALESCE(u.variant, m.variant, '')",
    );
    let mut v: Vec<char> = Vec::new();
    append_str(&mut v, "INSERT INTO models_fts (name, description, tags, dir_path)\n         SELECT ");
    append_str(&mut v, name.as_str());
    append_str(&mut v, ", COALESCE(m.description, ''), ");
    append_str(&mut v, tags.as_str());
    append_str(
        &mut v,
        ", m.dir_path\n         FROM models m\n         LEFT JOIN model_user_meta u ON u.dir_path = m.dir_path\n         LEFT JOIN group_renames r ON r.source_group = COALESCE(m.group_name, m.name)",
    );
    assert(v@ =~= fts_insert_text());
    string_of(&v)
}

/// The character predicate of [`alphanumeric`].
pub open spec fn alnum_pred() -> spec_fn(char) -> bool {
    |c: char| alphanumeric(c)
}

/// The search words of a query: its whitespace-separated words with
/// everything but alphanumerics stripped, keeping only those of three or
/// more characters (the trigram index cannot match shorter ones).
pub open spec fn query_words(ws: Seq<Seq<char>>) -> Seq<Seq<char>>
    decreases ws.len(),
{
    if ws.len() == 0 {
        Seq::empty()
    } else {
        let r = query_words(ws.drop_last());
        let w = keep_chars(ws.last(), alnum_pred());
        if w.len() >= 3 {
            r.push("\""@ + w + "\""@)
        } else {
            r
        }
    }
}

/// A trigram search query: each usable word a quoted substring match, the
/// matches ANDed; empty when no word is long enough.
pub open spec fn fts_query_text(text: Seq<char>) -> Seq<char> {
    join(query_words(ws_words(text)), " AND "@)
}

fn keep_alnum(w: &Vec<char>) -> (r: Vec<char>)
    ensures
        r@ == keep_chars(w@, alnum_pred()),
{
    let mut out: Vec<char> = Vec::new();
    let mut i: usize = 0;
    while i < w.len()
        invariant
            0 <= i <= w.len(),
            out@ == keep_chars(w@.take(i as int), alnum_pred()),
        decreases w.len() - i,
    {
        assert(w@.take(i + 1).drop_last() =~= w@.take(i as int));
        if is_alphanumeric(w[i]) {
            out.push(w[i]);
        }
        i += 1;
    }
    assert(w@.take(w.len() as int) =~= w@);
    out
}

/// Builds the trigram search query for `text`.
pub fn fts_query(text: &str) -> (r: String)
    ensures
        r@ == fts_query_text(text@),
{
    let v = chars_of(text);
    let words = split_whitespace(&v);
    let mut quoted: Vec<Vec<char>> = Vec::new();
    let mut i: usize = 0;
    while i < words.len()
        invariant
            0 <= i <= words.len(),
            views(quoted@) == query_words(views(words@).take(i as int)),
        decreases words.len() - i,
    {
        proof {
            assert(views(words@).take(i + 1).drop_last() =~= views(words@).take(i as int));
        }
        let w = keep_alnum(&words[i]);
        if w.len() >= 3 {
            let mut q: Vec<char> = Vec::new();
            q.push('"');
            append_chars(&mut q, &w);
            q.push('"');
            proof {
                reveal_strlit("\"");
                assert(q@ =~= "\""@ + w@ + "\""@);
            }
            quoted.push(q);
        }
        proof {
            assert(views(quoted@) =~= query_words(views(words@).take(i + 1)));
        }
        i += 1;
    }
    proof {
        assert(views(words@).take(words.len() as int) =~= views(words@));
    }
    let sep = chars_of(" AND ");
    let joined = join_words(&quoted, &sep);
    string_of(&joined)
}

/// The catalog-entry SELECT, with user overrides winning over scanned
/// values, then `where_sql` and `tail_sql`.
pub open spec fn entry_select_text(where_sql: Seq<char>, tail_sql: Seq<char>) -> Seq<char> {
    "SELECT m.dir_path, COALESCE(u.custom_name, m.name), m.description,\n                COALESCE(u.designer, m.designer),\n                COALESCE(u.release_name, m.release_name),\n                COALESCE(u.preview_path, m.preview_path),\n                m.file_count, m.total_size_bytes,\n                COALESCE((SELECT group_concat(t.tag, char(31)) FROM model_tags t\n                          WHERE t.dir_path = m.dir_path), ''),\n                COALESCE(u.pose, m.pose), COALESCE(u.scale, m.scale),\n                COALESCE(u.support_status, m.support_status),\n                COALESCE(u.release_date, m.release_date),\n                u.custom_name, COALESCE(u.sculptor, m.sculptor),\n                COALESCE(u.variant, m.variant),\n                COALESCE(m.group_name, m.name)\n         FROM models m LEFT JOIN model_user_meta u ON u.dir_path = m.dir_path "@
        + where_sql + " "@ + tail_sql
}

/// The catalog-entry SELECT around a filter and a tail clause.
pub fn entry_select_sql(where_sql: &str, tail_sql: &str) -> (r: String)
    ensures
        r@ == entry_select_text(where_sql@, tail_sql@),
{
    let mut v: Vec<char> = Vec::new();
    append_str(
        &mut v,
        "SELECT m.dir_path, COALESCE(u.custom_name, m.name), m.description,\n                COALESCE(u.designer, m.designer),\n                COALESCE(u.release_name, m.release_name),\n                COALESCE(u.preview_path, m.preview_path),\n                m.file_count, m.total_size_bytes,\n                COALESCE((SELECT group_concat(t.tag, char(31)) FROM model_tags t\n                          WHERE t.dir_path = m.dir_path), ''),\n                COALESCE(u.pose, m.pose), COALESCE(u.scale, m.scale),\n                COALESCE(u.support_status, m.support_status),\n                COALESCE(u.release_date, m.release_date),\n                u.custom_name, COALESCE(u.sculptor, m.sculptor),\n                COALESCE(u.variant, m.variant),\n                COALESCE(m.group_name, m.name)\n         FROM models m LEFT JOIN model_user_meta u ON u.dir_path = m.dir_path ",
    );
    append_str(&mut v, where_sql);
    append_str(&mut v, " ");
    append_str(&mut v, tail_sql);
    assert(v@ =~= entry_select_text(where_sql@, tail_sql@));
    string_of(&v)
}

/// The separator inside a variant key (U+001F, the unit separator).
pub open spec fn variant_sep() -> char {
    '\u{1f}'
}

/// The predicate "is the variant-key separator".
pub open spec fn variant_sep_pred() -> spec_fn(char) -> bool {
    |c: char| c == variant_sep()
}

/// The stable handle of one pose member of a folder:
/// `{dir_path}␟{variant}␟{pose}`.
pub open spec fn variant_key_text(dir_path: Seq<char>, variant: Seq<char>, pose: Seq<char>) -> Seq<
    char,
> {
    dir_path.push(variant_sep()) + variant.push(variant_sep()) + pose
}

/// Builds the handle of one pose member of a folder.
pub fn variant_key(dir_path: &str, variant: &str, pose: &str) -> (r: String)
    ensures
        r@ == variant_key_text(dir_path@, variant@, pose@),
{
    let mut v: Vec<char> = Vec::new();
    append_str(&mut v, dir_path);
    v.push('\u{1f}');
    append_str(&mut v, variant);
    v.push('\u{1f}');
    append_str(&mut v, pose);
    assert(v@ =~= variant_key_text(dir_path@, variant@, pose@));
    string_of(&v)
}

/// The (variant, pose) a key carries: its last two separator-delimited
/// fields, the variant empty when there is only one field.
pub open spec fn variant_key_fields(key: Seq<char>) -> (Seq<char>, Seq<char>) {
    let pieces = split_on(key, variant_sep_pred());
    let pose = pieces.last();
    let variant = if pieces.len() >= 2 {
        pieces[pieces.len() - 2]
    } else {
        Seq::empty()
    };
    (variant, pose)
}

/// Recovers (variant, pose) from a variant key; the leading folder field is
/// ignored, since the caller holds the folder already.
pub fn parse_variant_key(key: &str) -> (r: (String, String))
    ensures
        (r.0@, r.1@) == variant_key_fields(key@),
{
    let v = chars_of(key);
    let mut flags: Vec<bool> = Vec::new();
    let mut i: usize = 0;
    while i < v.len()
        invariant
            0 <= i <= v.len(),
            flags.len() == i,
            forall|k: int| 0 <= k < i ==> flags@[k] == variant_sep_pred()(v@[k]),
        decreases v.len() - i,
    {
        flags.push(v[i] == '\u{1f}');
        i += 1;
    }
    let pieces = split_by_flags(&v, &flags, Ghost(variant_sep_pred()));
    proof {
        lemma_split_on_nonempty(v@, variant_sep_pred());
    }
    let n = pieces.len();
    let pose = string_of(&pieces[n - 1]);
    let variant = if n >= 2 {
        string_of(&pieces[n - 2])
    } else {
        string_of(&Vec::new())
    };
    proof {
        assert(views(pieces@)[n - 1] == pieces@[n - 1]@);
        if n >= 2 {
            assert(views(pieces@)[n - 2] == pieces@[n - 2]@);
        }
    }
    (variant, pose)
}

/// `s` holds no character satisfying `sep`.
pub open spec fn free_of(s: Seq<char>, sep: spec_fn(char) -> bool) -> bool {
    forall|i: int| 0 <= i < s.len() ==> !sep(#[trigger] s[i])
}

/// Appending separator-free text only extends the last piece.
pub proof fn lemma_split_on_extend(a: Seq<char>, b: Seq<char>, sep: spec_fn(char) -> bool)
    requires
        free_of(b, sep),
    ensures
        split_on(a + b, sep) == split_on(a, sep).update(
            split_on(a, sep).len() - 1,
            split_on(a, sep).last() + b,
        ),
    decreases b.len(),
{
    lemma_split_on_nonempty(a, sep);
    if b.len() == 0 {
        assert(a + b =~= a);
        assert(split_on(a, sep).last() + b =~= split_on(a, sep).last());
        assert(split_on(a, sep).update(split_on(a, sep).len() - 1, split_on(a, sep).last())
            =~= split_on(a, sep));
    } else {
        let b0 = b.drop_last();
        assert(free_of(b0, sep));
        lemma_split_on_extend(a, b0, sep);
        assert((a + b).drop_last() =~= a + b0);
        assert((a + b).last() == b.last());
        assert(!sep(b.last()));
        lemma_split_on_nonempty(a + b0, sep);
        let w = split_on(a + b0, sep);
        assert(split_on(a + b, sep) == w.update(w.len() - 1, w.last().push(b.last())));
        assert(split_on(a, sep).last() + b =~= (split_on(a, sep).last() + b0).push(b.last()));
        assert(split_on(a + b, sep) =~= split_on(a, sep).update(
            split_on(a, sep).len() - 1,
            split_on(a, sep).last() + b,
        ));
    }
}

/// A key built from a variant and a pose that hold no separator gives
/// exactly that variant and pose back.
pub proof fn variant_key_round_trip(dir_path: Seq<char>, variant: Seq<char>, pose: Seq<char>)
    requires
        free_of(variant, variant_sep_pred()),
        free_of(pose, variant_sep_pred()),
    ensures
        variant_key_fields(variant_key_text(dir_path, variant, pose)) == (variant, pose),
{
    let sep = variant_sep_pred();
    let d1 = dir_path.push(variant_sep());
    lemma_split_on_nonempty(dir_path, sep);
    assert(d1.drop_last() =~= dir_path);
    let p1 = split_on(d1, sep);
    assert(p1 == split_on(dir_path, sep).push(Seq::empty()));
    lemma_split_on_extend(d1, variant, sep);
    let a2 = d1 + variant;
    let p2 = split_on(a2, sep);
    assert(p2 == p1.update(p1.len() - 1, p1.last() + variant));
    assert(p1.last() + variant =~= variant);
    let a3 = a2.push(variant_sep());
    assert(a3.drop_last() =~= a2);
    lemma_split_on_nonempty(a2, sep);
    let p3 = split_on(a3, sep);
    assert(p3 == p2.push(Seq::empty()));
    lemma_split_on_extend(a3, pose, sep);
    let key = a3 + pose;
    assert(key =~= variant_key_text(dir_path, variant, pose));
    let p4 = split_on(key, sep);
    assert(p4 == p3.update(p3.len() - 1, p3.last() + pose));
    assert(p3.last() + pose =~= pose);
    assert(p4.last() == pose);
    assert(p4[p4.len() - 2] == variant);
}

} // verus!

verus! {

/// What a rescan keeps of a file indexed before: its path, the size and
/// modification time it had then, and its content hash and identity.
#[derive(Debug, Clone)]
pub struct KnownHash {
    pub path: String,
    pub size_bytes: i64,
    pub modified_at: i64,
    pub content_hash: Option<String>,
    pub file_identity: Option<String>,
}

/// The text of an optional string.
pub open spec fn opt_str_view(o: Option<String>) -> Option<Seq<char>> {
    match o {
        Some(s) => Some(s@),
        None => None,
    }
}

/// The (hash, identity) a freshly indexed file keeps: those of the first
/// earlier entry (from `j` on) with a hash or an identity at the same path,
/// size and modification time; none when the file changed or is new.
pub open spec fn carried_for(old: Seq<KnownHash>, f: FileRow, j: int) -> (Option<Seq<char>>, Option<Seq<char>>)
    decreases old.len() - j,
{
    if j < 0 || j >= old.len() {
        (None, None)
    } else if old[j].path@ == f.path@ && old[j].size_bytes == f.size_bytes && old[j].modified_at == f.modified_at
        && (old[j].content_hash is Some || old[j].file_identity is Some) {
        (opt_str_view(old[j].content_hash), opt_str_view(old[j].file_identity))
    } else {
        carried_for(old, f, j + 1)
    }
}

fn copy_opt_str(o: &Option<String>) -> (r: Option<String>)
    ensures
        opt_str_view(r) == opt_str_view(*o),
{
    match o {
        Some(s) => Some(string_of(&chars_of(s.as_str()))),
        None => None,
    }
}

fn carried_one(old: &Vec<KnownHash>, f: &FileRow) -> (r: (Option<String>, Option<String>))
    ensures
        (opt_str_view(r.0), opt_str_view(r.1)) == carried_for(old@, *f, 0),
{
    let fp = chars_of(f.path.as_str());
    let mut j: usize = 0;
    while j < old.len()
        invariant
            0 <= j <= old.len(),
            fp@ == f.path@,
            carried_for(old@, *f, 0) == carried_for(old@, *f, j as int),
        decreases old.len() - j,
    {
        let o = &old[j];
        if crate::text::chars_eq(&chars_of(o.path.as_str()), &fp) && o.size_bytes == f.size_bytes
            && o.modified_at == f.modified_at && (o.content_hash.is_some() || o.file_identity.is_some()) {
            return (copy_opt_str(&o.content_hash), copy_opt_str(&o.file_identity));
        }
        j += 1;
    }
    (None, None)
}

/// The hash and identity each freshly indexed file keeps across a rescan:
/// hashing is the expensive part, so a file whose path, size and
/// modification time are unchanged keeps what was known of it; any other
/// file starts with neither.
pub fn carry_hashes(old: &Vec<KnownHash>, files: &Vec<FileRow>) -> (r: Vec<(Option<String>, Option<String>)>)
    ensures
        r@.len() == files@.len(),
        forall|i: int| 0 <= i < files@.len() ==> (opt_str_view((#[trigger] r@[i]).0), opt_str_view(r@[i].1))
            == carried_for(old@, files@[i], 0),
{
    let mut out: Vec<(Option<String>, Option<String>)> = Vec::new();
    let mut i: usize = 0;
    while i < files.len()
        invariant
            0 <= i <= files.len(),
            out@.len() == i,
            forall|x: int| 0 <= x < i ==> (opt_str_view((#[trigger] out@[x]).0), opt_str_view(out@[x].1))
                == carried_for(old@, files@[x], 0),
        decreases files.len() - i,
    {
        let found = carried_one(old, &files[i]);
        out.push(found);
        i += 1;
    }
    out
}

} // verus!

verus! {

/// One tag of a model: its folder, the tag, and where it came from
/// (`user`, or `metadata` for a tag a `model.json` gave).
#[derive(Debug, Clone)]
pub struct TagRow {
    pub dir_path: String,
    pub tag: String,
    pub source: String,
}

/// A tag row by its text.
pub type TagView = (Seq<char>, Seq<char>, Seq<char>);

/// The view of a tag row.
pub open spec fn tag_view(t: TagRow) -> TagView {
    (t.dir_path@, t.tag@, t.source@)
}

/// The rows among the first `k` that did not come from metadata, in
/// order.
pub open spec fn user_tags(old: Seq<TagRow>, k: int) -> Seq<TagView>
    decreases k,
{
    if k <= 0 || k > old.len() {
        Seq::empty()
    } else if old[k - 1].source@ != "metadata"@ {
        user_tags(old, k - 1).push(tag_view(old[k - 1]))
    } else {
        user_tags(old, k - 1)
    }
}

/// Whether `rows` already tag folder `dir` with `tag`.
pub open spec fn has_tag(rows: Seq<TagView>, dir: Seq<char>, tag: Seq<char>) -> bool {
    exists|i: int| 0 <= i < rows.len() && (#[trigger] rows[i]).0 == dir && rows[i].1 == tag
}

/// `rows` with the first `k` metadata tags added, each unless its folder
/// already has that tag.
pub open spec fn with_metadata(rows: Seq<TagView>, meta: Seq<(String, String)>, k: int) -> Seq<TagView>
    decreases k,
{
    if k <= 0 || k > meta.len() {
        rows
    } else {
        let prev = with_metadata(rows, meta, k - 1);
        if has_tag(prev, meta[k - 1].0@, meta[k - 1].1@) {
            prev
        } else {
            prev.push((meta[k - 1].0@, meta[k - 1].1@, "metadata"@))
        }
    }
}

/// The rows among the first `k` whose folder is still a model.
pub open spec fn of_models(rows: Seq<TagView>, dirs: Seq<String>, k: int) -> Seq<TagView>
    decreases k,
{
    if k <= 0 || k > rows.len() {
        Seq::empty()
    } else if exists|j: int| 0 <= j < dirs.len() && #[trigger] dirs[j]@ == rows[k - 1].0 {
        of_models(rows, dirs, k - 1).push(rows[k - 1])
    } else {
        of_models(rows, dirs, k - 1)
    }
}

/// The tags after a rescan: the user's own tags are kept, the metadata
/// tags are replaced by those the rescan read (a tag the user already gave
/// that folder stays the user's), and the tags of folders that are no
/// longer models are dropped.
pub open spec fn retained_tags_spec(old: Seq<TagRow>, meta: Seq<(String, String)>, dirs: Seq<String>) -> Seq<TagView> {
    let merged = with_metadata(user_tags(old, old.len() as int), meta, meta.len() as int);
    of_models(merged, dirs, merged.len() as int)
}

/// The view of a list of exec tag rows.
pub open spec fn tag_views(v: Seq<TagRow>) -> Seq<TagView> {
    v.map_values(|t: TagRow| tag_view(t))
}

fn has_tag_exec(rows: &Vec<TagRow>, dir: &String, tag: &String) -> (r: bool)
    ensures
        r == has_tag(tag_views(rows@), dir@, tag@),
{
    let ghost v = tag_views(rows@);
    let d = chars_of(dir.as_str());
    let t = chars_of(tag.as_str());
    let mut i: usize = 0;
    while i < rows.len()
        invariant
            0 <= i <= rows.len(),
            v == tag_views(rows@),
            d@ == dir@,
            t@ == tag@,
            forall|k: int| 0 <= k < i ==> !((#[trigger] v[k]).0 == dir@ && v[k].1 == tag@),
        decreases rows.len() - i,
    {
        assert(v[i as int] == tag_view(rows@[i as int]));
        if crate::text::chars_eq(&chars_of(rows[i].dir_path.as_str()), &d) && crate::text::chars_eq(
            &chars_of(rows[i].tag.as_str()),
            &t,
        ) {
            return true;
        }
        i += 1;
    }
    false
}

fn copy_text(s: &String) -> (r: String)
    ensures
        r@ == s@,
{
    string_of(&chars_of(s.as_str()))
}

/// The model tags after a rescan, from the tags before it (`old`), the
/// metadata tags the rescan read (`meta`: folder and tag), and the
/// folders that are models now, as [`retained_tags_spec`] states.
pub fn retained_tags(old: &Vec<TagRow>, meta: &Vec<(String, String)>, model_dirs: &Vec<String>) -> (r: Vec<TagRow>)
    ensures
        tag_views(r@) == retained_tags_spec(old@, meta@, model_dirs@),
{
    let mut rows: Vec<TagRow> = Vec::new();
    let mut i: usize = 0;
    while i < old.len()
        invariant
            0 <= i <= old.len(),
            tag_views(rows@) == user_tags(old@, i as int),
        decreases old.len() - i,
    {
        if !eq_lit(&chars_of(old[i].source.as_str()), "metadata") {
            let ghost pre = tag_views(rows@);
            let t = TagRow { dir_path: copy_text(&old[i].dir_path), tag: copy_text(&old[i].tag), source: copy_text(&old[i].source) };
            rows.push(t);
            assert(tag_views(rows@) =~= pre.push(tag_view(old@[i as int])));
        }
        i += 1;
    }
    let ghost base = tag_views(rows@);
    let mut k: usize = 0;
    while k < meta.len()
        invariant
            0 <= k <= meta.len(),
            base == user_tags(old@, old@.len() as int),
            tag_views(rows@) == with_metadata(base, meta@, k as int),
        decreases meta.len() - k,
    {
        if !has_tag_exec(&rows, &meta[k].0, &meta[k].1) {
            let ghost pre = tag_views(rows@);
            let t = TagRow { dir_path: copy_text(&meta[k].0), tag: copy_text(&meta[k].1), source: string_of(&chars_of("metadata")) };
            rows.push(t);
            assert(tag_views(rows@) =~= pre.push((meta@[k as int].0@, meta@[k as int].1@, "metadata"@)));
        }
        k += 1;
    }
    let ghost merged = tag_views(rows@);
    let mut out: Vec<TagRow> = Vec::new();
    let mut j: usize = 0;
    while j < rows.len()
        invariant
            0 <= j <= rows.len(),
            merged == tag_views(rows@),
            tag_views(out@) == of_models(merged, model_dirs@, j as int),
        decreases rows.len() - j,
    {
        let d = chars_of(rows[j].dir_path.as_str());
        let mut found = false;
        let mut m: usize = 0;
        while m < model_dirs.len()
            invariant
                0 <= m <= model_dirs.len(),
                d@ == rows@[j as int].dir_path@,
                found == exists|x: int| 0 <= x < m && #[trigger] model_dirs@[x]@ == rows@[j as int].dir_path@,
            decreases model_dirs.len() - m,
        {
            if crate::text::chars_eq(&chars_of(model_dirs[m].as_str()), &d) {
                found = true;
            }
            m += 1;
        }
        assert(merged[j as int] == tag_view(rows@[j as int]));
        if found {
            let ghost pre = tag_views(out@);
            let t = TagRow { dir_path: copy_text(&rows[j].dir_path), tag: copy_text(&rows[j].tag), source: copy_text(&rows[j].source) };
            out.push(t);
            assert(tag_views(out@) =~= pre.push(merged[j as int]));
        }
        j += 1;
    }
    out
}

} // verus!

verus! {

/// The extensions of printable model files, as listed: stl, obj, 3mf, lys,
/// chitu, chitubox, blend, gcode.
pub open spec fn model_extension_listed(ext: Seq<char>) -> bool {
    ext == "stl"@ || ext == "obj"@ || ext == "3mf"@ || ext == "lys"@ || ext == "chitu"@ || ext == "chitubox"@
        || ext == "blend"@ || ext == "gcode"@
}

/// The extensions of preview images, as listed: jpg, jpeg, png, webp, gif.
pub open spec fn image_extension_listed(ext: Seq<char>) -> bool {
    ext == "jpg"@ || ext == "jpeg"@ || ext == "png"@ || ext == "webp"@ || ext == "gif"@
}

/// The scan treats exactly the listed extensions as model files and as
/// preview images.
pub proof fn scanned_extensions_are_the_listed_ones(ext: Seq<char>)
    ensures
        is_model_extension(ext) == model_extension_listed(ext),
        is_image_extension(ext) == image_extension_listed(ext),
{
}

} // verus!
