//! How a folder whose files carry pose assignments fans out into catalog
//! members: one member per (support, variant, pose) the assignments name,
//! in that order, plus a residual member for the model files nobody
//! assigned yet.
use vstd::prelude::*;
use crate::catalog::{variant_key, variant_key_text, FileVariant};
use crate::normalize::{lex_less, lex_lt, lemma_lex_irreflexive, lemma_lex_total, lemma_lex_transitive, texts};
use crate::text::{append_str, chars_eq, chars_of, string_of};

verus! {

/// The key one member of a fanned-out folder is made for: (support
/// status, variant, pose), the last two empty when unset.
pub type MemberKey = (Option<Seq<char>>, Seq<char>, Seq<char>);

/// The text of an optional string.
pub open spec fn opt_seq(o: Option<String>) -> Option<Seq<char>> {
    match o {
        Some(s) => Some(s@),
        None => None,
    }
}

/// The text of an optional string, empty when absent.
pub open spec fn or_empty(o: Option<String>) -> Seq<char> {
    match o {
        Some(s) => s@,
        None => Seq::empty(),
    }
}

/// A file assignment counts when it names a pose.
pub open spec fn is_assigned(v: FileVariant) -> bool {
    v.pose matches Some(p) && p@.len() > 0
}

/// The member key of an assignment.
pub open spec fn key_of(v: FileVariant) -> MemberKey {
    (opt_seq(v.support_status), or_empty(v.variant), or_empty(v.pose))
}

/// Optional strings in `Option`'s order: absent first, then by text.
pub open spec fn opt_lt(a: Option<Seq<char>>, b: Option<Seq<char>>) -> bool {
    match (a, b) {
        (None, Some(_)) => true,
        (Some(x), Some(y)) => lex_lt(x, y),
        _ => false,
    }
}

/// Member keys in tuple order: support, then variant, then pose.
pub open spec fn key_lt(a: MemberKey, b: MemberKey) -> bool {
    ||| opt_lt(a.0, b.0)
    ||| a.0 == b.0 && lex_lt(a.1, b.1)
    ||| a.0 == b.0 && a.1 == b.1 && lex_lt(a.2, b.2)
}

proof fn lemma_key_order(a: MemberKey, b: MemberKey, c: MemberKey)
    ensures
        !key_lt(a, a),
        a != b ==> key_lt(a, b) || key_lt(b, a),
        !(key_lt(a, b) && key_lt(b, a)),
        key_lt(a, b) && key_lt(b, c) ==> key_lt(a, c),
{
    lemma_lex_irreflexive(a.1);
    lemma_lex_irreflexive(a.2);
    lemma_lex_total(a.1, b.1);
    lemma_lex_total(a.2, b.2);
    if a.0 is Some {
        lemma_lex_irreflexive(a.0.unwrap());
    }
    if a.0 is Some && b.0 is Some {
        lemma_lex_total(a.0.unwrap(), b.0.unwrap());
    }
    if key_lt(a, b) && key_lt(b, c) {
        if a.0 is Some && b.0 is Some && c.0 is Some {
            if lex_lt(a.0.unwrap(), b.0.unwrap()) && lex_lt(b.0.unwrap(), c.0.unwrap()) {
                lemma_lex_transitive(a.0.unwrap(), b.0.unwrap(), c.0.unwrap());
            }
        }
        if lex_lt(a.1, b.1) && lex_lt(b.1, c.1) {
            lemma_lex_transitive(a.1, b.1, c.1);
        }
        if lex_lt(a.2, b.2) && lex_lt(b.2, c.2) {
            lemma_lex_transitive(a.2, b.2, c.2);
        }
    }
    if a != b {
        if a.0 == b.0 && a.1 == b.1 {
            assert(a.2 != b.2);
        }
    }
}

/// An exec member key.
pub type KeyParts = (Option<String>, String, String);

/// The view of an exec member key.
pub open spec fn key_view(k: KeyParts) -> MemberKey {
    (opt_seq(k.0), k.1@, k.2@)
}

fn opt_less(a: &Option<String>, b: &Option<String>) -> (r: bool)
    ensures
        r == opt_lt(opt_seq(*a), opt_seq(*b)),
{
    match (a, b) {
        (None, Some(_)) => true,
        (Some(x), Some(y)) => lex_less(&chars_of(x.as_str()), &chars_of(y.as_str())),
        _ => false,
    }
}

fn opt_same(a: &Option<String>, b: &Option<String>) -> (r: bool)
    ensures
        r == (opt_seq(*a) == opt_seq(*b)),
{
    match (a, b) {
        (None, None) => true,
        (Some(x), Some(y)) => chars_eq(&chars_of(x.as_str()), &chars_of(y.as_str())),
        _ => false,
    }
}

fn same_text(a: &String, b: &String) -> (r: bool)
    ensures
        r == (a@ == b@),
{
    chars_eq(&chars_of(a.as_str()), &chars_of(b.as_str()))
}

fn key_less(a: &KeyParts, b: &KeyParts) -> (r: bool)
    ensures
        r == key_lt(key_view(*a), key_view(*b)),
{
    if opt_less(&a.0, &b.0) {
        return true;
    }
    if !opt_same(&a.0, &b.0) {
        return false;
    }
    if lex_less(&chars_of(a.1.as_str()), &chars_of(b.1.as_str())) {
        return true;
    }
    if !same_text(&a.1, &b.1) {
        return false;
    }
    lex_less(&chars_of(a.2.as_str()), &chars_of(b.2.as_str()))
}

fn key_same(a: &KeyParts, b: &KeyParts) -> (r: bool)
    ensures
        r == (key_view(*a) == key_view(*b)),
{
    opt_same(&a.0, &b.0) && same_text(&a.1, &b.1) && same_text(&a.2, &b.2)
}

fn copy_opt(o: &Option<String>) -> (r: Option<String>)
    ensures
        opt_seq(r) == opt_seq(*o),
{
    match o {
        Some(s) => Some(string_of(&chars_of(s.as_str()))),
        None => None,
    }
}

fn text_or_empty(o: &Option<String>) -> (r: String)
    ensures
        r@ == or_empty(*o),
{
    match o {
        Some(s) => string_of(&chars_of(s.as_str())),
        None => string_of(&Vec::new()),
    }
}

fn assigned(v: &FileVariant) -> (r: bool)
    ensures
        r == is_assigned(*v),
{
    match &v.pose {
        Some(p) => p.as_str().unicode_len() > 0,
        None => false,
    }
}

/// Some assigned row among the first `n` has key `k`.
pub open spec fn named_by(k: MemberKey, rows: Seq<FileVariant>, n: int) -> bool {
    exists|r: int| 0 <= r < n && is_assigned(rows[r]) && #[trigger] key_of(rows[r]) == k
}

/// The member keys `keys` lists are exactly those of the assignments among
/// the first `n` rows, each once, in increasing order.
pub open spec fn keys_cover(keys: Seq<MemberKey>, rows: Seq<FileVariant>, n: int) -> bool {
    &&& forall|i: int, j: int| 0 <= i < j < keys.len() ==> key_lt(#[trigger] keys[i], #[trigger] keys[j])
    &&& forall|i: int| 0 <= i < keys.len() ==> named_by(#[trigger] keys[i], rows, n)
    &&& forall|r: int| 0 <= r < n && is_assigned(#[trigger] rows[r]) ==> keys.contains(key_of(rows[r]))
}

/// One more row whose key is already listed (or that is not assigned)
/// leaves the listing covering.
proof fn lemma_cover_extend(keys: Seq<MemberKey>, rows: Seq<FileVariant>, n: int)
    requires
        0 <= n < rows.len(),
        keys_cover(keys, rows, n),
        is_assigned(rows[n]) ==> keys.contains(key_of(rows[n])),
    ensures
        keys_cover(keys, rows, n + 1),
{
    assert forall|i: int| 0 <= i < keys.len() implies named_by(#[trigger] keys[i], rows, n + 1) by {
        let r0 = choose|r: int| 0 <= r < n && is_assigned(rows[r]) && #[trigger] key_of(rows[r]) == keys[i];
        assert(0 <= r0 < n + 1 && is_assigned(rows[r0]) && key_of(rows[r0]) == keys[i]);
    }
}

/// The member keys of the assigned rows, each once, in increasing order.
pub fn member_keys(rows: &Vec<FileVariant>) -> (r: Vec<KeyParts>)
    ensures
        keys_cover(r@.map_values(|k: KeyParts| key_view(k)), rows@, rows@.len() as int),
{
    let mut keys: Vec<KeyParts> = Vec::new();
    let mut n: usize = 0;
    while n < rows.len()
        invariant
            0 <= n <= rows.len(),
            keys_cover(keys@.map_values(|k: KeyParts| key_view(k)), rows@, n as int),
        decreases rows.len() - n,
    {
        let ghost kv = keys@.map_values(|k: KeyParts| key_view(k));
        if assigned(&rows[n]) {
            let key: KeyParts = (copy_opt(&rows[n].support_status), text_or_empty(&rows[n].variant), text_or_empty(&rows[n].pose));
            assert(key_view(key) == key_of(rows@[n as int]));
            let mut pos: usize = 0;
            while pos < keys.len() && key_less(&keys[pos], &key)
                invariant
                    0 <= pos <= keys.len(),
                    kv == keys@.map_values(|k: KeyParts| key_view(k)),
                    forall|i: int| 0 <= i < pos ==> key_lt(#[trigger] kv[i], key_view(key)),
                decreases keys.len() - pos,
            {
                pos += 1;
            }
            let found = pos < keys.len() && key_same(&keys[pos], &key);
            if !found {
                let ghost k0 = key_view(key);
                proof {
                    if pos < kv.len() {
                        lemma_key_order(kv[pos as int], k0, k0);
                        assert(!key_lt(kv[pos as int], k0));
                        assert(key_lt(k0, kv[pos as int]));
                    }
                }
                keys.insert(pos, key);
                proof {
                    let nk = keys@.map_values(|k: KeyParts| key_view(k));
                    assert(nk =~= kv.insert(pos as int, k0));
                    assert forall|i: int, j: int| 0 <= i < j < nk.len() implies key_lt(#[trigger] nk[i], #[trigger] nk[j]) by {
                        if j < pos {
                            assert(nk[i] == kv[i] && nk[j] == kv[j]);
                        } else if j == pos {
                            assert(nk[i] == kv[i]);
                        } else if i > pos {
                            assert(nk[i] == kv[i - 1] && nk[j] == kv[j - 1]);
                        } else if i == pos {
                            assert(nk[j] == kv[j - 1]);
                            if j - 1 > pos {
                                lemma_key_order(k0, kv[pos as int], kv[j - 1]);
                            }
                        } else {
                            assert(nk[i] == kv[i] && nk[j] == kv[j - 1]);
                            if j - 1 > pos {
                                lemma_key_order(k0, kv[pos as int], kv[j - 1]);
                            }
                            lemma_key_order(kv[i], k0, kv[j - 1]);
                        }
                    }
                    assert forall|i: int| 0 <= i < nk.len() implies named_by(#[trigger] nk[i], rows@, n + 1) by {
                        if i < pos {
                            assert(nk[i] == kv[i]);
                            let r0 = choose|r: int| 0 <= r < n && is_assigned(rows@[r]) && #[trigger] key_of(rows@[r]) == kv[i];
                            assert(0 <= r0 < n + 1 && is_assigned(rows@[r0]) && key_of(rows@[r0]) == nk[i]);
                        } else if i > pos {
                            assert(nk[i] == kv[i - 1]);
                            let r0 = choose|r: int| 0 <= r < n && is_assigned(rows@[r]) && #[trigger] key_of(rows@[r]) == kv[i - 1];
                            assert(0 <= r0 < n + 1 && is_assigned(rows@[r0]) && key_of(rows@[r0]) == nk[i]);
                        } else {
                            assert(nk[i] == key_of(rows@[n as int]));
                        }
                    }
                    assert forall|r: int| 0 <= r < n + 1 && is_assigned(#[trigger] rows@[r]) implies nk.contains(key_of(rows@[r])) by {
                        if r < n {
                            let i = choose|i: int| 0 <= i < kv.len() && kv[i] == key_of(rows@[r]);
                            if i < pos {
                                assert(nk[i] == kv[i]);
                            } else {
                                assert(nk[i + 1] == kv[i]);
                            }
                        } else {
                            assert(nk[pos as int] == k0);
                        }
                    }
                    assert(keys_cover(nk, rows@, n + 1));
                }
            } else {
                proof {
                    assert(kv[pos as int] == key_of(rows@[n as int]));
                    lemma_cover_extend(kv, rows@, n as int);
                }
            }
        } else {
            proof {
                lemma_cover_extend(kv, rows@, n as int);
            }
        }
        assert(keys_cover(keys@.map_values(|k: KeyParts| key_view(k)), rows@, n + 1));
        n += 1;
    }
    keys
}


/// The paths of the assigned rows among the first `n` whose key is `k`,
/// in row order.
pub open spec fn paths_with(rows: Seq<FileVariant>, k: MemberKey, n: int) -> Seq<Seq<char>>
    decreases n,
{
    if n <= 0 || n > rows.len() {
        Seq::empty()
    } else if is_assigned(rows[n - 1]) && key_of(rows[n - 1]) == k {
        paths_with(rows, k, n - 1).push(rows[n - 1].path@)
    } else {
        paths_with(rows, k, n - 1)
    }
}

/// The size the files table records for `path`: the first entry for it,
/// from `j` on.
pub open spec fn size_of(sizes: Seq<(String, i64)>, path: Seq<char>, j: int) -> Option<i64>
    decreases sizes.len() - j,
{
    if j < 0 || j >= sizes.len() {
        None
    } else if sizes[j].0@ == path {
        Some(sizes[j].1)
    } else {
        size_of(sizes, path, j + 1)
    }
}

/// Whether `v` fits an `i64`.
pub open spec fn fits_i64(v: int) -> bool {
    i64::MIN <= v <= i64::MAX
}

/// The recorded sizes of `paths` added up in order (a path without a
/// recorded size adds nothing); `None` when a partial sum leaves `i64`.
pub open spec fn checked_total(sizes: Seq<(String, i64)>, paths: Seq<Seq<char>>) -> Option<int>
    decreases paths.len(),
{
    if paths.len() == 0 {
        Some(0)
    } else {
        match checked_total(sizes, paths.drop_last()) {
            None => None,
            Some(t) => match size_of(sizes, paths.last(), 0) {
                None => Some(t),
                Some(v) => if fits_i64(t + v) { Some(t + v) } else { None },
            },
        }
    }
}

/// Whether some assigned row among the first `n` is the file `path`.
pub open spec fn claimed(rows: Seq<FileVariant>, path: Seq<char>, n: int) -> bool
    decreases n,
{
    if n <= 0 || n > rows.len() {
        false
    } else {
        (is_assigned(rows[n - 1]) && rows[n - 1].path@ == path) || claimed(rows, path, n - 1)
    }
}

/// The indexed files among the first `m` size entries that no assignment
/// claims, in their order, with their sizes.
pub open spec fn unclaimed(sizes: Seq<(String, i64)>, rows: Seq<FileVariant>, m: int) -> Seq<(Seq<char>, i64)>
    decreases m,
{
    if m <= 0 || m > sizes.len() {
        Seq::empty()
    } else if !claimed(rows, sizes[m - 1].0@, rows.len() as int) {
        unclaimed(sizes, rows, m - 1).push((sizes[m - 1].0@, sizes[m - 1].1))
    } else {
        unclaimed(sizes, rows, m - 1)
    }
}

/// The values of `entries` added up in order; `None` when a partial sum
/// leaves `i64`.
pub open spec fn checked_values(entries: Seq<(Seq<char>, i64)>) -> Option<int>
    decreases entries.len(),
{
    if entries.len() == 0 {
        Some(0)
    } else {
        match checked_values(entries.drop_last()) {
            None => None,
            Some(t) => if fits_i64(t + entries.last().1) { Some(t + entries.last().1) } else { None },
        }
    }
}

/// One member a fanned-out folder becomes: its key, its files, and their
/// recorded bytes.
#[derive(Debug, Clone)]
pub struct VariantMember {
    pub support_status: Option<String>,
    pub variant: String,
    pub pose: String,
    pub paths: Vec<String>,
    pub bytes: i64,
}

/// The key of a member, by its text.
pub open spec fn member_key(m: VariantMember) -> MemberKey {
    (opt_seq(m.support_status), m.variant@, m.pose@)
}

fn size_lookup(sizes: &Vec<(String, i64)>, path: &String) -> (r: Option<i64>)
    ensures
        r == size_of(sizes@, path@, 0),
{
    let mut j: usize = 0;
    while j < sizes.len()
        invariant
            0 <= j <= sizes.len(),
            size_of(sizes@, path@, 0) == size_of(sizes@, path@, j as int),
        decreases sizes.len() - j,
    {
        if same_text(&sizes[j].0, path) {
            return Some(sizes[j].1);
        }
        j += 1;
    }
    None
}

fn add_checked(t: i64, v: i64) -> (r: Option<i64>)
    ensures
        fits_i64(t + v) ==> r == Some((t + v) as i64),
        !fits_i64(t + v) ==> r is None,
{
    if v > 0 && t > i64::MAX - v {
        None
    } else if v < 0 && t < i64::MIN - v {
        None
    } else {
        Some(t + v)
    }
}

fn is_claimed(rows: &Vec<FileVariant>, path: &String) -> (r: bool)
    ensures
        r == claimed(rows@, path@, rows@.len() as int),
{
    let mut n: usize = 0;
    let mut found = false;
    while n < rows.len()
        invariant
            0 <= n <= rows.len(),
            found == claimed(rows@, path@, n as int),
        decreases rows.len() - n,
    {
        if assigned(&rows[n]) && same_text(&rows[n].path, path) {
            found = true;
        }
        n += 1;
    }
    found
}

fn row_key(v: &FileVariant) -> (r: KeyParts)
    ensures
        key_view(r) == key_of(*v),
{
    (copy_opt(&v.support_status), text_or_empty(&v.variant), text_or_empty(&v.pose))
}

/// The member for key `k`: the assigned rows' paths with that key and their
/// recorded bytes; `None` when the bytes overflow.
fn member_for(rows: &Vec<FileVariant>, sizes: &Vec<(String, i64)>, k: KeyParts) -> (r: Option<VariantMember>)
    ensures
        checked_total(sizes@, paths_with(rows@, key_view(k), rows@.len() as int)) is None <==> r is None,
        r matches Some(m) ==> {
            &&& member_key(m) == key_view(k)
            &&& texts(m.paths@) == paths_with(rows@, key_view(k), rows@.len() as int)
            &&& checked_total(sizes@, texts(m.paths@)) == Some(m.bytes as int)
        },
{
    let mut paths: Vec<String> = Vec::new();
    let mut n: usize = 0;
    while n < rows.len()
        invariant
            0 <= n <= rows.len(),
            texts(paths@) == paths_with(rows@, key_view(k), n as int),
        decreases rows.len() - n,
    {
        if assigned(&rows[n]) && key_same(&row_key(&rows[n]), &k) {
            let ghost pre = texts(paths@);
            paths.push(string_of(&chars_of(rows[n].path.as_str())));
            assert(texts(paths@) =~= pre.push(rows@[n as int].path@));
        }
        n += 1;
    }
    let ghost pv = texts(paths@);
    let mut total: i64 = 0;
    let mut i: usize = 0;
    while i < paths.len()
        invariant
            0 <= i <= paths.len(),
            pv == texts(paths@),
            pv == paths_with(rows@, key_view(k), rows@.len() as int),
            checked_total(sizes@, pv.take(i as int)) == Some(total as int),
        decreases paths.len() - i,
    {
        assert(pv.take(i + 1).drop_last() =~= pv.take(i as int));
        assert(pv.take(i + 1).last() == paths@[i as int]@);
        match size_lookup(sizes, &paths[i]) {
            Some(v) => match add_checked(total, v) {
                Some(t) => {
                    total = t;
                },
                None => {
                    proof {
                        lemma_total_prefix_none(sizes@, pv, i + 1);
                    }
                    return None;
                },
            },
            None => {},
        }
        i += 1;
    }
    assert(pv.take(pv.len() as int) =~= pv);
    Some(VariantMember { support_status: k.0, variant: k.1, pose: k.2, paths, bytes: total })
}

/// Once a prefix's total overflows, so does the whole.
proof fn lemma_total_prefix_none(sizes: Seq<(String, i64)>, paths: Seq<Seq<char>>, i: int)
    requires
        0 <= i <= paths.len(),
        checked_total(sizes, paths.take(i)) is None,
    ensures
        checked_total(sizes, paths) is None,
    decreases paths.len() - i,
{
    if i < paths.len() {
        assert(paths.take(i + 1).drop_last() =~= paths.take(i));
        lemma_total_prefix_none(sizes, paths, i + 1);
    } else {
        assert(paths.take(i) =~= paths);
    }
}

/// Once a prefix's values overflow, so do all of them.
proof fn lemma_values_prefix_none(entries: Seq<(Seq<char>, i64)>, i: int)
    requires
        0 <= i <= entries.len(),
        checked_values(entries.take(i)) is None,
    ensures
        checked_values(entries) is None,
    decreases entries.len() - i,
{
    if i < entries.len() {
        assert(entries.take(i + 1).drop_last() =~= entries.take(i));
        lemma_values_prefix_none(entries, i + 1);
    } else {
        assert(entries.take(i) =~= entries);
    }
}

/// `members`, `residual` and `residual_bytes` are how the assignments
/// `rows` fan out over the indexed files `sizes` (see [`fan_out`]).
pub open spec fn fan_out_ok(
    rows: Seq<FileVariant>,
    sizes: Seq<(String, i64)>,
    members: Seq<VariantMember>,
    residual: Seq<String>,
    residual_bytes: i64,
) -> bool {
    &&& keys_cover(members.map_values(|m: VariantMember| member_key(m)), rows, rows.len() as int)
    &&& forall|g: int| 0 <= g < members.len() ==> texts((#[trigger] members[g]).paths@)
        == paths_with(rows, member_key(members[g]), rows.len() as int)
    &&& forall|g: int| 0 <= g < members.len() ==> checked_total(sizes, texts((#[trigger] members[g]).paths@))
        == Some(members[g].bytes as int)
    &&& texts(residual) == unclaimed(sizes, rows, sizes.len() as int).map_values(|e: (Seq<char>, i64)| e.0)
    &&& checked_values(unclaimed(sizes, rows, sizes.len() as int)) == Some(residual_bytes as int)
}

/// The members a folder with file assignments fans out into, and its
/// residual. Each assigned file (one that names a pose) joins the member
/// of its (support, variant, pose) key; members come in key order, each
/// with its files in row order and their bytes as the files table records
/// them (`sizes`: path and size of each indexed file, in path order). The
/// residual is every indexed file no assignment claims, in that order,
/// with its bytes. `None` when some member's or the residual's bytes
/// overflow.
pub fn fan_out(rows: &Vec<FileVariant>, sizes: &Vec<(String, i64)>) -> (r: Option<(Vec<VariantMember>, Vec<String>, i64)>)
    ensures
        r matches Some((members, residual, residual_bytes)) ==> fan_out_ok(rows@, sizes@, members@, residual@, residual_bytes),
        r is None ==> (exists|n: int|
            0 <= n < rows@.len() && is_assigned(#[trigger] rows@[n]) && checked_total(
                sizes@,
                paths_with(rows@, key_of(rows@[n]), rows@.len() as int),
            ) is None) || checked_values(unclaimed(sizes@, rows@, sizes@.len() as int)) is None,
{
    let keys = member_keys(rows);
    let ghost kv = keys@.map_values(|k: KeyParts| key_view(k));
    let mut members: Vec<VariantMember> = Vec::new();
    let mut g: usize = 0;
    while g < keys.len()
        invariant
            0 <= g <= keys.len(),
            kv == keys@.map_values(|k: KeyParts| key_view(k)),
            keys_cover(kv, rows@, rows@.len() as int),
            members@.len() == g,
            forall|x: int| 0 <= x < g ==> member_key(#[trigger] members@[x]) == kv[x],
            forall|x: int| 0 <= x < g ==> texts((#[trigger] members@[x]).paths@)
                == paths_with(rows@, member_key(members@[x]), rows@.len() as int),
            forall|x: int| 0 <= x < g ==> checked_total(sizes@, texts((#[trigger] members@[x]).paths@))
                == Some(members@[x].bytes as int),
        decreases keys.len() - g,
    {
        let k = (copy_opt(&keys[g].0), string_of(&chars_of(keys[g].1.as_str())), string_of(&chars_of(keys[g].2.as_str())));
        assert(key_view(k) == kv[g as int]);
        match member_for(rows, sizes, k) {
            Some(m) => {
                members.push(m);
            },
            None => {
                proof {
                    assert(named_by(kv[g as int], rows@, rows@.len() as int));
                    let n = choose|n: int| 0 <= n < rows@.len() && is_assigned(rows@[n]) && #[trigger] key_of(rows@[n]) == kv[g as int];
                    assert(is_assigned(rows@[n]));
                    assert(checked_total(sizes@, paths_with(rows@, key_of(rows@[n]), rows@.len() as int)) is None);
                }
                return None;
            },
        }
        g += 1;
    }
    assert(members@.map_values(|m: VariantMember| member_key(m)) =~= kv);
    let mut residual: Vec<String> = Vec::new();
    let mut rbytes: i64 = 0;
    let mut j: usize = 0;
    while j < sizes.len()
        invariant
            0 <= j <= sizes.len(),
            texts(residual@) == unclaimed(sizes@, rows@, j as int).map_values(|e: (Seq<char>, i64)| e.0),
            checked_values(unclaimed(sizes@, rows@, j as int)) == Some(rbytes as int),
        decreases sizes.len() - j,
    {
        if !is_claimed(rows, &sizes[j].0) {
            let ghost pre = unclaimed(sizes@, rows@, j as int);
            let ghost post = unclaimed(sizes@, rows@, j + 1);
            assert(post == pre.push((sizes@[j as int].0@, sizes@[j as int].1)));
            assert(post.drop_last() =~= pre);
            match add_checked(rbytes, sizes[j].1) {
                Some(t) => {
                    rbytes = t;
                },
                None => {
                    proof {
                        lemma_unclaimed_prefix(sizes@, rows@, j + 1);
                        let all = unclaimed(sizes@, rows@, sizes@.len() as int);
                        assert(all.take(post.len() as int) =~= post);
                        lemma_values_prefix_none(all, post.len() as int);
                    }
                    return None;
                },
            }
            let ghost tpre = texts(residual@);
            residual.push(string_of(&chars_of(sizes[j].0.as_str())));
            assert(texts(residual@) =~= tpre.push(sizes@[j as int].0@));
            assert(post.map_values(|e: (Seq<char>, i64)| e.0) =~= pre.map_values(|e: (Seq<char>, i64)| e.0).push(sizes@[j as int].0@));
        }
        j += 1;
    }
    Some((members, residual, rbytes))
}

/// The unclaimed entries of a prefix of the sizes are a prefix of all the
/// unclaimed entries.
proof fn lemma_unclaimed_prefix(sizes: Seq<(String, i64)>, rows: Seq<FileVariant>, m: int)
    requires
        0 <= m <= sizes.len(),
    ensures
        unclaimed(sizes, rows, m).len() <= unclaimed(sizes, rows, sizes.len() as int).len(),
        unclaimed(sizes, rows, sizes.len() as int).take(unclaimed(sizes, rows, m).len() as int) == unclaimed(sizes, rows, m),
    decreases sizes.len() - m,
{
    if m < sizes.len() {
        lemma_unclaimed_prefix(sizes, rows, m + 1);
        let a = unclaimed(sizes, rows, m);
        let b = unclaimed(sizes, rows, m + 1);
        let all = unclaimed(sizes, rows, sizes.len() as int);
        if b.len() > a.len() {
            assert(b.drop_last() == a);
            assert(all.take(a.len() as int) =~= b.take(a.len() as int));
            assert(b.take(a.len() as int) =~= a);
        }
    } else {
        let all = unclaimed(sizes, rows, sizes.len() as int);
        assert(all.take(all.len() as int) =~= all);
    }
}

/// The label of a member: the folder's name, then its variant and its
/// pose, each after a space, where set.
pub open spec fn member_label_text(name: Seq<char>, variant: Seq<char>, pose: Seq<char>) -> Seq<char> {
    let a = if variant.len() > 0 { name + " "@ + variant } else { name };
    if pose.len() > 0 { a + " "@ + pose } else { a }
}

/// Labels a member, as in "mob sword 2".
pub fn member_label(name: &str, variant: &str, pose: &str) -> (r: String)
    ensures
        r@ == member_label_text(name@, variant@, pose@),
{
    let mut v = chars_of(name);
    if variant.unicode_len() > 0 {
        append_str(&mut v, " ");
        append_str(&mut v, variant);
    }
    if pose.unicode_len() > 0 {
        append_str(&mut v, " ");
        append_str(&mut v, pose);
    }
    string_of(&v)
}


/// One catalog member a folder shows as once its assignments fan it out.
#[derive(Debug, Clone)]
pub struct FannedMember {
    pub name: String,
    pub variant: Option<String>,
    pub pose: Option<String>,
    pub support_status: Option<String>,
    pub file_count: u32,
    pub total_size_bytes: i64,
    pub preview_path: Option<String>,
    pub variant_key: String,
}

/// `t` when it is not empty.
pub open spec fn nonempty_text(t: Seq<char>) -> Option<Seq<char>> {
    if t.len() > 0 {
        Some(t)
    } else {
        None
    }
}

/// The render recorded for member key `key`: the first entry for it, from
/// `j` on.
pub open spec fn preview_for(previews: Seq<(String, String)>, key: Seq<char>, j: int) -> Option<Seq<char>>
    decreases previews.len() - j,
{
    if j < 0 || j >= previews.len() {
        None
    } else if previews[j].0@ == key {
        Some(previews[j].1@)
    } else {
        preview_for(previews, key, j + 1)
    }
}

/// A member's own render when one is recorded for its key, else the
/// folder's.
pub open spec fn preview_or(previews: Seq<(String, String)>, key: Seq<char>, folder: Option<Seq<char>>) -> Option<Seq<char>> {
    match preview_for(previews, key, 0) {
        Some(p) => Some(p),
        None => folder,
    }
}

/// `f` is the catalog member shown for fan-out member `m` of the folder
/// named `name` at `dir`, whose own support status and preview are
/// `support` and `preview`.
pub open spec fn member_fits(
    f: FannedMember,
    m: VariantMember,
    name: Seq<char>,
    dir: Seq<char>,
    support: Option<Seq<char>>,
    preview: Option<Seq<char>>,
    previews: Seq<(String, String)>,
) -> bool {
    &&& f.name@ == member_label_text(name, m.variant@, m.pose@)
    &&& opt_seq(f.variant) == nonempty_text(m.variant@)
    &&& opt_seq(f.pose) == nonempty_text(m.pose@)
    &&& opt_seq(f.support_status) == (if m.support_status is Some { opt_seq(m.support_status) } else { support })
    &&& f.file_count == m.paths@.len() as u32
    &&& f.total_size_bytes == m.bytes
    &&& f.variant_key@ == variant_key_text(dir, m.variant@, m.pose@)
    &&& opt_seq(f.preview_path) == preview_or(previews, f.variant_key@, preview)
}

/// `f` is the residual member shown for the folder's unassigned files.
pub open spec fn residual_fits(
    f: FannedMember,
    residual: Seq<String>,
    residual_bytes: i64,
    name: Seq<char>,
    dir: Seq<char>,
    support: Option<Seq<char>>,
    preview: Option<Seq<char>>,
    previews: Seq<(String, String)>,
) -> bool {
    &&& f.name@ == name + " (unassigned)"@
    &&& f.variant is None
    &&& f.pose is None
    &&& opt_seq(f.support_status) == support
    &&& f.file_count == residual.len() as u32
    &&& f.total_size_bytes == residual_bytes
    &&& f.variant_key@ == variant_key_text(dir, ""@, ""@)
    &&& opt_seq(f.preview_path) == preview_or(previews, f.variant_key@, preview)
}

fn preview_lookup(previews: &Vec<(String, String)>, key: &String, folder: &Option<String>) -> (r: Option<String>)
    ensures
        opt_seq(r) == preview_or(previews@, key@, opt_seq(*folder)),
{
    let mut j: usize = 0;
    while j < previews.len()
        invariant
            0 <= j <= previews.len(),
            preview_for(previews@, key@, 0) == preview_for(previews@, key@, j as int),
        decreases previews.len() - j,
    {
        if same_text(&previews[j].0, key) {
            return Some(string_of(&chars_of(previews[j].1.as_str())));
        }
        j += 1;
    }
    copy_opt(folder)
}

fn nonempty(t: &String) -> (r: Option<String>)
    ensures
        opt_seq(r) == nonempty_text(t@),
{
    if t.as_str().unicode_len() > 0 {
        Some(string_of(&chars_of(t.as_str())))
    } else {
        None
    }
}

/// The catalog members a fanned-out folder shows: one per fan-out member,
/// labelled and keyed by its variant and pose, with its files' count and
/// bytes and its own render (else the folder's), its support status
/// falling back to the folder's; then, when some files are unassigned, a
/// residual member `{name} (unassigned)` holding them.
pub fn assemble_members(
    members: &Vec<VariantMember>,
    residual: &Vec<String>,
    residual_bytes: i64,
    name: &str,
    dir_path: &str,
    support: &Option<String>,
    preview: &Option<String>,
    previews: &Vec<(String, String)>,
) -> (r: Vec<FannedMember>)
    ensures
        r@.len() == members@.len() + if residual@.len() > 0 { 1int } else { 0int },
        forall|g: int| 0 <= g < members@.len() ==> member_fits(
            #[trigger] r@[g],
            members@[g],
            name@,
            dir_path@,
            opt_seq(*support),
            opt_seq(*preview),
            previews@,
        ),
        residual@.len() > 0 ==> residual_fits(
            r@[members@.len() as int],
            residual@,
            residual_bytes,
            name@,
            dir_path@,
            opt_seq(*support),
            opt_seq(*preview),
            previews@,
        ),
{
    let mut out: Vec<FannedMember> = Vec::new();
    let mut g: usize = 0;
    while g < members.len()
        invariant
            0 <= g <= members.len(),
            out@.len() == g,
            forall|x: int| 0 <= x < g ==> member_fits(
                #[trigger] out@[x],
                members@[x],
                name@,
                dir_path@,
                opt_seq(*support),
                opt_seq(*preview),
                previews@,
            ),
        decreases members.len() - g,
    {
        let m = &members[g];
        let key = variant_key(dir_path, m.variant.as_str(), m.pose.as_str());
        let sup = match &m.support_status {
            Some(x) => Some(string_of(&chars_of(x.as_str()))),
            None => copy_opt(support),
        };
        let f = FannedMember {
            name: member_label(name, m.variant.as_str(), m.pose.as_str()),
            variant: nonempty(&m.variant),
            pose: nonempty(&m.pose),
            support_status: sup,
            file_count: m.paths.len() as u32,
            total_size_bytes: m.bytes,
            preview_path: preview_lookup(previews, &key, preview),
            variant_key: key,
        };
        out.push(f);
        g += 1;
    }
    if residual.len() > 0 {
        let key = variant_key(dir_path, "", "");
        let mut label = chars_of(name);
        append_str(&mut label, " (unassigned)");
        let f = FannedMember {
            name: string_of(&label),
            variant: None,
            pose: None,
            support_status: copy_opt(support),
            file_count: residual.len() as u32,
            total_size_bytes: residual_bytes,
            preview_path: preview_lookup(previews, &key, preview),
            variant_key: key,
        };
        out.push(f);
    }
    out
}

/// How a catalog folder shows: unchanged when none of its files carries a
/// pose, else as the members its assignments fan it out into.
#[derive(Debug, Clone)]
pub enum FolderFan {
    PassThrough,
    Members(Vec<FannedMember>),
}

/// How the folder named `name` at `dir_path` shows, given its files' pose
/// assignments `rows`, the indexed files' sizes `sizes` (in path order),
/// the renders recorded per member key `previews`, and the folder's own
/// support status and preview: unchanged when no file carries a pose;
/// else its fan-out members (see [`fan_out`]) then its residual, as
/// [`assemble_members`] shows them; `None` when some member's or the
/// residual's bytes overflow.
pub fn expand_folder(
    rows: &Vec<FileVariant>,
    sizes: &Vec<(String, i64)>,
    name: &str,
    dir_path: &str,
    support: &Option<String>,
    preview: &Option<String>,
    previews: &Vec<(String, String)>,
) -> (r: Option<FolderFan>)
    ensures
        !(exists|n: int| 0 <= n < rows@.len() && is_assigned(#[trigger] rows@[n])) ==> r matches Some(FolderFan::PassThrough),
        (exists|n: int| 0 <= n < rows@.len() && is_assigned(#[trigger] rows@[n])) ==> {
            &&& r is None ==> (exists|n: int|
                0 <= n < rows@.len() && is_assigned(#[trigger] rows@[n]) && checked_total(
                    sizes@,
                    paths_with(rows@, key_of(rows@[n]), rows@.len() as int),
                ) is None) || checked_values(unclaimed(sizes@, rows@, sizes@.len() as int)) is None
            &&& r matches Some(fan) ==> (fan matches FolderFan::Members(v) && exists|members: Seq<VariantMember>, residual: Seq<String>, rb: i64| {
                &&& #[trigger] fan_out_ok(rows@, sizes@, members, residual, rb)
                &&& v@.len() == members.len() + if residual.len() > 0 { 1int } else { 0int }
                &&& forall|g: int| 0 <= g < members.len() ==> member_fits(
                    #[trigger] v@[g],
                    members[g],
                    name@,
                    dir_path@,
                    opt_seq(*support),
                    opt_seq(*preview),
                    previews@,
                )
                &&& residual.len() > 0 ==> residual_fits(
                    v@[members.len() as int],
                    residual,
                    rb,
                    name@,
                    dir_path@,
                    opt_seq(*support),
                    opt_seq(*preview),
                    previews@,
                )
            })
        },
{
    let mut any = false;
    let mut n: usize = 0;
    while n < rows.len()
        invariant
            0 <= n <= rows.len(),
            any == exists|k: int| 0 <= k < n && is_assigned(#[trigger] rows@[k]),
        decreases rows.len() - n,
    {
        if assigned(&rows[n]) {
            any = true;
        }
        n += 1;
    }
    if !any {
        return Some(FolderFan::PassThrough);
    }
    match fan_out(rows, sizes) {
        None => None,
        Some((members, residual, rb)) => {
            let v = assemble_members(&members, &residual, rb, name, dir_path, support, preview, previews);
            proof {
                assert(fan_out_ok(rows@, sizes@, members@, residual@, rb));
            }
            Some(FolderFan::Members(v))
        },
    }
}

} // verus!
