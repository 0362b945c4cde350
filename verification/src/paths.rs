//! Lexical path rules for catalog roots and the containment checks built
//! on them. These work on the characters of a path, never on the host's
//! idea of a path: a catalog written on Windows must be read correctly on
//! any machine, so both `/` and `\` separate segments here.
use vstd::prelude::*;
use crate::text::{chars_of, is_ascii_alpha, slice, starts_with, starts_with_exec, string_of, chars_eq};

verus! {

/// Either spelling of the separator counts.
pub open spec fn is_sep(c: char) -> bool {
    c == '/' || c == '\\'
}

/// Index of the first separator at or after `i`, or `p.len()` when none.
pub open spec fn first_sep_from(p: Seq<char>, i: int) -> int
    decreases p.len() - i,
{
    if i >= p.len() {
        p.len() as int
    } else if i >= 0 && is_sep(p[i]) {
        i
    } else {
        first_sep_from(p, i + 1)
    }
}

/// Length of the filesystem root `p` starts with: a POSIX `/`, a drive
/// (`Z:` or `Z:\`), or a UNC share (`\\server\share`). Relative paths have
/// none. An incomplete UNC spelling falls back to its leading separator.
pub open spec fn root_len(p: Seq<char>) -> Option<int> {
    if p.len() >= 2 && is_sep(p[0]) && is_sep(p[1]) {
        let server_end = first_sep_from(p, 2);
        if server_end < p.len() {
            let share_start = server_end + 1;
            let share_end = first_sep_from(p, share_start);
            if server_end > 2 && share_end > share_start {
                Some(share_end)
            } else {
                Some(1)
            }
        } else {
            Some(1)
        }
    } else if p.len() >= 2 && is_ascii_alpha(p[0]) && p[1] == ':' {
        if p.len() > 2 && is_sep(p[2]) {
            Some(3)
        } else {
            Some(2)
        }
    } else if p.len() >= 1 && is_sep(p[0]) {
        Some(1)
    } else {
        None
    }
}

/// `p` with trailing separators removed, never cutting into its first `keep`
/// characters.
pub open spec fn trim_seps_above(p: Seq<char>, keep: int) -> Seq<char>
    decreases p.len(),
{
    if p.len() > keep && p.len() > 0 && is_sep(p.last()) {
        trim_seps_above(p.drop_last(), keep)
    } else {
        p
    }
}

/// The canonical spelling of a catalog root: redundant trailing separators
/// gone, the root itself left absolute, and a bare drive (`Z:`, which is
/// drive-relative) completed to `Z:\`.
pub open spec fn normalized(p: Seq<char>) -> Seq<char> {
    match root_len(p) {
        Some(r) => if r == 2 && p.len() == 2 {
            p.push('\\')
        } else {
            trim_seps_above(p, r)
        },
        None => {
            let t = trim_seps_above(p, 0);
            if t.len() == 0 {
                p
            } else {
                t
            }
        },
    }
}

/// `p` ends in a separator.
pub open spec fn ends_with_sep(p: Seq<char>) -> bool {
    p.len() > 0 && is_sep(p.last())
}

/// `child` is `base` or lies beneath it, segment-wise, once both are
/// normalized.
pub open spec fn under(child: Seq<char>, base: Seq<char>) -> bool {
    let c = normalized(child);
    let b = normalized(base);
    ||| c == b
    ||| starts_with(c, b) && c.len() > b.len() && (ends_with_sep(b) || is_sep(c[b.len() as int]))
}

/// Index of the last separator in `p`, if any.
pub open spec fn last_sep(p: Seq<char>) -> Option<int>
    decreases p.len(),
{
    if p.len() == 0 {
        None
    } else if is_sep(p.last()) {
        Some(p.len() - 1)
    } else {
        last_sep(p.drop_last())
    }
}

fn is_sep_exec(c: char) -> (b: bool)
    ensures
        b == is_sep(c),
{
    c == '/' || c == '\\'
}

fn first_sep_from_exec(p: &Vec<char>, i: usize) -> (r: usize)
    requires
        i <= p.len(),
    ensures
        r == first_sep_from(p@, i as int),
        i <= r <= p.len(),
{
    let mut k = i;
    while k < p.len() && !is_sep_exec(p[k])
        invariant
            i <= k <= p.len(),
            first_sep_from(p@, i as int) == first_sep_from(p@, k as int),
        decreases p.len() - k,
    {
        k += 1;
    }
    k
}

fn root_len_exec(p: &Vec<char>) -> (r: Option<usize>)
    ensures
        r.is_some() == root_len(p@).is_some(),
        r.is_some() ==> r.unwrap() == root_len(p@).unwrap(),
        r.is_some() ==> r.unwrap() <= p.len(),
{
    if p.len() >= 2 && is_sep_exec(p[0]) && is_sep_exec(p[1]) {
        let server_end = first_sep_from_exec(p, 2);
        if server_end < p.len() {
            let share_start = server_end + 1;
            let share_end = first_sep_from_exec(p, share_start);
            if server_end > 2 && share_end > share_start {
                return Some(share_end);
            }
        }
        return Some(1);
    }
    if p.len() >= 2 && (('a' <= p[0] && p[0] <= 'z') || ('A' <= p[0] && p[0] <= 'Z')) && p[1]
        == ':' {
        return Some(if p.len() > 2 && is_sep_exec(p[2]) { 3 } else { 2 });
    }
    if p.len() >= 1 && is_sep_exec(p[0]) {
        return Some(1);
    }
    None
}

/// Length of `p` once trailing separators above `keep` are removed.
fn trimmed_len(p: &Vec<char>, keep: usize) -> (end: usize)
    ensures
        end <= p.len(),
        trim_seps_above(p@, keep as int) == p@.take(end as int),
{
    let mut end = p.len();
    assert(p@.take(end as int) =~= p@);
    while end > keep && end > 0 && is_sep_exec(p[end - 1])
        invariant
            end <= p.len(),
            trim_seps_above(p@, keep as int) == trim_seps_above(p@.take(end as int), keep as int),
        decreases end,
    {
        assert(p@.take(end as int).drop_last() =~= p@.take(end - 1));
        end -= 1;
    }
    end
}

/// [`normalized`] on a character vector.
pub fn normalize_chars(p: &Vec<char>) -> (r: Vec<char>)
    ensures
        r@ == normalized(p@),
{
    match root_len_exec(p) {
        Some(root) => {
            if root == 2 && p.len() == 2 {
                let mut out = slice(p, 0, 2);
                assert(out@ =~= p@);
                out.push('\\');
                out
            } else {
                let end = trimmed_len(p, root);
                slice(p, 0, end)
            }
        },
        None => {
            let end = trimmed_len(p, 0);
            if end == 0 {
                slice(p, 0, p.len())
            } else {
                slice(p, 0, end)
            }
        },
    }
}

/// The canonical spelling of a catalog root: redundant trailing separators
/// gone, the root itself left absolute. `Z:\Designer\` and `Z:\Designer`
/// name the same folder, but `Z:\` and `Z:` do not — the second is
/// drive-relative — so a bare drive is completed rather than left alone.
pub fn normalize_root(path: &str) -> (r: String)
    ensures
        r@ == normalized(path@),
{
    let p = chars_of(path);
    let n = normalize_chars(&p);
    string_of(&n)
}

/// [`under`] on character vectors.
pub fn is_under_chars(child: &Vec<char>, base: &Vec<char>) -> (r: bool)
    ensures
        r == under(child@, base@),
{
    let c = normalize_chars(child);
    let b = normalize_chars(base);
    if chars_eq(&c, &b) {
        return true;
    }
    if !starts_with_exec(&c, &b) || c.len() <= b.len() {
        return false;
    }
    if b.len() > 0 && is_sep_exec(b[b.len() - 1]) {
        true
    } else {
        is_sep_exec(c[b.len()])
    }
}

/// `child` is `base` itself or lies beneath it, by path segment —
/// `/lib/ab` is not under `/lib/a`. Both sides are normalized first, so a
/// trailing separator on either changes nothing, and a root base (`Z:\`,
/// `/`) contains its children.
pub fn is_under(child: &str, base: &str) -> (r: bool)
    ensures
        r == under(child@, base@),
{
    let c = chars_of(child);
    let b = chars_of(base);
    is_under_chars(&c, &b)
}

/// `std::path::MAIN_SEPARATOR`, the host's preferred separator.
#[verifier::external_body]
fn main_separator() -> (c: char)
    ensures
        is_sep(c),
{
    std::path::MAIN_SEPARATOR
}

fn last_sep_exec(p: &Vec<char>) -> (r: Option<usize>)
    ensures
        r.is_some() == last_sep(p@).is_some(),
        r.is_some() ==> r.unwrap() == last_sep(p@).unwrap() && r.unwrap() < p.len(),
{
    let mut end = p.len();
    assert(p@.take(end as int) =~= p@);
    while end > 0 && !is_sep_exec(p[end - 1])
        invariant
            end <= p.len(),
            last_sep(p@) == last_sep(p@.take(end as int)),
        decreases end,
    {
        assert(p@.take(end as int).drop_last() =~= p@.take(end - 1));
        end -= 1;
    }
    if end == 0 {
        None
    } else {
        Some(end - 1)
    }
}

/// The "inside this root" prefix of a normalized root `n`: `n` itself when
/// it ends in a separator, else `n` and its last separator, else `n` and
/// `fallback`.
pub open spec fn prefix_for(n: Seq<char>, fallback: char) -> Seq<char> {
    if ends_with_sep(n) {
        n
    } else if last_sep(n) is Some {
        n.push(n[last_sep(n).unwrap()])
    } else {
        n.push(fallback)
    }
}

/// The literal prefix that means "inside this root", for scoping queries
/// that cannot call back into the path rules: the normalized root followed
/// by one separator, never doubling a separator the root already ends in.
/// The separator comes from the path itself; only a root that holds none
/// falls back to the host's.
pub fn child_prefix(root: &str) -> (r: String)
    ensures
        exists|f: char| is_sep(f) && r@ == #[trigger] prefix_for(normalized(root@), f),
        ends_with_sep(normalized(root@)) ==> r@ == normalized(root@),
        !ends_with_sep(normalized(root@)) && last_sep(normalized(root@)).is_some() ==> r@
            == normalized(root@).push(normalized(root@)[last_sep(normalized(root@)).unwrap()]),
        !ends_with_sep(normalized(root@)) && last_sep(normalized(root@)).is_none() ==> r@
            == normalized(root@).push('/') || r@ == normalized(root@).push('\\'),
{
    let p = chars_of(root);
    let mut n = normalize_chars(&p);
    let ghost nv = n@;
    if n.len() > 0 && is_sep_exec(n[n.len() - 1]) {
        assert(prefix_for(nv, '/') == nv);
        return string_of(&n);
    }
    let sep = match last_sep_exec(&n) {
        Some(i) => n[i],
        None => main_separator(),
    };
    n.push(sep);
    proof {
        lemma_last_sep(nv);
        assert(is_sep(sep));
        assert(n@ == prefix_for(nv, sep));
    }
    string_of(&n)
}


/// What `Path::file_name` gives for a path: its final component, when
/// that is a normal one (the component rules are the host's).
pub uninterp spec fn file_name_of(p: Seq<char>) -> Option<Seq<char>>;

/// Index of the last `.` in `s`, if any.
pub open spec fn last_dot(s: Seq<char>) -> Option<int>
    decreases s.len(),
{
    if s.len() == 0 {
        None
    } else if s.last() == '.' {
        Some(s.len() - 1)
    } else {
        last_dot(s.drop_last())
    }
}

/// The extension of a file name as `Path::extension` documents it: the
/// part after the final `.`, except when there is no `.` or the only one
/// starts the name.
pub open spec fn extension_of_name(name: Seq<char>) -> Option<Seq<char>> {
    match last_dot(name) {
        Some(k) => if k == 0 {
            None
        } else {
            Some(name.subrange(k + 1, name.len() as int))
        },
        None => None,
    }
}

/// The extension `Path::extension` gives for path `p`.
pub open spec fn extension_of(p: Seq<char>) -> Option<Seq<char>> {
    match file_name_of(p) {
        Some(n) => extension_of_name(n),
        None => None,
    }
}

/// An optional string, by its characters.
pub open spec fn opt_chars(o: Option<String>) -> Option<Seq<char>> {
    match o {
        Some(s) => Some(s@),
        None => None,
    }
}

/// `Path::file_name` of `p`, as text.
#[verifier::external_body]
pub(crate) fn path_file_name(p: &str) -> (r: Option<String>)
    ensures
        opt_chars(r) == file_name_of(p@),
{
    std::path::Path::new(p).file_name().map(|n| n.to_string_lossy().into_owned())
}

/// The extension of a file name, by the rule `Path::extension` documents.
fn name_extension(name: &String) -> (r: Option<String>)
    ensures
        opt_chars(r) == extension_of_name(name@),
{
    let v = chars_of(name.as_str());
    let mut k = v.len();
    assert(v@.take(k as int) =~= v@);
    while k > 0 && v[k - 1] != '.'
        invariant
            k <= v.len(),
            last_dot(v@) == last_dot(v@.take(k as int)),
        decreases k,
    {
        assert(v@.take(k as int).drop_last() =~= v@.take(k - 1));
        k -= 1;
    }
    if k <= 1 {
        proof {
            if k == 1 {
                assert(v@.take(1).last() == '.');
            }
        }
        return None;
    }
    assert(v@.take(k as int).last() == '.');
    Some(string_of(&slice(&v, k, v.len())))
}

/// `Path::extension` of `p`, as text: the documented rule applied to the
/// path's file name.
pub(crate) fn path_extension(p: &str) -> (r: Option<String>)
    ensures
        opt_chars(r) == extension_of(p@),
{
    match path_file_name(p) {
        Some(n) => name_extension(&n),
        None => None,
    }
}


/// `first_sep_from` on a prefix sees the same separators, up to its end.
proof fn lemma_first_sep_prefix(p: Seq<char>, n: int, i: int)
    requires
        0 <= i <= n <= p.len(),
    ensures
        first_sep_from(p.take(n), i) == if first_sep_from(p, i) < n { first_sep_from(p, i) } else { n },
    decreases n - i,
{
    if i < n {
        assert(p.take(n)[i] == p[i]);
        if !is_sep(p[i]) {
            lemma_first_sep_prefix(p, n, i + 1);
        }
    }
    lemma_first_sep_bounds(p, i);
}

proof fn lemma_first_sep_bounds(p: Seq<char>, i: int)
    requires
        0 <= i,
    ensures
        i <= first_sep_from(p, i) || i > p.len(),
        first_sep_from(p, i) <= p.len(),
        first_sep_from(p, i) < p.len() ==> is_sep(p[first_sep_from(p, i)]),
    decreases p.len() - i,
{
    if i < p.len() && !is_sep(p[i]) {
        lemma_first_sep_bounds(p, i + 1);
    }
}

/// Trimming keeps a prefix of at least `keep` characters (when there are
/// that many), and stops at a character that is not a separator unless it
/// reached `keep`.
proof fn lemma_trim_prefix(p: Seq<char>, keep: int)
    requires
        0 <= keep,
    ensures
        trim_seps_above(p, keep).len() <= p.len(),
        trim_seps_above(p, keep) == p.take(trim_seps_above(p, keep).len() as int),
        p.len() >= keep ==> trim_seps_above(p, keep).len() >= keep,
        p.len() < keep ==> trim_seps_above(p, keep) == p,
        trim_seps_above(p, keep).len() > keep ==> !is_sep(trim_seps_above(p, keep).last()),
        trim_seps_above(p, keep).len() > 0 && trim_seps_above(p, keep).len() >= keep ==> (trim_seps_above(p, keep).len() == keep
            || !is_sep(trim_seps_above(p, keep).last())),
    decreases p.len(),
{
    if p.len() > keep && p.len() > 0 && is_sep(p.last()) {
        lemma_trim_prefix(p.drop_last(), keep);
        let t = trim_seps_above(p.drop_last(), keep);
        assert(p.drop_last().take(t.len() as int) =~= p.take(t.len() as int));
    } else {
        assert(p.take(p.len() as int) =~= p);
    }
}

/// Trimming twice trims no more.
proof fn lemma_trim_idempotent(p: Seq<char>, keep: int)
    requires
        0 <= keep,
    ensures
        trim_seps_above(trim_seps_above(p, keep), keep) == trim_seps_above(p, keep),
{
    lemma_trim_prefix(p, keep);
}

/// A prefix that keeps the whole root has the same root.
proof fn lemma_root_len_prefix(p: Seq<char>, m: int)
    requires
        root_len(p) matches Some(r) && r <= m,
        m <= p.len(),
        m >= 1,
        root_len(p) == Some(2int) ==> m >= 3,
    ensures
        root_len(p.take(m)) == root_len(p),
{
    let t = p.take(m);
    let r = root_len(p).unwrap();
    if p.len() >= 2 && is_sep(p[0]) && is_sep(p[1]) {
        if m >= 2 {
            assert(t[0] == p[0] && t[1] == p[1]);
            lemma_first_sep_prefix(p, m, 2);
            lemma_first_sep_bounds(p, 2);
            let server_end = first_sep_from(p, 2);
            if server_end < p.len() {
                let share_start = server_end + 1;
                lemma_first_sep_bounds(p, share_start);
                let share_end = first_sep_from(p, share_start);
                if server_end < m {
                    if share_start <= m {
                        lemma_first_sep_prefix(p, m, share_start);
                    }
                }
            }
        }
    } else if p.len() >= 2 && is_ascii_alpha(p[0]) && p[1] == ':' {
        assert(t[0] == p[0] && t[1] == p[1]);
        if p.len() > 2 && is_sep(p[2]) {
            assert(t[2] == p[2]);
        } else {
            if t.len() > 2 {
                assert(t[2] == p[2]);
            }
        }
    } else {
        assert(t[0] == p[0]);
        if m >= 2 {
            assert(t[1] == p[1]);
        }
    }
}

/// Normalizing a catalog root twice changes nothing: the canonical
/// spelling is canonical.
pub proof fn normalize_root_idempotent(p: Seq<char>)
    ensures
        normalized(normalized(p)) == normalized(p),
{
    match root_len(p) {
        Some(r) => {
            if r == 2 && p.len() == 2 {
                let q = p.push('\\');
                assert(q[0] == p[0] && q[1] == p[1] && q[2] == '\\');
                assert(root_len(q) == Some(3int));
                assert(trim_seps_above(q, 3) == q);
            } else {
                let t = trim_seps_above(p, r);
                assert(1 <= r <= p.len()) by {
                    lemma_first_sep_bounds(p, 2);
                    if p.len() >= 2 && is_sep(p[0]) && is_sep(p[1]) {
                        let server_end = first_sep_from(p, 2);
                        if server_end < p.len() {
                            lemma_first_sep_bounds(p, server_end + 1);
                        }
                    }
                }
                lemma_trim_prefix(p, r);
                if r == 2 {
                    assert(p.len() > 2 && !is_sep(p[2]));
                    assert(t.len() >= 3) by {
                        if t.len() == 2 {
                            assert(p.len() > 2 && is_sep(p[2]) || t.len() != 2) by {
                                lemma_trim_short(p, 2);
                            }
                        }
                    }
                }
                lemma_root_len_prefix(p, t.len() as int);
                lemma_trim_idempotent(p, r);
            }
        },
        None => {
            let t = trim_seps_above(p, 0);
            lemma_trim_prefix(p, 0);
            if t.len() == 0 {
                if p.len() > 0 {
                    lemma_trim_short(p, 0);
                }
            } else {
                let tt = t;
                assert(tt[0] == p[0]);
                if tt.len() >= 2 {
                    assert(tt[1] == p[1]);
                }
                assert(root_len(tt) is None);
                lemma_trim_idempotent(p, 0);
            }
        },
    }
}

/// Trimming down to exactly `keep` characters means the character at
/// `keep` was a separator.
proof fn lemma_trim_short(p: Seq<char>, keep: int)
    requires
        0 <= keep < p.len(),
        trim_seps_above(p, keep).len() == keep,
    ensures
        is_sep(p[keep]),
    decreases p.len(),
{
    if p.len() > keep && is_sep(p.last()) {
        if p.len() - 1 > keep {
            lemma_trim_short(p.drop_last(), keep);
            assert(p.drop_last()[keep] == p[keep]);
        }
    }
}

/// Every path lies under itself.
pub proof fn is_under_reflexive(p: Seq<char>)
    ensures
        under(p, p),
{
}

/// Containment does not depend on how either side is spelled: a trailing
/// separator (or any other difference normalization removes) on the child
/// or the base changes nothing.
pub proof fn is_under_ignores_spelling(child: Seq<char>, base: Seq<char>)
    ensures
        under(normalized(child), normalized(base)) == under(child, base),
        under(normalized(child), base) == under(child, base),
        under(child, normalized(base)) == under(child, base),
{
    normalize_root_idempotent(child);
    normalize_root_idempotent(base);
}


/// A bare drive `X:` is completed to `X:\`; any other path's canonical
/// spelling is a prefix of it: normalization only ever drops trailing
/// separators.
pub proof fn normalized_is_prefix_or_completed_drive(p: Seq<char>)
    ensures
        (p.len() == 2 && is_ascii_alpha(p[0]) && p[1] == ':') ==> normalized(p) == p.push('\\'),
        !(p.len() == 2 && is_ascii_alpha(p[0]) && p[1] == ':') ==> normalized(p).len() <= p.len() && normalized(p) == p.take(
            normalized(p).len() as int,
        ),
{
    match root_len(p) {
        Some(r) => {
            lemma_trim_prefix(p, r);
            if p.len() == 2 && is_ascii_alpha(p[0]) && p[1] == ':' {
                assert(!is_sep(p[0]));
            }
        },
        None => {
            lemma_trim_prefix(p, 0);
            assert(p.take(p.len() as int) =~= p);
        },
    }
}

/// No separator stands between `i` and the first separator from `i`.
proof fn lemma_before_first_sep(p: Seq<char>, i: int)
    requires
        0 <= i,
    ensures
        forall|k: int| i <= k < first_sep_from(p, i) && k < p.len() ==> !is_sep(#[trigger] p[k]),
    decreases p.len() - i,
{
    if i < p.len() && !is_sep(p[i]) {
        lemma_before_first_sep(p, i + 1);
    }
}

/// A canonical spelling that keeps a trailing separator is a whole root:
/// `/` or `\`, or a drive `X:/` or `X:\`.
pub proof fn trailing_separator_means_whole_root(p: Seq<char>)
    ensures
        ends_with_sep(normalized(p)) ==> {
            let n = normalized(p);
            ||| n.len() == 1 && is_sep(n[0])
            ||| n.len() == 3 && is_ascii_alpha(n[0]) && n[1] == ':' && is_sep(n[2])
        },
{
    let n = normalized(p);
    match root_len(p) {
        Some(r) => {
            lemma_first_sep_bounds(p, 2);
            if p.len() >= 2 && is_sep(p[0]) && is_sep(p[1]) {
                let server_end = first_sep_from(p, 2);
                if server_end < p.len() {
                    lemma_first_sep_bounds(p, server_end + 1);
                }
            }
            if r == 2 && p.len() == 2 {
                assert(n.last() == '\\');
                assert(n[0] == p[0] && n[1] == p[1] && n[2] == '\\');
            } else {
                lemma_trim_prefix(p, r);
                if p.len() >= 2 && is_sep(p[0]) && is_sep(p[1]) {
                    let server_end = first_sep_from(p, 2);
                    if server_end < p.len() {
                        lemma_before_first_sep(p, server_end + 1);
                        lemma_first_sep_bounds(p, server_end + 1);
                    }
                }
                if ends_with_sep(n) {
                    assert(n.len() == r);
                    assert(n == p.take(r));
                    assert(n[n.len() - 1] == p[n.len() - 1]);
                    if n.len() >= 1 {
                        assert(n[0] == p[0]);
                    }
                    if n.len() >= 3 {
                        assert(n[1] == p[1] && n[2] == p[2]);
                    }
                }
            }
        },
        None => {
            lemma_trim_prefix(p, 0);
            if ends_with_sep(n) {
                let t = trim_seps_above(p, 0);
                if t.len() == 0 {
                    assert(is_sep(p[p.len() - 1]));
                    lemma_trim_short(p, 0);
                }
            }
        },
    }
}


/// Every separator in `p` is `sep`.
pub open spec fn only_sep(p: Seq<char>, sep: char) -> bool {
    forall|i: int| 0 <= i < p.len() && is_sep(#[trigger] p[i]) ==> p[i] == sep
}

/// The last separator of `p`, when there is one, is a separator at that
/// index.
proof fn lemma_last_sep(p: Seq<char>)
    ensures
        last_sep(p) matches Some(k) ==> 0 <= k < p.len() && is_sep(p[k]),
        (exists|i: int| 0 <= i < p.len() && is_sep(#[trigger] p[i])) ==> last_sep(p) is Some,
    decreases p.len(),
{
    if p.len() > 0 && !is_sep(p.last()) {
        lemma_last_sep(p.drop_last());
        if exists|i: int| 0 <= i < p.len() && is_sep(#[trigger] p[i]) {
            let i = choose|i: int| 0 <= i < p.len() && is_sep(#[trigger] p[i]);
            assert(p.drop_last()[i] == p[i]);
        }
        if let Some(k) = last_sep(p.drop_last()) {
            assert(p.drop_last()[k] == p[k]);
        }
    }
}

/// [`child_prefix_matches_containment`], stated of the canonical
/// spellings.
proof fn lemma_prefix_containment(child: Seq<char>, root: Seq<char>, sep: char, fallback: char)
    requires
        is_sep(sep),
        only_sep(normalized(child), sep),
        only_sep(normalized(root), sep),
        normalized(root).contains(sep),
    ensures
        ({
            let c = normalized(child);
            let b = normalized(root);
            let cp = prefix_for(b, fallback);
            (starts_with(c, cp) && c != b) <==> (under(child, root) && c != b)
        }),
        ends_with_sep(prefix_for(normalized(root), fallback)),
        prefix_for(normalized(root), fallback).len() < 2 || !is_sep(
            prefix_for(normalized(root), fallback)[prefix_for(normalized(root), fallback).len() - 2],
        ),
        prefix_for(normalized(normalized(root)), fallback) == prefix_for(normalized(root), fallback),
{
    let c = normalized(child);
    let b = normalized(root);
    let cp = prefix_for(b, fallback);
    normalize_root_idempotent(root);
    trailing_separator_means_whole_root(root);
    lemma_last_sep(b);
    let i = choose|i: int| 0 <= i < b.len() && b[i] == sep;
    assert(is_sep(b[i]));
    if starts_with(c, b) && c.len() == b.len() {
        assert(c =~= c.take(b.len() as int));
    }
    if !ends_with_sep(b) {
        let k = last_sep(b).unwrap();
        assert(b[k] == sep);
        assert(cp == b.push(sep));
        if starts_with(c, cp) {
            assert(c.take(b.len() as int) =~= cp.take(b.len() as int));
            assert(cp.take(b.len() as int) =~= b);
            assert(c[b.len() as int] == cp[b.len() as int]);
        }
        if starts_with(c, b) && c.len() > b.len() && is_sep(c[b.len() as int]) {
            assert(only_sep(c, sep));
            assert(c[b.len() as int] == sep);
            assert(c.take(cp.len() as int) =~= cp);
        }
    }
}


/// A path under a base starts with the base, once both are normalized.
pub proof fn under_starts_with_base(child: Seq<char>, base: Seq<char>)
    requires
        under(child, base),
    ensures
        starts_with(normalized(child), normalized(base)),
{
    let c = normalized(child);
    if c == normalized(base) {
        assert(c.take(c.len() as int) =~= c);
    }
}

/// Containment is transitive: a path under a folder that is under a base
/// is under the base.
pub proof fn is_under_transitive(a: Seq<char>, b: Seq<char>, c: Seq<char>)
    requires
        under(a, b),
        under(b, c),
    ensures
        under(a, c),
{
    let na = normalized(a);
    let nb = normalized(b);
    let nc = normalized(c);
    if na != nb && nb != nc {
        assert(na.take(nc.len() as int) =~= nb.take(nc.len() as int));
        assert(na[nc.len() as int] == nb[nc.len() as int]);
    } else if na == nb {
        normalize_root_idempotent(a);
        normalize_root_idempotent(b);
    }
}


/// Normalizing keeps a path's separators of one kind, except that a bare
/// drive is completed with a backslash.
proof fn lemma_only_sep_normalized(p: Seq<char>, sep: char)
    requires
        only_sep(p, sep),
        !(p.len() == 2 && is_ascii_alpha(p[0]) && p[1] == ':'),
    ensures
        only_sep(normalized(p), sep),
{
    normalized_is_prefix_or_completed_drive(p);
    let n = normalized(p);
    assert forall|i: int| 0 <= i < n.len() && is_sep(#[trigger] n[i]) implies n[i] == sep by {
        assert(n[i] == p[i]);
    }
}

/// The "inside this root" prefix agrees with containment: when the child
/// and the root each use one separator `sep` throughout and the root's
/// canonical spelling holds one, a child starts with the prefix (and is
/// not the root itself) exactly when it lies under the root (and is not
/// the root itself), both compared as canonical spellings. The prefix ends
/// in exactly one separator, and normalizing the root first gives the same
/// prefix.
pub proof fn child_prefix_matches_containment(child: Seq<char>, root: Seq<char>, sep: char, fallback: char)
    requires
        is_sep(sep),
        only_sep(child, sep),
        only_sep(root, sep),
        normalized(root).contains(sep),
    ensures
        ({
            let c = normalized(child);
            let b = normalized(root);
            let cp = prefix_for(b, fallback);
            (starts_with(c, cp) && c != b) <==> (under(child, root) && c != b)
        }),
        ends_with_sep(prefix_for(normalized(root), fallback)),
        prefix_for(normalized(root), fallback).len() < 2 || !is_sep(
            prefix_for(normalized(root), fallback)[prefix_for(normalized(root), fallback).len() - 2],
        ),
        prefix_for(normalized(normalized(root)), fallback) == prefix_for(normalized(root), fallback),
{
    let b = normalized(root);
    if root.len() == 2 && is_ascii_alpha(root[0]) && root[1] == ':' {
        normalized_is_prefix_or_completed_drive(root);
        let k = choose|k: int| 0 <= k < b.len() && b[k] == sep;
        assert(k == 2);
        assert forall|i: int| 0 <= i < b.len() && is_sep(#[trigger] b[i]) implies b[i] == sep by {}
    } else {
        lemma_only_sep_normalized(root, sep);
    }
    if child.len() == 2 && is_ascii_alpha(child[0]) && child[1] == ':' && sep != '\\' {
        // the child becomes `X:\`, which holds no `sep`, while the root's
        // spelling and its prefix hold `sep` early on: neither side holds
        let c = normalized(child);
        normalized_is_prefix_or_completed_drive(child);
        let k = choose|k: int| 0 <= k < b.len() && b[k] == sep;
        let cp = prefix_for(b, fallback);
        lemma_last_sep(b);
        assert(cp.len() >= b.len());
        assert(cp[k] == b[k]);
        if starts_with(c, cp) {
            assert(c[k] == cp[k]);
        }
        if starts_with(c, b) {
            assert(c[k] == b[k]);
        }
        if c == b {
            assert(c[k] == b[k]);
        }
        lemma_prefix_containment_ends(root, sep, fallback);
    } else {
        if !(child.len() == 2 && is_ascii_alpha(child[0]) && child[1] == ':') {
            lemma_only_sep_normalized(child, sep);
        } else {
            normalized_is_prefix_or_completed_drive(child);
            let c = normalized(child);
            assert forall|i: int| 0 <= i < c.len() && is_sep(#[trigger] c[i]) implies c[i] == sep by {}
        }
        lemma_prefix_containment(child, root, sep, fallback);
    }
}

/// The prefix's shape and stability, which hold whatever the child.
proof fn lemma_prefix_containment_ends(root: Seq<char>, sep: char, fallback: char)
    requires
        is_sep(sep),
        only_sep(normalized(root), sep),
        normalized(root).contains(sep),
    ensures
        ends_with_sep(prefix_for(normalized(root), fallback)),
        prefix_for(normalized(root), fallback).len() < 2 || !is_sep(
            prefix_for(normalized(root), fallback)[prefix_for(normalized(root), fallback).len() - 2],
        ),
        prefix_for(normalized(normalized(root)), fallback) == prefix_for(normalized(root), fallback),
{
    lemma_prefix_containment(root, root, sep, fallback);
}

} // verus!
