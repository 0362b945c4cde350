//! The release builder's naming rules: the directory a release is staged
//! and imported under, where a model's folder sits inside it, and the
//! checks an imported component's archive must pass.
use vstd::prelude::*;
use crate::error::AppError;
use crate::manifest::{canonical_date_text, slash_pred};
use crate::storage::{clean_name, clean_name_text};
use crate::text::{
    append_chars, append_str, chars_eq, chars_of, decimal, decimal_exec, digit_char, padded, padded_exec,
    parse_unsigned, parse_unsigned_exec, slice, split_by_flags, split_on, string_of, trim,
    trim_chars, views,
};

verus! {

/// The date part of a staged release's directory name: "MM/YYYY" (each
/// field trimmed, the month 1-12) as "MM-YYYY"; anything else is refused.
pub open spec fn release_date_part(date: Seq<char>) -> Option<Seq<char>> {
    let parts = split_on(date, slash_pred());
    if parts.len() == 2 {
        let m = parse_unsigned(trim(parts[0]), 255);
        let y = parse_unsigned(trim(parts[1]), 65535);
        if m.is_some() && y.is_some() && 1 <= m.unwrap() <= 12 {
            Some(padded(m.unwrap(), 2) + "-"@ + decimal(y.unwrap()))
        } else {
            None
        }
    } else {
        None
    }
}

/// The refusal of a malformed release date.
pub open spec fn invalid_date_text(date: Seq<char>) -> Seq<char> {
    "Invalid release date '"@ + date + "': expected MM/YYYY"@
}

/// The directory a release is staged under: "{designer}-{MM-YYYY}-{name}",
/// designer and name cleaned; a date that is not "MM/YYYY" is refused, as
/// the name doubles as the catalog's on-disk key.
pub open spec fn release_dir_text(designer: Seq<char>, date: Seq<char>, name: Seq<char>) -> Option<Seq<char>> {
    match release_date_part(date) {
        Some(d) => Some(clean_name_text(designer) + "-"@ + d + "-"@ + clean_name_text(name)),
        None => None,
    }
}

fn date_part(date: &str) -> (r: Option<Vec<char>>)
    ensures
        match r {
            Some(v) => release_date_part(date@) == Some(v@),
            None => release_date_part(date@) is None,
        },
{
    let v = chars_of(date);
    let mut flags: Vec<bool> = Vec::new();
    let mut i: usize = 0;
    while i < v.len()
        invariant
            0 <= i <= v.len(),
            flags.len() == i,
            forall|k: int| 0 <= k < i ==> flags@[k] == slash_pred()(v@[k]),
        decreases v.len() - i,
    {
        flags.push(v[i] == '/');
        i += 1;
    }
    let parts = split_by_flags(&v, &flags, Ghost(slash_pred()));
    if parts.len() != 2 {
        return None;
    }
    assert(views(parts@)[0] == parts@[0]@ && views(parts@)[1] == parts@[1]@);
    let month = trim_chars(&parts[0]);
    let year = trim_chars(&parts[1]);
    match (parse_unsigned_exec(&month, 255), parse_unsigned_exec(&year, 65535)) {
        (Some(m), Some(y)) => {
            if 1 <= m && m <= 12 {
                let mut out = padded_exec(m, 2);
                append_str(&mut out, "-");
                let yy = decimal_exec(y);
                append_chars(&mut out, &yy);
                Some(out)
            } else {
                None
            }
        },
        _ => None,
    }
}

/// Names the directory a new release is staged under.
pub fn release_dir_name(designer: &str, date: &str, name: &str) -> (r: Result<String, AppError>)
    ensures
        release_dir_text(designer@, date@, name@) matches Some(t) ==> (r matches Ok(s) && s@ == t),
        release_dir_text(designer@, date@, name@) is None ==> (r matches Err(AppError::InvalidInput(m))
            && m@ == invalid_date_text(date@)),
{
    match date_part(date) {
        Some(d) => {
            let mut out = chars_of(clean_name(designer).as_str());
            append_str(&mut out, "-");
            append_chars(&mut out, &d);
            append_str(&mut out, "-");
            append_str(&mut out, clean_name(name).as_str());
            Ok(string_of(&out))
        },
        None => {
            let mut m: Vec<char> = Vec::new();
            append_str(&mut m, "Invalid release date '");
            append_str(&mut m, date);
            append_str(&mut m, "': expected MM/YYYY");
            Err(AppError::InvalidInput(string_of(&m)))
        },
    }
}

/// Index of the first `-` in `s`, if any.
pub open spec fn first_dash(s: Seq<char>, i: int) -> Option<int>
    decreases s.len() - i,
{
    if i < 0 || i >= s.len() {
        None
    } else if s[i] == '-' {
        Some(i)
    } else {
        first_dash(s, i + 1)
    }
}

/// The date part of an imported release's directory: the manifest's
/// "YYYY-MM" turned around to the on-disk "MM-YYYY" (split at the first
/// `-`); a date without one is kept as it is.
pub open spec fn import_date_part(date: Seq<char>) -> Seq<char> {
    match first_dash(date, 0) {
        Some(k) => date.subrange(k + 1, date.len() as int) + "-"@ + date.take(k),
        None => date,
    }
}

/// The directory an imported release lands in, named the way staged
/// releases are.
pub open spec fn import_dir_text(designer: Seq<char>, date: Seq<char>, name: Seq<char>) -> Seq<char> {
    clean_name_text(designer) + "-"@ + import_date_part(date) + "-"@ + clean_name_text(name)
}

/// Names the directory a packed release is imported into.
pub fn import_dir_name(designer: &str, date: &str, name: &str) -> (r: String)
    ensures
        r@ == import_dir_text(designer@, date@, name@),
{
    let v = chars_of(date);
    let mut k: usize = 0;
    while k < v.len() && v[k] != '-'
        invariant
            0 <= k <= v.len(),
            first_dash(v@, 0) == first_dash(v@, k as int),
        decreases v.len() - k,
    {
        k += 1;
    }
    let d: Vec<char> = if k < v.len() {
        let mut out = slice(&v, k + 1, v.len());
        append_str(&mut out, "-");
        let y = slice(&v, 0, k);
        append_chars(&mut out, &y);
        assert(v@.subrange(0, k as int) =~= v@.take(k as int));
        out
    } else {
        v
    };
    assert(d@ == import_date_part(date@));
    let mut out = chars_of(clean_name(designer).as_str());
    append_str(&mut out, "-");
    append_chars(&mut out, &d);
    append_str(&mut out, "-");
    append_str(&mut out, clean_name(name).as_str());
    string_of(&out)
}

/// Where a model's folder sits inside its release: under its group's
/// folder when it has one, names cleaned.
pub open spec fn model_folder_text(name: Seq<char>, group: Option<Seq<char>>, sep: char) -> Seq<char> {
    match group {
        Some(g) => clean_name_text(g).push(sep) + clean_name_text(name),
        None => clean_name_text(name),
    }
}

/// The relative path of a model's folder inside its release.
pub fn model_folder(name: &str, group: Option<&str>, sep: char) -> (r: String)
    ensures
        r@ == model_folder_text(name@, match group {
            Some(g) => Some(g@),
            None => None,
        }, sep),
{
    match group {
        Some(g) => {
            let mut out = chars_of(clean_name(g).as_str());
            out.push(sep);
            append_str(&mut out, clean_name(name).as_str());
            string_of(&out)
        },
        None => clean_name(name),
    }
}

/// Whether an imported component's archive may be extracted: it must be
/// there, and its checksum must be the manifest's (a truncated download or
/// bit rot shows here, not as broken models later).
pub fn component_check(component: &str, archive: &str, present: bool, actual: &str, expected: &str) -> (r: Result<(), String>)
    ensures
        !present ==> (r matches Err(m) && m@ == component@ + ": archive '"@ + archive@ + "' is missing"@),
        present && actual@ != expected@ ==> (r matches Err(m)
            && m@ == component@ + ": checksum mismatch — the archive is corrupted or was modified"@),
        present && actual@ == expected@ ==> r is Ok,
{
    if !present {
        let mut m = chars_of(component);
        append_str(&mut m, ": archive '");
        append_str(&mut m, archive);
        append_str(&mut m, "' is missing");
        return Err(string_of(&m));
    }
    if !chars_eq(&chars_of(actual), &chars_of(expected)) {
        let mut m = chars_of(component);
        append_str(&mut m, ": checksum mismatch — the archive is corrupted or was modified");
        return Err(string_of(&m));
    }
    Ok(())
}

/// An import never overwrites: the refusal when its directory exists.
pub fn import_exists_error(dest: &str) -> (r: AppError)
    ensures
        r matches AppError::InvalidInput(m) && m@ == "'"@ + dest@ + "' already exists — remove it first to re-import"@,
{
    let mut m: Vec<char> = Vec::new();
    append_str(&mut m, "'");
    append_str(&mut m, dest);
    append_str(&mut m, "' already exists — remove it first to re-import");
    AppError::InvalidInput(string_of(&m))
}

/// The refusal of a release directory that is not there to finalize.
pub fn release_not_found(dir: &str) -> (r: AppError)
    ensures
        r matches AppError::NotFoundError(m) && m@ == "Release directory '"@ + dir@ + "' not found"@,
{
    let mut m: Vec<char> = Vec::new();
    append_str(&mut m, "Release directory '");
    append_str(&mut m, dir);
    append_str(&mut m, "' not found");
    AppError::NotFoundError(string_of(&m))
}


proof fn lemma_decimal_has_no_dash(n: nat)
    ensures
        forall|i: int| 0 <= i < decimal(n).len() ==> #[trigger] decimal(n)[i] != '-',
    decreases n,
{
    if n < 10 {
        assert(decimal(n)[0] == digit_char(n));
    } else {
        lemma_decimal_has_no_dash(n / 10);
        assert forall|i: int| 0 <= i < decimal(n).len() implies #[trigger] decimal(n)[i] != '-' by {
            if i < decimal(n / 10).len() {
                assert(decimal(n)[i] == decimal(n / 10)[i]);
            } else {
                assert(decimal(n)[i] == digit_char(n % 10));
            }
        }
    }
}

proof fn lemma_first_dash_after(s: Seq<char>, rest: Seq<char>, i: int)
    requires
        0 <= i <= s.len(),
        forall|k: int| 0 <= k < s.len() ==> s[k] != '-',
    ensures
        first_dash(s + "-"@ + rest, i) == Some(s.len() as int),
    decreases s.len() - i,
{
    reveal_strlit("-");
    let t = s + "-"@ + rest;
    if i < s.len() {
        assert(t[i] == s[i]);
        lemma_first_dash_after(s, rest, i + 1);
    } else {
        assert(t[i] == '-');
    }
}

/// A release imported from its own package lands in the directory it was
/// staged under: the manifest's canonical date, turned back around,
/// names the same directory the builder's "MM/YYYY" date did.
pub proof fn imported_release_lands_where_it_was_staged(designer: Seq<char>, date: Seq<char>, name: Seq<char>)
    requires
        release_dir_text(designer, date, name) is Some,
    ensures
        import_dir_text(designer, canonical_date_text(date), name) == release_dir_text(designer, date, name).unwrap(),
{
    reveal_strlit("-");
    let parts = split_on(date, slash_pred());
    let m = parse_unsigned(trim(parts[0]), 255).unwrap();
    let y = parse_unsigned(trim(parts[1]), 65535).unwrap();
    let c = canonical_date_text(date);
    assert(c == decimal(y) + "-"@ + padded(m, 2));
    lemma_decimal_has_no_dash(y);
    lemma_first_dash_after(decimal(y), padded(m, 2), 0);
    let k = decimal(y).len() as int;
    assert(c.subrange(k + 1, c.len() as int) =~= padded(m, 2));
    assert(c.take(k) =~= decimal(y));
}

} // verus!
