//! The base-cutter's input guards and its export layout rules: which
//! placement names are safe output file names, which placement sets are
//! rejected and why, the calendar date a cut export is stamped with, and
//! the folder a cut lands in.
use vstd::prelude::*;
use crate::error::AppError;
use crate::paths::{extension_of, normalize_root, normalized, path_extension};
use crate::text::{
    append_chars, append_str, chars_eq, chars_eq_ignore_ascii_case, chars_of, decimal,
    decimal_exec, eq_ignore_ascii_case, is_cc, is_control, padded, padded_exec, slice,
    split_by_flags, split_on, string_of, trim, trim_chars, views, eq_lit,
    lemma_split_on_nonempty,
};

verus! {

/// A character Windows forbids in file names.
pub open spec fn is_forbidden_char(c: char) -> bool {
    c == '<' || c == '>' || c == ':' || c == '"' || c == '|' || c == '?' || c == '*'
}

/// A Windows reserved device name (compared ignoring ASCII case).
pub open spec fn is_reserved_name(b: Seq<char>) -> bool {
    ||| eq_ignore_ascii_case(b, "CON"@)
    ||| eq_ignore_ascii_case(b, "PRN"@)
    ||| eq_ignore_ascii_case(b, "AUX"@)
    ||| eq_ignore_ascii_case(b, "NUL"@)
    ||| eq_ignore_ascii_case(b, "COM1"@)
    ||| eq_ignore_ascii_case(b, "COM2"@)
    ||| eq_ignore_ascii_case(b, "COM3"@)
    ||| eq_ignore_ascii_case(b, "COM4"@)
    ||| eq_ignore_ascii_case(b, "COM5"@)
    ||| eq_ignore_ascii_case(b, "COM6"@)
    ||| eq_ignore_ascii_case(b, "COM7"@)
    ||| eq_ignore_ascii_case(b, "COM8"@)
    ||| eq_ignore_ascii_case(b, "COM9"@)
    ||| eq_ignore_ascii_case(b, "LPT1"@)
    ||| eq_ignore_ascii_case(b, "LPT2"@)
    ||| eq_ignore_ascii_case(b, "LPT3"@)
    ||| eq_ignore_ascii_case(b, "LPT4"@)
    ||| eq_ignore_ascii_case(b, "LPT5"@)
    ||| eq_ignore_ascii_case(b, "LPT6"@)
    ||| eq_ignore_ascii_case(b, "LPT7"@)
    ||| eq_ignore_ascii_case(b, "LPT8"@)
    ||| eq_ignore_ascii_case(b, "LPT9"@)
}

/// The predicate "is a dot".
pub open spec fn dot_pred() -> spec_fn(char) -> bool {
    |c: char| c == '.'
}

/// A character that may not appear in a bare file name.
pub open spec fn is_unsafe_char(c: char) -> bool {
    c == '/' || c == '\\' || is_forbidden_char(c) || is_cc(c)
}

/// Whether `segment` is safe to use as one bare file-name component: not
/// empty or `.`/`..` once trimmed, free of path separators, of the Windows
/// forbidden characters and of control characters, and not a Windows
/// reserved device name (with or without an extension).
pub open spec fn safe_segment(segment: Seq<char>) -> bool {
    let t = trim(segment);
    &&& t.len() > 0
    &&& t != "."@
    &&& t != ".."@
    &&& forall|i: int| 0 <= i < t.len() ==> !is_unsafe_char(#[trigger] t[i])
    &&& !is_reserved_name(split_on(t, dot_pred())[0])
}

fn is_reserved_exec(b: &Vec<char>) -> (r: bool)
    ensures
        r == is_reserved_name(b@),
{
    let names: [&str; 22] = [
        "CON", "PRN", "AUX", "NUL", "COM1", "COM2", "COM3", "COM4", "COM5", "COM6", "COM7",
        "COM8", "COM9", "LPT1", "LPT2", "LPT3", "LPT4", "LPT5", "LPT6", "LPT7", "LPT8", "LPT9",
    ];
    let mut i: usize = 0;
    while i < 22
        invariant
            0 <= i <= 22,
            names@ == seq![
                "CON", "PRN", "AUX", "NUL", "COM1", "COM2", "COM3", "COM4", "COM5", "COM6",
                "COM7", "COM8", "COM9", "LPT1", "LPT2", "LPT3", "LPT4", "LPT5", "LPT6", "LPT7",
                "LPT8", "LPT9",
            ],
            forall|k: int| 0 <= k < i ==> !eq_ignore_ascii_case(b@, (#[trigger] names@[k])@),
        decreases 22 - i,
    {
        let n = chars_of(names[i]);
        if chars_eq_ignore_ascii_case(b, &n) {
            return true;
        }
        i += 1;
    }
    assert(!is_reserved_name(b@)) by {
        assert(!eq_ignore_ascii_case(b@, names@[0]@));
        assert(!eq_ignore_ascii_case(b@, names@[1]@));
        assert(!eq_ignore_ascii_case(b@, names@[2]@));
        assert(!eq_ignore_ascii_case(b@, names@[3]@));
        assert(!eq_ignore_ascii_case(b@, names@[4]@));
        assert(!eq_ignore_ascii_case(b@, names@[5]@));
        assert(!eq_ignore_ascii_case(b@, names@[6]@));
        assert(!eq_ignore_ascii_case(b@, names@[7]@));
        assert(!eq_ignore_ascii_case(b@, names@[8]@));
        assert(!eq_ignore_ascii_case(b@, names@[9]@));
        assert(!eq_ignore_ascii_case(b@, names@[10]@));
        assert(!eq_ignore_ascii_case(b@, names@[11]@));
        assert(!eq_ignore_ascii_case(b@, names@[12]@));
        assert(!eq_ignore_ascii_case(b@, names@[13]@));
        assert(!eq_ignore_ascii_case(b@, names@[14]@));
        assert(!eq_ignore_ascii_case(b@, names@[15]@));
        assert(!eq_ignore_ascii_case(b@, names@[16]@));
        assert(!eq_ignore_ascii_case(b@, names@[17]@));
        assert(!eq_ignore_ascii_case(b@, names@[18]@));
        assert(!eq_ignore_ascii_case(b@, names@[19]@));
        assert(!eq_ignore_ascii_case(b@, names@[20]@));
        assert(!eq_ignore_ascii_case(b@, names@[21]@));
    }
    false
}

/// Whether `segment` is safe as a single bare file-name component.
pub fn is_safe_filename_segment(segment: &str) -> (r: bool)
    ensures
        r == safe_segment(segment@),
{
    let v = chars_of(segment);
    let t = trim_chars(&v);
    assert(t@ == trim(segment@));
    if t.len() == 0 || eq_lit(&t, ".") || eq_lit(&t, "..") {
        return false;
    }
    let mut i: usize = 0;
    while i < t.len()
        invariant
            0 <= i <= t.len(),
            t@ == trim(segment@),
            forall|k: int| 0 <= k < i ==> !is_unsafe_char(#[trigger] t@[k]),
        decreases t.len() - i,
    {
        let c = t[i];
        if c == '/' || c == '\\' || c == '<' || c == '>' || c == ':' || c == '"' || c == '|' || c
            == '?' || c == '*' || is_control(c) {
            assert(is_unsafe_char(t@[i as int]));
            return false;
        }
        i += 1;
    }
    let mut flags: Vec<bool> = Vec::new();
    let mut j: usize = 0;
    while j < t.len()
        invariant
            0 <= j <= t.len(),
            flags.len() == j,
            forall|k: int| 0 <= k < j ==> flags@[k] == dot_pred()(t@[k]),
        decreases t.len() - j,
    {
        flags.push(t[j] == '.');
        j += 1;
    }
    let pieces = split_by_flags(&t, &flags, Ghost(dot_pred()));
    proof {
        lemma_split_on_nonempty(t@, dot_pred());
        assert(views(pieces@)[0] == pieces@[0]@);
    }
    !is_reserved_exec(&pieces[0])
}

/// How a placement is named in an error message: its own name quoted, or a
/// 1-based ordinal.
pub open spec fn placement_label_text(name: Option<Seq<char>>, index: nat) -> Seq<char> {
    match name {
        Some(n) => "'"@ + n + "'"@,
        None => "placement "@ + decimal(index + 1),
    }
}

/// Names a placement for an error message.
pub fn placement_label(name: Option<&str>, index: usize) -> (r: String)
    requires
        index < usize::MAX,
    ensures
        r@ == placement_label_text(
            match name {
                Some(n) => Some(n@),
                None => None,
            },
            index as nat,
        ),
{
    let mut v: Vec<char> = Vec::new();
    match name {
        Some(n) => {
            append_str(&mut v, "'");
            append_str(&mut v, n);
            append_str(&mut v, "'");
        },
        None => {
            append_str(&mut v, "placement ");
            let d = decimal_exec((index + 1) as u64);
            append_chars(&mut v, &d);
        },
    }
    string_of(&v)
}

/// What is wrong with a placement set, and at which placement.
#[derive(Debug, Clone, Copy, PartialEq, Eq, Structural)]
pub enum PlacementProblem {
    /// The plinth taper/height eats the whole cut footprint.
    DegenerateFootprint { index: usize },
    /// The name is not a safe output file name.
    UnsafeName { index: usize },
    /// The name repeats an earlier placement's; one output would overwrite
    /// the other.
    DuplicateName { index: usize },
}

/// The placement's name (if any), as text.
pub open spec fn name_at(names: Seq<Option<String>>, i: int) -> Option<Seq<char>> {
    match names[i] {
        Some(n) => Some(n@),
        None => None,
    }
}

/// What is wrong with placement `i` in a set whose earlier placements were
/// all fine. `degenerate[i]` says its derived cut footprint is at or under
/// the minimum dimension.
pub open spec fn problem_at(names: Seq<Option<String>>, degenerate: Seq<bool>, i: int) -> Option<
    PlacementProblem,
> {
    if degenerate[i] {
        Some(PlacementProblem::DegenerateFootprint { index: i as usize })
    } else {
        match name_at(names, i) {
            Some(n) => if !safe_segment(n) {
                Some(PlacementProblem::UnsafeName { index: i as usize })
            } else if exists|j: int| 0 <= j < i && #[trigger] name_at(names, j) == Some(n) {
                Some(PlacementProblem::DuplicateName { index: i as usize })
            } else {
                None
            },
            None => None,
        }
    }
}

/// Guards a base-cut request: the first placement (in order) whose cut
/// footprint is degenerate, whose name is not a safe file name, or whose
/// name repeats an earlier one is reported; unnamed placements never
/// collide.
pub fn validate_placements(names: &Vec<Option<String>>, degenerate: &Vec<bool>) -> (r: Result<
    (),
    PlacementProblem,
>)
    requires
        names.len() == degenerate.len(),
    ensures
        r is Ok <==> forall|i: int| 0 <= i < names.len() ==> problem_at(names@, degenerate@, i) is None,
        r matches Err(p) ==> exists|i: int|
            0 <= i < names.len() && problem_at(names@, degenerate@, i) == Some(p) && forall|j: int|
                0 <= j < i ==> problem_at(names@, degenerate@, j) is None,
{
    let mut i: usize = 0;
    while i < names.len()
        invariant
            names.len() == degenerate.len(),
            0 <= i <= names.len(),
            forall|k: int| 0 <= k < i ==> problem_at(names@, degenerate@, k) is None,
        decreases names.len() - i,
    {
        if degenerate[i] {
            assert(problem_at(names@, degenerate@, i as int) == Some(PlacementProblem::DegenerateFootprint { index: i }));
            return Err(PlacementProblem::DegenerateFootprint { index: i });
        }
        match &names[i] {
            Some(n) => {
                assert(name_at(names@, i as int) == Some(n@));
                if !is_safe_filename_segment(n.as_str()) {
                    assert(problem_at(names@, degenerate@, i as int) == Some(PlacementProblem::UnsafeName { index: i }));
                    return Err(PlacementProblem::UnsafeName { index: i });
                }
                let nv = chars_of(n.as_str());
                let mut j: usize = 0;
                while j < i
                    invariant
                        names.len() == degenerate.len(),
                        0 <= j <= i < names.len(),
                        names@[i as int] == Some(*n),
                        nv@ == n@,
                        !degenerate@[i as int],
                        safe_segment(n@),
                        name_at(names@, i as int) == Some(n@),
                        forall|k: int| 0 <= k < i ==> problem_at(names@, degenerate@, k) is None,
                        forall|k: int| 0 <= k < j ==> #[trigger] name_at(names@, k) != Some(n@),
                    decreases i - j,
                {
                    match &names[j] {
                        Some(m) => {
                            let mv = chars_of(m.as_str());
                            if chars_eq(&mv, &nv) {
                                assert(name_at(names@, j as int) == Some(n@));
                                assert(problem_at(names@, degenerate@, i as int) == Some(PlacementProblem::DuplicateName { index: i }));
                                return Err(PlacementProblem::DuplicateName { index: i });
                            }
                        },
                        None => {},
                    }
                    j += 1;
                }
                assert(problem_at(names@, degenerate@, i as int) is None);
            },
            None => {},
        }
        i += 1;
    }
    Ok(())
}

/// The placement problem's message, for the two problems whose text does
/// not depend on the footprint's measured size.
pub open spec fn name_problem_text(label: Seq<char>, name: Seq<char>, duplicate: bool) -> Seq<char> {
    if duplicate {
        "Duplicate placement name '"@ + name
            + "' — two placements with the same name would overwrite each other's output STL"@
    } else {
        label + ": name '"@ + name
            + "' is not a valid output filename — it must not contain a path separator, '..', a drive/UNC prefix, or the characters < > : \" | ? *"@
    }
}

/// The refusal for a placement whose cut footprint is degenerate: its
/// label, the derived cut dimension and the minimum, each as the caller
/// printed it (the dimensions are floating-point).
pub open spec fn degenerate_text(label: Seq<char>, dim: Seq<char>, min: Seq<char>) -> Seq<char> {
    label + ": the plinth taper/height eats the whole footprint (derived cut dimension "@ + dim + "mm is at or under the "@
        + min + "mm minimum)"@
}

/// Builds the refusal for a degenerate cut footprint.
pub fn degenerate_footprint_error(label: &str, dim: &str, min: &str) -> (r: AppError)
    ensures
        r matches AppError::InvalidInput(m) && m@ == degenerate_text(label@, dim@, min@),
{
    let mut v: Vec<char> = Vec::new();
    append_str(&mut v, label);
    append_str(&mut v, ": the plinth taper/height eats the whole footprint (derived cut dimension ");
    append_str(&mut v, dim);
    append_str(&mut v, "mm is at or under the ");
    append_str(&mut v, min);
    append_str(&mut v, "mm minimum)");
    AppError::InvalidInput(string_of(&v))
}

/// The error a name problem is reported with.
pub fn name_problem_error(label: &str, name: &str, duplicate: bool) -> (r: AppError)
    ensures
        r matches AppError::InvalidInput(m) && m@ == name_problem_text(label@, name@, duplicate),
{
    let mut v: Vec<char> = Vec::new();
    if duplicate {
        append_str(&mut v, "Duplicate placement name '");
        append_str(&mut v, name);
        append_str(
            &mut v,
            "' — two placements with the same name would overwrite each other's output STL",
        );
    } else {
        append_str(&mut v, label);
        append_str(&mut v, ": name '");
        append_str(&mut v, name);
        append_str(
            &mut v,
            "' is not a valid output filename — it must not contain a path separator, '..', a drive/UNC prefix, or the characters < > : \" | ? *",
        );
    }
    assert(v@ =~= name_problem_text(label@, name@, duplicate));
    AppError::InvalidInput(string_of(&v))
}

/// Proleptic-Gregorian (year, month, day) of the UTC day holding `secs`
/// seconds after the Unix epoch, by the division-only civil-from-days
/// conversion.
pub open spec fn civil(secs: nat) -> (int, nat, nat) {
    let days = (secs / 86400) as int;
    let z = days + 719468;
    let era = z / 146097;
    let doe = z - era * 146097;
    let yoe = (doe - doe / 1460 + doe / 36524 - doe / 146096) / 365;
    let y = yoe + era * 400;
    let doy = doe - (365 * yoe + yoe / 4 - yoe / 100);
    let mp = (5 * doy + 2) / 153;
    let d = doy - (153 * mp + 2) / 5 + 1;
    let m = if mp < 10 { mp + 3 } else { mp - 9 };
    let y = if m <= 2 { y + 1 } else { y };
    (y, m as nat, d as nat)
}

/// The UTC calendar date of a Unix timestamp.
pub fn civil_from_unix_seconds(secs: u64) -> (r: (i64, u32, u32))
    ensures
        r.0 == civil(secs as nat).0,
        r.1 == civil(secs as nat).1,
        r.2 == civil(secs as nat).2,
        1 <= r.1 <= 12,
        1 <= r.2 <= 31,
{
    let days: i64 = (secs / 86_400) as i64;
    let z: i64 = days + 719_468;
    let era: i64 = z / 146_097;
    let doe: u64 = (z - era * 146_097) as u64;
    assert(0 <= doe < 146097);
    let yoe: u64 = (doe - doe / 1460 + doe / 36_524 - doe / 146_096) / 365;
    assert(yoe <= 399);
    let y: i64 = yoe as i64 + era * 400;
    let doy: u64 = doe - (365 * yoe + yoe / 4 - yoe / 100);
    assert(doy <= 365) by (nonlinear_arith)
        requires
            0 <= doe < 146097,
            yoe == (doe - doe / 1460 + doe / 36524 - doe / 146096) / 365,
            doy == doe - (365 * yoe + yoe / 4 - yoe / 100),
    ;
    let mp: u64 = (5 * doy + 2) / 153;
    let d: u64 = doy - (153 * mp + 2) / 5 + 1;
    let m: u64 = if mp < 10 { mp + 3 } else { mp - 9 };
    let y: i64 = if m <= 2 { y + 1 } else { y };
    (y, m as u32, d as u32)
}

/// `SystemTime::now()` as whole seconds after the Unix epoch (zero for a
/// clock set before it).
#[verifier::external_body]
fn unix_now_secs() -> (r: u64) {
    std::time::SystemTime::now().duration_since(std::time::UNIX_EPOCH).map(|d| d.as_secs()).unwrap_or(0)
}

/// "This month" in UTC: (year, month) of the current time.
pub fn current_year_month_utc() -> (r: (i64, u32))
    ensures
        1 <= r.1 <= 12,
        exists|secs: nat| r.0 == civil(secs).0 && r.1 == civil(secs).1,
{
    let secs = unix_now_secs();
    let (year, month, _day) = civil_from_unix_seconds(secs);
    (year, month)
}

/// `digits` left-filled with zeros to `width` characters.
pub open spec fn zero_pad(digits: Seq<char>, width: nat) -> Seq<char> {
    if digits.len() < width {
        Seq::new((width - digits.len()) as nat, |i: int| '0') + digits
    } else {
        digits
    }
}

/// An integer as `{:0width}` formats it: its decimal digits, zero-filled to
/// `width` characters, a minus sign counting toward the width.
pub open spec fn zero_padded(n: int, width: nat) -> Seq<char> {
    if n >= 0 {
        zero_pad(decimal(n as nat), width)
    } else {
        "-"@ + zero_pad(decimal((-n) as nat), if width >= 1 { (width - 1) as nat } else { 0 })
    }
}

/// The release date a cut export is stamped with: `YYYY-MM`.
pub open spec fn export_date_text(year: int, month: int) -> Seq<char> {
    zero_padded(year, 4) + "-"@ + zero_padded(month, 2)
}

fn zero_pad_exec(digits: &Vec<char>, width: usize) -> (r: Vec<char>)
    ensures
        r@ == zero_pad(digits@, width as nat),
{
    if digits.len() >= width {
        return digits.clone();
    }
    let fill = width - digits.len();
    let mut v: Vec<char> = Vec::new();
    let mut i: usize = 0;
    while i < fill
        invariant
            0 <= i <= fill,
            v@ == Seq::new(i as nat, |k: int| '0'),
        decreases fill - i,
    {
        v.push('0');
        assert(v@ =~= Seq::new((i + 1) as nat, |k: int| '0'));
        i += 1;
    }
    append_chars(&mut v, digits);
    v
}

fn zero_padded_exec(n: i64, width: usize) -> (r: Vec<char>)
    requires
        width >= 1,
    ensures
        r@ == zero_padded(n as int, width as nat),
{
    if n >= 0 {
        zero_pad_exec(&decimal_exec(n as u64), width)
    } else {
        let a: u64 = (-(n + 1)) as u64 + 1;
        assert(a as int == -(n as int));
        let mut v: Vec<char> = Vec::new();
        v.push('-');
        let d = zero_pad_exec(&decimal_exec(a), width - 1);
        append_chars(&mut v, &d);
        proof {
            reveal_strlit("-");
        }
        assert(v@ =~= zero_padded(n as int, width as nat));
        v
    }
}

/// Formats an export's year and month as `{:04}-{:02}` does.
pub fn export_date(year_month: (i64, u32)) -> (r: String)
    ensures
        r@ == export_date_text(year_month.0 as int, year_month.1 as int),
{
    let mut v = zero_padded_exec(year_month.0, 4);
    v.push('-');
    let m = zero_pad_exec(&decimal_exec(year_month.1 as u64), 2);
    append_chars(&mut v, &m);
    proof {
        reveal_strlit("-");
        assert(v@ =~= export_date_text(year_month.0 as int, year_month.1 as int));
    }
    string_of(&v)
}

/// The folder-name candidate for the `n`-th landing spot of a cut whose
/// file stem is `stem`: the stem itself first, then "{stem} 2", "{stem} 3".
pub open spec fn cut_stem_candidate(stem: Seq<char>, n: nat) -> Seq<char> {
    if n <= 1 {
        stem
    } else {
        stem + " "@ + decimal(n)
    }
}

/// Names the `n`-th landing-spot candidate for a cut.
pub fn cut_stem(stem: &str, n: u64) -> (r: String)
    ensures
        r@ == cut_stem_candidate(stem@, n as nat),
{
    let mut v = chars_of(stem);
    if n > 1 {
        append_str(&mut v, " ");
        let d = decimal_exec(n);
        append_chars(&mut v, &d);
    }
    string_of(&v)
}


/// Index of the first candidate from `k` on that no other cut holds
/// (candidates past the list are free).
pub open spec fn first_free_candidate(held: Seq<bool>, k: int) -> int
    decreases held.len() - k,
{
    if k < 0 || k >= held.len() || !held[k] {
        k
    } else {
        first_free_candidate(held, k + 1)
    }
}

/// The folder name a cut lands in: the first candidate (the stem itself,
/// then "{stem} 2", "{stem} 3", …) whose folder is free or already holds
/// this very cut; `held[k]` says whether candidate `k + 1`'s folder holds a
/// different cut.
pub fn cut_dest_dir(stem: &str, held: &Vec<bool>) -> (r: String)
    requires
        held.len() < u64::MAX,
    ensures
        r@ == cut_stem_candidate(stem@, (first_free_candidate(held@, 0) + 1) as nat),
{
    let mut k: usize = 0;
    while k < held.len() && held[k]
        invariant
            0 <= k <= held.len(),
            first_free_candidate(held@, 0) == first_free_candidate(held@, k as int),
        decreases held.len() - k,
    {
        k += 1;
    }
    cut_stem(stem, k as u64 + 1)
}

} // verus!

verus! {

/// Whether `p` names an STL file: its extension is `stl` in any ASCII
/// case.
pub open spec fn is_stl_path(p: Seq<char>) -> bool {
    extension_of(p) matches Some(e) && eq_ignore_ascii_case(e, "stl"@)
}

/// Whether `root` is one of the configured catalog folders, compared by
/// canonical spelling.
pub open spec fn root_configured(root: Seq<char>, roots: Seq<String>) -> bool {
    exists|i: int| 0 <= i < roots.len() && normalized(#[trigger] roots[i]@) == normalized(root)
}

/// The first path, from `j` on, that an earlier path repeats.
pub open spec fn first_repeat(paths: Seq<String>, j: int) -> Option<int>
    decreases paths.len() - j,
{
    if j < 0 || j >= paths.len() {
        None
    } else if exists|i: int| 0 <= i < j && #[trigger] paths[i]@ == paths[j]@ {
        Some(j)
    } else {
        first_repeat(paths, j + 1)
    }
}

/// The first source, from `j` on, that is missing or not an STL file.
pub open spec fn first_bad_source(paths: Seq<String>, is_file: Seq<bool>, j: int) -> Option<int>
    decreases paths.len() - j,
{
    if j < 0 || j >= paths.len() {
        None
    } else if !is_file[j] || !is_stl_path(paths[j]@) {
        Some(j)
    } else {
        first_bad_source(paths, is_file, j + 1)
    }
}

/// How a cut export's inputs are judged before anything is copied: `None`
/// when they pass, else whether the refusal is a not-found error (rather
/// than invalid input) and its message. The checks run in this order: no
/// paths, a blank group name, a root that is not a configured catalog
/// folder, a root that is not a directory, a path listed twice, then each
/// source in turn, missing or not an STL file.
pub open spec fn export_refusal(
    paths: Seq<String>,
    root: Seq<char>,
    group_name: Seq<char>,
    catalog_roots: Seq<String>,
    root_is_dir: bool,
    is_file: Seq<bool>,
) -> Option<(bool, Seq<char>)> {
    if paths.len() == 0 {
        Some((false, "No cut STLs to export"@))
    } else if trim(group_name).len() == 0 {
        Some((false, "A group name is required"@))
    } else if !root_configured(root, catalog_roots) {
        Some((false, "'"@ + root + "' is not a configured catalog folder — add it in Settings first"@))
    } else if !root_is_dir {
        Some((true, "Catalog folder not found: "@ + normalized(root)))
    } else if first_repeat(paths, 0) is Some {
        let j = first_repeat(paths, 0).unwrap();
        Some((false, "'"@ + paths[j]@ + "' is listed twice in the export"@))
    } else if first_bad_source(paths, is_file, 0) is Some {
        let j = first_bad_source(paths, is_file, 0).unwrap();
        if !is_file[j] {
            Some((true, "Cut STL not found: "@ + paths[j]@))
        } else {
            Some((false, "Not an STL file: "@ + paths[j]@))
        }
    } else {
        None
    }
}

fn refusal(not_found: bool, parts: &Vec<char>) -> (r: AppError)
    ensures
        not_found ==> r is NotFoundError,
        !not_found ==> r is InvalidInput,
        r.message_view() == parts@,
{
    if not_found {
        AppError::NotFoundError(string_of(parts))
    } else {
        AppError::InvalidInput(string_of(parts))
    }
}

/// Checks a cut export's inputs before anything is copied, as
/// [`export_refusal`] states: `root_is_dir` says whether the canonical
/// root is a directory, and `sources_are_files[i]` whether `paths[i]` is
/// a file.
#[verifier::loop_isolation(false)]
pub fn export_cuts_check(
    paths: &Vec<String>,
    root: &str,
    group_name: &str,
    catalog_roots: &Vec<String>,
    root_is_dir: bool,
    sources_are_files: &Vec<bool>,
) -> (r: Result<(), AppError>)
    requires
        sources_are_files.len() == paths.len(),
    ensures
        match export_refusal(paths@, root@, group_name@, catalog_roots@, root_is_dir, sources_are_files@) {
            None => r is Ok,
            Some((not_found, m)) => r matches Err(e) && (not_found ==> e is NotFoundError) && (!not_found
                ==> e is InvalidInput) && e.message_view() == m,
        },
{
    if paths.len() == 0 {
        return Err(refusal(false, &chars_of("No cut STLs to export")));
    }
    let g = trim_chars(&chars_of(group_name));
    if g.len() == 0 {
        return Err(refusal(false, &chars_of("A group name is required")));
    }
    let rn = normalize_root(root);
    let rv = chars_of(rn.as_str());
    let mut configured = false;
    let mut i: usize = 0;
    while i < catalog_roots.len()
        invariant
            0 <= i <= catalog_roots.len(),
            rv@ == normalized(root@),
            configured == exists|k: int| 0 <= k < i && normalized(#[trigger] catalog_roots@[k]@) == normalized(root@),
        decreases catalog_roots.len() - i,
    {
        let c = normalize_root(catalog_roots[i].as_str());
        if chars_eq(&chars_of(c.as_str()), &rv) {
            configured = true;
        }
        i += 1;
    }
    if !configured {
        let mut m = chars_of("'");
        append_str(&mut m, root);
        append_str(&mut m, "' is not a configured catalog folder — add it in Settings first");
        return Err(refusal(false, &m));
    }
    if !root_is_dir {
        let mut m = chars_of("Catalog folder not found: ");
        append_chars(&mut m, &rv);
        return Err(refusal(true, &m));
    }
    let mut j: usize = 0;
    while j < paths.len()
        invariant
            0 <= j <= paths.len(),
            first_repeat(paths@, 0) == first_repeat(paths@, j as int),
        decreases paths.len() - j,
    {
        let pj = chars_of(paths[j].as_str());
        let mut i: usize = 0;
        let mut dup = false;
        while i < j
            invariant
                0 <= i <= j < paths.len(),
                pj@ == paths@[j as int]@,
                dup == exists|k: int| 0 <= k < i && #[trigger] paths@[k]@ == paths@[j as int]@,
            decreases j - i,
        {
            if chars_eq(&chars_of(paths[i].as_str()), &pj) {
                dup = true;
            }
            i += 1;
        }
        if dup {
            let mut m = chars_of("'");
            append_chars(&mut m, &pj);
            append_str(&mut m, "' is listed twice in the export");
            return Err(refusal(false, &m));
        }
        j += 1;
    }
    let mut j: usize = 0;
    while j < paths.len()
        invariant
            0 <= j <= paths.len(),
            sources_are_files.len() == paths.len(),
            first_bad_source(paths@, sources_are_files@, 0) == first_bad_source(paths@, sources_are_files@, j as int),
        decreases paths.len() - j,
    {
        if !sources_are_files[j] {
            let mut m = chars_of("Cut STL not found: ");
            append_str(&mut m, paths[j].as_str());
            return Err(refusal(true, &m));
        }
        let stl = match path_extension(paths[j].as_str()) {
            Some(e) => chars_eq_ignore_ascii_case(&chars_of(e.as_str()), &chars_of("stl")),
            None => false,
        };
        if !stl {
            let mut m = chars_of("Not an STL file: ");
            append_str(&mut m, paths[j].as_str());
            return Err(refusal(false, &m));
        }
        j += 1;
    }
    Ok(())
}

} // verus!

verus! {

/// A placement set that passes the guards has no degenerate footprint,
/// only safe names, and no name twice: any two named placements, however
/// far apart, carry different names.
pub proof fn accepted_placements_have_distinct_names(names: Seq<Option<String>>, degenerate: Seq<bool>)
    requires
        names.len() == degenerate.len(),
        forall|i: int| 0 <= i < names.len() ==> #[trigger] problem_at(names, degenerate, i) is None,
    ensures
        forall|i: int| 0 <= i < names.len() ==> !#[trigger] degenerate[i],
        forall|i: int| 0 <= i < names.len() && names[i] is Some ==> safe_segment((#[trigger] names[i]).unwrap()@),
        forall|i: int, j: int|
            0 <= i < j < names.len() && names[i] is Some && names[j] is Some ==> (#[trigger] names[i]).unwrap()@
                != (#[trigger] names[j]).unwrap()@,
{
    assert forall|i: int| 0 <= i < names.len() implies !#[trigger] degenerate[i] by {
        assert(problem_at(names, degenerate, i) is None);
    }
    assert forall|i: int| 0 <= i < names.len() && names[i] is Some implies safe_segment((#[trigger] names[i]).unwrap()@) by {
        assert(problem_at(names, degenerate, i) is None);
    }
    assert forall|i: int, j: int|
        0 <= i < j < names.len() && names[i] is Some && names[j] is Some implies (#[trigger] names[i]).unwrap()@
            != (#[trigger] names[j]).unwrap()@ by {
        assert(problem_at(names, degenerate, j) is None);
        if names[i].unwrap()@ == names[j].unwrap()@ {
            assert(name_at(names, i) == Some(names[j].unwrap()@));
        }
    }
}

/// A refusal names a real fault at the placement it points to: a reported
/// degenerate footprint is one, a reported unsafe name is unsafe, and a
/// reported duplicate repeats the name of some earlier placement; and a
/// named placement whose safe name repeats any earlier one is refused.
pub proof fn refused_placements_are_really_at_fault(names: Seq<Option<String>>, degenerate: Seq<bool>, i: int)
    requires
        names.len() == degenerate.len(),
        names.len() <= usize::MAX,
        0 <= i < names.len(),
    ensures
        problem_at(names, degenerate, i) matches Some(PlacementProblem::DegenerateFootprint { index }) ==> index
            == i && degenerate[i],
        problem_at(names, degenerate, i) matches Some(PlacementProblem::UnsafeName { index }) ==> index == i
            && !degenerate[i] && names[i] is Some && !safe_segment(names[i].unwrap()@),
        problem_at(names, degenerate, i) matches Some(PlacementProblem::DuplicateName { index }) ==> index == i
            && !degenerate[i] && names[i] is Some && exists|j: int|
            0 <= j < i && (#[trigger] names[j]) is Some && names[j].unwrap()@ == names[i].unwrap()@,
        degenerate[i] ==> problem_at(names, degenerate, i) == Some(PlacementProblem::DegenerateFootprint { index: i as usize }),
        forall|j: int|
            0 <= j < i && !degenerate[i] && names[i] is Some && safe_segment(names[i].unwrap()@) && (#[trigger] names[j]) is Some
                && names[j].unwrap()@ == names[i].unwrap()@ ==> problem_at(names, degenerate, i) == Some(
                PlacementProblem::DuplicateName { index: i as usize },
            ),
        names[i] is None && !degenerate[i] ==> problem_at(names, degenerate, i) is None,
{
    if let Some(PlacementProblem::DuplicateName { index }) = problem_at(names, degenerate, i) {
        let n = names[i].unwrap()@;
        let j = choose|j: int| 0 <= j < i && #[trigger] name_at(names, j) == Some(n);
        assert(names[j] is Some && names[j].unwrap()@ == n);
    }
    assert forall|j: int|
        0 <= j < i && !degenerate[i] && names[i] is Some && safe_segment(names[i].unwrap()@) && (#[trigger] names[j]) is Some
            && names[j].unwrap()@ == names[i].unwrap()@ implies problem_at(names, degenerate, i) == Some(
            PlacementProblem::DuplicateName { index: i as usize },
        ) by {
        assert(name_at(names, j) == Some(names[i].unwrap()@));
    }
}

} // verus!
