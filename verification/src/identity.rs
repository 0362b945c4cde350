//! What a folder or file name says about the model inside it: support
//! status, pose markers, release dates and the display name left once the
//! packaging words are peeled away. These are the word-level rules the
//! scanner climbs a library's folder stack with.
use vstd::prelude::*;
use crate::text::{
    alphanumeric, chars_eq, chars_of, contains, contains_exec, digit_char, digits_value,
    digits_value_exec, drop_empty, drop_empty_words, eq_lit, is_alphanumeric, is_ascii_digit,
    join, join_words, lower_chars, lowercase, padded, padded_exec, replace_char, replace_char_exec,
    slice, split_by_flags, split_on, split_whitespace, starts_with, starts_with_exec, string_of,
    trim, trim_chars, upper_chars, uppercase, views, ws_words,
};

verus! {

/// A slicer file format: the file type a presupported model ships in, not
/// a variant of the model.
pub open spec fn is_slicer_format(w: Seq<char>) -> bool {
    ||| w == "stl"@
    ||| w == "stls"@
    ||| w == "lys"@
    ||| w == "chitu"@
    ||| w == "chitubox"@
    ||| w == "obj"@
    ||| w == "3mf"@
}

/// The separator predicate "not alphanumeric".
pub open spec fn non_alnum_pred() -> spec_fn(char) -> bool {
    |c: char| !alphanumeric(c)
}

/// The words of `ws` that are neither empty nor a slicer format.
pub open spec fn support_words(ws: Seq<Seq<char>>) -> Seq<Seq<char>>
    decreases ws.len(),
{
    if ws.len() == 0 {
        Seq::empty()
    } else {
        let r = support_words(ws.drop_last());
        if ws.last().len() > 0 && !is_slicer_format(ws.last()) {
            r.push(ws.last())
        } else {
            r
        }
    }
}

/// What remains of a folder name once it is lowercased, cut at every
/// non-alphanumeric character and stripped of slicer-format words.
pub open spec fn support_core(segment: Seq<char>) -> Seq<char> {
    join(support_words(split_on(lowercase(segment), non_alnum_pred())), Seq::empty())
}

/// The support status a whole folder name states: `supported` (also
/// spelled `presupported`) or `unsupported`, with slicer-format words
/// ignored, so "stl supported" and "lys presupported" read alike.
pub open spec fn segment_support(segment: Seq<char>) -> Option<&'static str> {
    let core = support_core(segment);
    if core == "supported"@ || core == "presupported"@ {
        Some("supported")
    } else if core == "unsupported"@ {
        Some("unsupported")
    } else {
        None
    }
}

/// Flags the characters of `v` that are not alphanumeric.
fn non_alnum_flags(v: &Vec<char>) -> (r: Vec<bool>)
    ensures
        r.len() == v.len(),
        forall|i: int| 0 <= i < v.len() ==> r@[i] == non_alnum_pred()(v@[i]),
{
    let mut flags: Vec<bool> = Vec::new();
    let mut i: usize = 0;
    while i < v.len()
        invariant
            0 <= i <= v.len(),
            flags.len() == i,
            forall|k: int| 0 <= k < i ==> flags@[k] == non_alnum_pred()(v@[k]),
        decreases v.len() - i,
    {
        flags.push(!is_alphanumeric(v[i]));
        i += 1;
    }
    flags
}

fn is_slicer_format_exec(w: &Vec<char>) -> (b: bool)
    ensures
        b == is_slicer_format(w@),
{
    eq_lit(w, "stl") || eq_lit(w, "stls") || eq_lit(w, "lys") || eq_lit(w, "chitu") || eq_lit(
        w,
        "chitubox",
    ) || eq_lit(w, "obj") || eq_lit(w, "3mf")
}

fn support_words_exec(ws: &Vec<Vec<char>>) -> (r: Vec<Vec<char>>)
    ensures
        views(r@) == support_words(views(ws@)),
{
    let mut out: Vec<Vec<char>> = Vec::new();
    let mut i: usize = 0;
    while i < ws.len()
        invariant
            0 <= i <= ws.len(),
            views(out@) == support_words(views(ws@).take(i as int)),
        decreases ws.len() - i,
    {
        proof {
            assert(views(ws@).take(i + 1).drop_last() =~= views(ws@).take(i as int));
        }
        if ws[i].len() > 0 && !is_slicer_format_exec(&ws[i]) {
            out.push(ws[i].clone());
        }
        proof {
            assert(views(out@) =~= support_words(views(ws@).take(i + 1)));
        }
        i += 1;
    }
    proof {
        assert(views(ws@).take(ws.len() as int) =~= views(ws@));
    }
    out
}

/// Executable [`support_core`].
fn support_core_exec(segment: &Vec<char>) -> (r: Vec<char>)
    ensures
        r@ == support_core(segment@),
{
    let lower = lower_chars(segment);
    let flags = non_alnum_flags(&lower);
    let pieces = split_by_flags(&lower, &flags, Ghost(non_alnum_pred()));
    let kept = support_words_exec(&pieces);
    let empty: Vec<char> = Vec::new();
    join_words(&kept, &empty)
}

/// [`segment_support`] on a character vector.
pub fn support_of_chars(segment: &Vec<char>) -> (r: Option<&'static str>)
    ensures
        r == segment_support(segment@),
{
    let core = support_core_exec(segment);
    if eq_lit(&core, "supported") || eq_lit(&core, "presupported") {
        Some("supported")
    } else if eq_lit(&core, "unsupported") {
        Some("unsupported")
    } else {
        None
    }
}

/// The support status a folder name states ("stl supported",
/// "pre-supported", "unsupported chitu"), or `None` for a name that says
/// something else.
pub fn support_from_segment(segment: &str) -> (r: Option<&'static str>)
    ensures
        r == segment_support(segment@),
{
    let v = chars_of(segment);
    support_of_chars(&v)
}

/// The support status hinted anywhere inside a file NAME; "unsupported" is
/// tested first since it contains "supported".
pub open spec fn filename_support(name: Seq<char>) -> Option<&'static str> {
    let lower = lowercase(name);
    if contains(lower, "unsupported"@) {
        Some("unsupported")
    } else if contains(lower, "presupported"@) || contains(lower, "supported"@) {
        Some("supported")
    } else {
        None
    }
}

/// Support status hinted by a file name such as "..._Supported.stl".
pub fn support_from_filename(name: &str) -> (r: Option<&'static str>)
    ensures
        r == filename_support(name@),
{
    let v = chars_of(name);
    let lower = lower_chars(&v);
    let unsupported = chars_of("unsupported");
    let presupported = chars_of("presupported");
    let supported = chars_of("supported");
    if contains_exec(&lower, &unsupported) {
        Some("unsupported")
    } else if contains_exec(&lower, &presupported) || contains_exec(&lower, &supported) {
        Some("supported")
    } else {
        None
    }
}

/// "galeb_duhr" reads like a file name, "galeb duhr" like a name:
/// underscores become spaces and whitespace runs collapse to one space.
pub open spec fn prettified(segment: Seq<char>) -> Seq<char> {
    join(ws_words(replace_char(segment, '_', ' ')), " "@)
}

/// Executable [`prettified`].
pub fn prettify_chars(segment: &Vec<char>) -> (r: Vec<char>)
    ensures
        r@ == prettified(segment@),
{
    let spaced = replace_char_exec(segment, '_', ' ');
    let words = split_whitespace(&spaced);
    let space = chars_of(" ");
    join_words(&words, &space)
}

/// Underscores swapped for spaces and whitespace collapsed.
pub fn prettify_segment(segment: &str) -> (r: String)
    ensures
        r@ == prettified(segment@),
{
    let v = chars_of(segment);
    let p = prettify_chars(&v);
    string_of(&p)
}

/// A descriptive pose word: a lexicon rather than a length rule, because
/// "minotaur" must stay a name while "standing" is a pose.
pub open spec fn is_pose_word(w: Seq<char>) -> bool {
    ||| w == "sitting"@
    ||| w == "standing"@
    ||| w == "kneeling"@
    ||| w == "crouching"@
    ||| w == "lying"@
    ||| w == "mounted"@
    ||| w == "dismounted"@
    ||| w == "riding"@
    ||| w == "walking"@
    ||| w == "running"@
    ||| w == "flying"@
    ||| w == "jumping"@
    ||| w == "attacking"@
    ||| w == "charging"@
    ||| w == "casting"@
    ||| w == "shooting"@
    ||| w == "idle"@
    ||| w == "resting"@
}

fn is_pose_word_exec(w: &Vec<char>) -> (b: bool)
    ensures
        b == is_pose_word(w@),
{
    eq_lit(w, "sitting") || eq_lit(w, "standing") || eq_lit(w, "kneeling") || eq_lit(
        w,
        "crouching",
    ) || eq_lit(w, "lying") || eq_lit(w, "mounted") || eq_lit(w, "dismounted") || eq_lit(
        w,
        "riding",
    ) || eq_lit(w, "walking") || eq_lit(w, "running") || eq_lit(w, "flying") || eq_lit(
        w,
        "jumping",
    ) || eq_lit(w, "attacking") || eq_lit(w, "charging") || eq_lit(w, "casting") || eq_lit(
        w,
        "shooting",
    ) || eq_lit(w, "idle") || eq_lit(w, "resting")
}

/// The pose filler characters stripped after a "pose" prefix.
pub open spec fn is_pose_filler(c: char) -> bool {
    c == ' ' || c == '-' || c == '_'
}

/// `s` without leading pose filler.
pub open spec fn trim_filler(s: Seq<char>) -> Seq<char>
    decreases s.len(),
{
    if s.len() > 0 && is_pose_filler(s[0]) {
        trim_filler(s.drop_first())
    } else {
        s
    }
}

/// Every character of `s` is an ASCII letter or digit.
pub open spec fn all_ascii_alnum(s: Seq<char>) -> bool {
    forall|i: int| 0 <= i < s.len() ==> is_ascii_alnum(#[trigger] s[i])
}

/// `c` is an ASCII letter or digit.
pub open spec fn is_ascii_alnum(c: char) -> bool {
    ('a' <= c && c <= 'z') || ('A' <= c && c <= 'Z') || ('0' <= c && c <= '9')
}

/// A variant marker rather than a name: "pose 3" (whatever follows the
/// prefix, uppercased), a short code like "A", "B2", "01" (uppercased), or
/// a descriptive pose ("sitting", "on a horse") kept in its own wording.
pub open spec fn segment_pose(segment: Seq<char>) -> Option<Seq<char>> {
    let lower = lowercase(trim(segment));
    let rest = trim_filler(lower.skip("pose"@.len() as int));
    let normal = prettified(replace_char(lower, '-', ' '));
    if starts_with(lower, "pose"@) && rest.len() > 0 {
        Some(uppercase(rest))
    } else if lower.len() > 0 && lower.len() <= 2 && all_ascii_alnum(lower) {
        Some(uppercase(lower))
    } else if is_pose_word(normal) || starts_with(normal, "on "@) {
        Some(normal)
    } else {
        None
    }
}

fn trim_filler_exec(v: &Vec<char>) -> (r: Vec<char>)
    ensures
        r@ == trim_filler(v@),
{
    let mut start: usize = 0;
    assert(v@.subrange(0, v.len() as int) =~= v@);
    while start < v.len() && (v[start] == ' ' || v[start] == '-' || v[start] == '_')
        invariant
            start <= v.len(),
            trim_filler(v@) == trim_filler(v@.subrange(start as int, v.len() as int)),
        decreases v.len() - start,
    {
        assert(v@.subrange(start as int, v.len() as int).drop_first() =~= v@.subrange(
            start + 1,
            v.len() as int,
        ));
        start += 1;
    }
    slice(v, start, v.len())
}

fn all_ascii_alnum_exec(v: &Vec<char>) -> (b: bool)
    ensures
        b == all_ascii_alnum(v@),
{
    let mut i: usize = 0;
    while i < v.len()
        invariant
            0 <= i <= v.len(),
            forall|k: int| 0 <= k < i ==> is_ascii_alnum(#[trigger] v@[k]),
        decreases v.len() - i,
    {
        let c = v[i];
        if !(('a' <= c && c <= 'z') || ('A' <= c && c <= 'Z') || ('0' <= c && c <= '9')) {
            return false;
        }
        i += 1;
    }
    true
}

/// [`segment_pose`] on a character vector.
pub fn pose_of_chars(segment: &Vec<char>) -> (r: Option<Vec<char>>)
    ensures
        r.is_some() == segment_pose(segment@).is_some(),
        r.is_some() ==> r.unwrap()@ == segment_pose(segment@).unwrap(),
{
    let trimmed = trim_chars(segment);
    let lower = lower_chars(&trimmed);
    let pose_lit = chars_of("pose");
    if starts_with_exec(&lower, &pose_lit) {
        let after = slice(&lower, pose_lit.len(), lower.len());
        assert(after@ == lower@.skip("pose"@.len() as int));
        let rest = trim_filler_exec(&after);
        if rest.len() > 0 {
            return Some(upper_chars(&rest));
        }
    } else {
        proof {
            let after = lower@.skip("pose"@.len() as int);
        }
    }
    if lower.len() > 0 && lower.len() <= 2 && all_ascii_alnum_exec(&lower) {
        return Some(upper_chars(&lower));
    }
    let dashless = replace_char_exec(&lower, '-', ' ');
    let normal = prettify_chars(&dashless);
    let on_lit = chars_of("on ");
    if is_pose_word_exec(&normal) || starts_with_exec(&normal, &on_lit) {
        return Some(normal);
    }
    None
}

/// The pose marker a folder name states, if it is one.
pub fn pose_from_segment(segment: &str) -> (r: Option<String>)
    ensures
        r.is_some() == segment_pose(segment@).is_some(),
        r.is_some() ==> r.unwrap()@ == segment_pose(segment@).unwrap(),
{
    let v = chars_of(segment);
    match pose_of_chars(&v) {
        Some(p) => Some(string_of(&p)),
        None => None,
    }
}

/// A container word that describes packaging, not the model: a file-type
/// or "files"/"parts" folder, a support folder, or a pose marker.
pub open spec fn generic_segment(segment: Seq<char>) -> bool {
    let n = lowercase(trim(segment));
    ||| n == "stl"@
    ||| n == "stls"@
    ||| n == "obj"@
    ||| n == "files"@
    ||| n == "parts"@
    ||| n == "lys"@
    ||| n == "chitubox"@
    ||| segment_support(n).is_some()
    ||| segment_pose(n).is_some()
}

/// [`generic_segment`] on a character vector.
pub fn is_generic_chars(segment: &Vec<char>) -> (b: bool)
    ensures
        b == generic_segment(segment@),
{
    let trimmed = trim_chars(segment);
    let n = lower_chars(&trimmed);
    if eq_lit(&n, "stl") || eq_lit(&n, "stls") || eq_lit(&n, "obj") || eq_lit(&n, "files")
        || eq_lit(&n, "parts") || eq_lit(&n, "lys") || eq_lit(&n, "chitubox") {
        return true;
    }
    if support_of_chars(&n).is_some() {
        return true;
    }
    pose_of_chars(&n).is_some()
}

/// Whether a folder name is packaging rather than a model name.
pub fn is_generic_segment(segment: &str) -> (b: bool)
    ensures
        b == generic_segment(segment@),
{
    let v = chars_of(segment);
    is_generic_chars(&v)
}

/// Index of the last space in `s`, if any.
pub open spec fn last_space(s: Seq<char>) -> Option<int>
    decreases s.len(),
{
    if s.len() == 0 {
        None
    } else if s.last() == ' ' {
        Some(s.len() - 1)
    } else {
        last_space(s.drop_last())
    }
}

/// A name segment with a trailing pose marker peeled off: "galeb duhr A"
/// gives ("galeb duhr", "A"). Only a single trailing marker, and only when
/// a base of at least three characters that is not itself packaging
/// survives in front of it; otherwise the prettified segment stays whole.
pub open spec fn trailing_pose_split(segment: Seq<char>) -> (Seq<char>, Option<Seq<char>>) {
    let pretty = prettified(segment);
    match last_space(pretty) {
        None => (pretty, None),
        Some(k) => {
            let base = trim(pretty.take(k));
            let marker = trim(pretty.skip(k + 1));
            if base.len() >= 3 && !generic_segment(base) && segment_pose(marker).is_some() {
                (base, segment_pose(marker))
            } else {
                (pretty, None)
            }
        },
    }
}

fn last_space_exec(v: &Vec<char>) -> (r: Option<usize>)
    ensures
        r.is_some() == last_space(v@).is_some(),
        r.is_some() ==> r.unwrap() == last_space(v@).unwrap() && r.unwrap() < v.len(),
{
    let mut end = v.len();
    assert(v@.take(end as int) =~= v@);
    while end > 0 && v[end - 1] != ' '
        invariant
            end <= v.len(),
            last_space(v@) == last_space(v@.take(end as int)),
        decreases end,
    {
        assert(v@.take(end as int).drop_last() =~= v@.take(end - 1));
        end -= 1;
    }
    if end == 0 {
        None
    } else {
        Some(end - 1)
    }
}

/// [`trailing_pose_split`] on a character vector.
pub fn split_trailing_pose_chars(segment: &Vec<char>) -> (r: (Vec<char>, Option<Vec<char>>))
    ensures
        r.0@ == trailing_pose_split(segment@).0,
        r.1.is_some() == trailing_pose_split(segment@).1.is_some(),
        r.1.is_some() ==> r.1.unwrap()@ == trailing_pose_split(segment@).1.unwrap(),
{
    let pretty = prettify_chars(segment);
    match last_space_exec(&pretty) {
        None => (pretty, None),
        Some(k) => {
            let head = slice(&pretty, 0, k);
            let tail = slice(&pretty, k + 1, pretty.len());
            assert(head@ == pretty@.take(k as int));
            assert(tail@ == pretty@.skip(k + 1));
            let base = trim_chars(&head);
            let marker = trim_chars(&tail);
            if base.len() >= 3 && !is_generic_chars(&base) {
                match pose_of_chars(&marker) {
                    Some(p) => {
                        return (base, Some(p));
                    },
                    None => {},
                }
            }
            (pretty, None)
        },
    }
}

/// Splits a trailing pose marker off a name segment.
pub fn split_trailing_pose(segment: &str) -> (r: (String, Option<String>))
    ensures
        r.0@ == trailing_pose_split(segment@).0,
        r.1.is_some() == trailing_pose_split(segment@).1.is_some(),
        r.1.is_some() ==> r.1.unwrap()@ == trailing_pose_split(segment@).1.unwrap(),
{
    let v = chars_of(segment);
    let (base, pose) = split_trailing_pose_chars(&v);
    let pose_s = match pose {
        Some(p) => Some(string_of(&p)),
        None => None,
    };
    (string_of(&base), pose_s)
}

} // verus!

verus! {

/// The separator predicate "not an ASCII digit".
pub open spec fn non_digit_pred() -> spec_fn(char) -> bool {
    |c: char| !is_ascii_digit(c)
}

/// The maximal runs of ASCII digits in `s`.
pub open spec fn digit_runs(s: Seq<char>) -> Seq<Seq<char>> {
    drop_empty(split_on(s, non_digit_pred()))
}

/// A plausible (year, month) from a month/year pair of digit runs in
/// either order: two digits then four, or four then two.
pub open spec fn pair_date(a: Seq<char>, b: Seq<char>) -> Option<(nat, nat)> {
    let (month, year) = if a.len() == 2 && b.len() == 4 {
        (digits_value(a), digits_value(b))
    } else if a.len() == 4 && b.len() == 2 {
        (digits_value(b), digits_value(a))
    } else {
        (0, 0)
    };
    if 1 <= month <= 12 && 1900 <= year <= 2200 {
        Some((year, month))
    } else {
        None
    }
}

/// The date of the right-most plausible adjacent pair among `runs[0..=k+1]`.
pub open spec fn date_search(runs: Seq<Seq<char>>, k: int) -> Option<(nat, nat)>
    decreases k + 1,
{
    if k < 0 {
        None
    } else if pair_date(runs[k], runs[k + 1]).is_some() {
        pair_date(runs[k], runs[k + 1])
    } else {
        date_search(runs, k - 1)
    }
}

/// `YYYY-MM` from a year and month.
pub open spec fn year_month_text(year: nat, month: nat) -> Seq<char> {
    padded(year, 4) + "-"@ + padded(month, 2)
}

/// A MM-YYYY or YYYY-MM digit pair anywhere in a folder name, as
/// `YYYY-MM`: "dungeon_classics-05-2026" gives "2026-05". The right-most
/// plausible pair wins; months must be 1-12 and years 1900-2200.
pub open spec fn segment_date(segment: Seq<char>) -> Option<Seq<char>> {
    let runs = digit_runs(segment);
    match date_search(runs, runs.len() - 2) {
        Some((y, m)) => Some(year_month_text(y, m)),
        None => None,
    }
}

proof fn lemma_split_pieces_sep_free(s: Seq<char>, sep: spec_fn(char) -> bool)
    ensures
        forall|i: int, j: int|
            0 <= i < split_on(s, sep).len() && 0 <= j < split_on(s, sep)[i].len() ==> !sep(
                #[trigger] split_on(s, sep)[i][j],
            ),
    decreases s.len(),
{
    if s.len() > 0 {
        lemma_split_pieces_sep_free(s.drop_last(), sep);
        crate::text::lemma_split_on_nonempty(s.drop_last(), sep);
        let w = split_on(s.drop_last(), sep);
        if !sep(s.last()) {
            assert forall|i: int, j: int|
                0 <= i < split_on(s, sep).len() && 0 <= j < split_on(s, sep)[i].len() implies !sep(
                #[trigger] split_on(s, sep)[i][j],
            ) by {
                if i == w.len() - 1 {
                    if j < w.last().len() {
                        assert(split_on(s, sep)[i][j] == w[i][j]);
                    }
                } else {
                    assert(split_on(s, sep)[i] == w[i]);
                }
            }
        } else {
            assert forall|i: int, j: int|
                0 <= i < split_on(s, sep).len() && 0 <= j < split_on(s, sep)[i].len() implies !sep(
                #[trigger] split_on(s, sep)[i][j],
            ) by {
                assert(split_on(s, sep)[i] == w[i]);
            }
        }
    }
}

proof fn lemma_drop_empty_subset(ws: Seq<Seq<char>>, sep: spec_fn(char) -> bool)
    requires
        forall|i: int, j: int| 0 <= i < ws.len() && 0 <= j < ws[i].len() ==> !sep(#[trigger] ws[i][j]),
    ensures
        forall|i: int, j: int|
            0 <= i < drop_empty(ws).len() && 0 <= j < drop_empty(ws)[i].len() ==> !sep(
                #[trigger] drop_empty(ws)[i][j],
            ),
        forall|i: int| 0 <= i < drop_empty(ws).len() ==> #[trigger] drop_empty(ws)[i].len() > 0,
    decreases ws.len(),
{
    if ws.len() > 0 {
        let r = drop_empty(ws.drop_last());
        assert forall|i: int, j: int| 0 <= i < ws.drop_last().len() && 0 <= j < ws.drop_last()[i].len() implies !sep(#[trigger] ws.drop_last()[i][j]) by {
            assert(ws.drop_last()[i] == ws[i]);
        }
        lemma_drop_empty_subset(ws.drop_last(), sep);
        if ws.last().len() > 0 {
            assert forall|i: int, j: int|
                0 <= i < drop_empty(ws).len() && 0 <= j < drop_empty(ws)[i].len() implies !sep(
                #[trigger] drop_empty(ws)[i][j],
            ) by {
                if i == r.len() {
                    assert(drop_empty(ws)[i] == ws[ws.len() - 1]);
                } else {
                    assert(drop_empty(ws)[i] == r[i]);
                }
            }
            assert forall|i: int| 0 <= i < drop_empty(ws).len() implies #[trigger] drop_empty(ws)[i].len() > 0 by {
                if i < r.len() {
                    assert(drop_empty(ws)[i] == r[i]);
                }
            }
        }
    }
}

fn pair_date_exec(a: &Vec<char>, b: &Vec<char>) -> (r: Option<(u64, u64)>)
    requires
        forall|j: int| 0 <= j < a.len() ==> is_ascii_digit(#[trigger] a@[j]),
        forall|j: int| 0 <= j < b.len() ==> is_ascii_digit(#[trigger] b@[j]),
    ensures
        r.is_some() == pair_date(a@, b@).is_some(),
        r.is_some() ==> r.unwrap().0 == pair_date(a@, b@).unwrap().0 && r.unwrap().1
            == pair_date(a@, b@).unwrap().1,
{
    let (month, year) = if a.len() == 2 && b.len() == 4 {
        (digits_value_exec(a), digits_value_exec(b))
    } else if a.len() == 4 && b.len() == 2 {
        (digits_value_exec(b), digits_value_exec(a))
    } else {
        (0, 0)
    };
    if 1 <= month && month <= 12 && 1900 <= year && year <= 2200 {
        Some((year, month))
    } else {
        None
    }
}

/// [`segment_date`] on a character vector.
pub fn date_of_chars(segment: &Vec<char>) -> (r: Option<Vec<char>>)
    ensures
        r.is_some() == segment_date(segment@).is_some(),
        r.is_some() ==> r.unwrap()@ == segment_date(segment@).unwrap(),
{
    let mut flags: Vec<bool> = Vec::new();
    let mut i: usize = 0;
    while i < segment.len()
        invariant
            0 <= i <= segment.len(),
            flags.len() == i,
            forall|k: int| 0 <= k < i ==> flags@[k] == non_digit_pred()(segment@[k]),
        decreases segment.len() - i,
    {
        let c = segment[i];
        flags.push(!('0' <= c && c <= '9'));
        i += 1;
    }
    let pieces = split_by_flags(segment, &flags, Ghost(non_digit_pred()));
    let runs = drop_empty_words(&pieces);
    proof {
        lemma_split_pieces_sep_free(segment@, non_digit_pred());
        lemma_drop_empty_subset(views(pieces@), non_digit_pred());
    }
    let ghost rv = views(runs@);
    assert(rv == digit_runs(segment@));
    if runs.len() < 2 {
        return None;
    }
    let mut k: usize = runs.len() - 1;
    while k > 0
        invariant
            rv == views(runs@),
            rv == digit_runs(segment@),
            runs.len() >= 2,
            1 <= k + 1 <= runs.len(),
            forall|i: int, j: int| 0 <= i < rv.len() && 0 <= j < rv[i].len() ==> !non_digit_pred()(#[trigger] rv[i][j]),
            date_search(rv, rv.len() - 2) == date_search(rv, k - 1),
        decreases k,
    {
        let a = &runs[k - 1];
        let b = &runs[k];
        assert(a@ == rv[k - 1]);
        assert(b@ == rv[k as int]);
        assert forall|j: int| 0 <= j < a.len() implies is_ascii_digit(#[trigger] a@[j]) by {
            assert(!non_digit_pred()(rv[k - 1][j]));
        }
        assert forall|j: int| 0 <= j < b.len() implies is_ascii_digit(#[trigger] b@[j]) by {
            assert(!non_digit_pred()(rv[k as int][j]));
        }
        match pair_date_exec(a, b) {
            Some((year, month)) => {
                let mut out = padded_exec(year, 4);
                out.push('-');
                let mm = padded_exec(month, 2);
                crate::text::append_chars(&mut out, &mm);
                proof {
                    reveal_strlit("-");
                    assert(out@ =~= year_month_text(year as nat, month as nat));
                }
                return Some(out);
            },
            None => {},
        }
        k -= 1;
    }
    None
}

/// The `YYYY-MM` release date a folder name carries, if any.
pub fn date_from_segment(segment: &str) -> (r: Option<String>)
    ensures
        r.is_some() == segment_date(segment@).is_some(),
        r.is_some() ==> r.unwrap()@ == segment_date(segment@).unwrap(),
{
    let v = chars_of(segment);
    match date_of_chars(&v) {
        Some(d) => Some(string_of(&d)),
        None => None,
    }
}

/// The alphanumeric characters of `text`, each lowercased, concatenated —
/// so punctuation, spacing and underscores do not block a lexicon match.
pub open spec fn alnum_key_of(text: Seq<char>) -> Seq<char>
    decreases text.len(),
{
    if text.len() == 0 {
        Seq::empty()
    } else if alphanumeric(text.last()) {
        alnum_key_of(text.drop_last()) + crate::text::char_lowercase(text.last())
    } else {
        alnum_key_of(text.drop_last())
    }
}

/// Executable [`alnum_key_of`].
pub fn alnum_key_chars(text: &Vec<char>) -> (r: Vec<char>)
    ensures
        r@ == alnum_key_of(text@),
{
    let mut out: Vec<char> = Vec::new();
    let mut i: usize = 0;
    while i < text.len()
        invariant
            0 <= i <= text.len(),
            out@ == alnum_key_of(text@.take(i as int)),
        decreases text.len() - i,
    {
        proof {
            assert(text@.take(i + 1).drop_last() =~= text@.take(i as int));
        }
        if is_alphanumeric(text[i]) {
            let low = crate::text::char_to_lowercase(text[i]);
            crate::text::append_chars(&mut out, &low);
        }
        i += 1;
    }
    assert(text@.take(text.len() as int) =~= text@);
    out
}

/// Lowercased alphanumerics only.
pub fn alnum_key(text: &str) -> (r: String)
    ensures
        r@ == alnum_key_of(text@),
{
    let v = chars_of(text);
    let k = alnum_key_chars(&v);
    string_of(&k)
}

} // verus!

verus! {

/// The descriptive pose words the scanner knows, as documented.
pub open spec fn pose_lexicon(w: Seq<char>) -> bool {
    ||| w == "sitting"@
    ||| w == "standing"@
    ||| w == "kneeling"@
    ||| w == "crouching"@
    ||| w == "lying"@
    ||| w == "mounted"@
    ||| w == "dismounted"@
    ||| w == "riding"@
    ||| w == "walking"@
    ||| w == "running"@
    ||| w == "flying"@
    ||| w == "jumping"@
    ||| w == "attacking"@
    ||| w == "charging"@
    ||| w == "casting"@
    ||| w == "shooting"@
    ||| w == "idle"@
    ||| w == "resting"@
}

/// A word of lowercase ASCII letters only.
pub open spec fn plain_word(w: Seq<char>) -> bool {
    w.len() > 0 && forall|i: int| 0 <= i < w.len() ==> 'a' <= #[trigger] w[i] && w[i] <= 'z'
}

proof fn lemma_split_without_sep(s: Seq<char>, sep: spec_fn(char) -> bool)
    requires
        forall|i: int| 0 <= i < s.len() ==> !sep(#[trigger] s[i]),
    ensures
        split_on(s, sep) == seq![s],
    decreases s.len(),
{
    if s.len() > 0 {
        let d = s.drop_last();
        assert forall|i: int| 0 <= i < d.len() implies !sep(#[trigger] d[i]) by {
            assert(d[i] == s[i]);
        }
        lemma_split_without_sep(d, sep);
        assert(!sep(s[s.len() - 1]));
        assert(d.push(s.last()) =~= s);
        let w = split_on(d, sep);
        assert(w.len() == 1 && w.last() == d);
        assert(w.update(0, d.push(s.last())) =~= seq![s]);
    } else {
        assert(s =~= Seq::<char>::empty());
    }
}

/// A plain word reads as itself once dashes and underscores are turned to
/// spaces and whitespace collapsed.
proof fn lemma_plain_word_prettified(w: Seq<char>)
    requires
        plain_word(w),
    ensures
        prettified(replace_char(w, '-', ' ')) == w,
{
    assert(replace_char(w, '-', ' ') =~= w);
    assert(replace_char(w, '_', ' ') =~= w);
    assert forall|i: int| 0 <= i < w.len() implies !(#[trigger] crate::text::ws_pred()(w[i])) by {
        assert('a' <= w[i] && w[i] <= 'z');
    }
    lemma_split_without_sep(w, crate::text::ws_pred());
    assert(drop_empty(seq![w]) =~= seq![w]) by {
        let one = seq![w];
        assert(one.drop_last() =~= Seq::<Seq<char>>::empty());
        assert(drop_empty(Seq::<Seq<char>>::empty()) == Seq::<Seq<char>>::empty());
        assert(one.last() == w);
        assert(Seq::<Seq<char>>::empty().push(w) =~= one);
    }
}

proof fn lemma_lexicon_plain(w: Seq<char>)
    requires
        pose_lexicon(w),
    ensures
        plain_word(w),
        w.len() > 2,
        !starts_with(w, "pose"@),
{
    reveal_strlit("sitting");
    reveal_strlit("standing");
    reveal_strlit("kneeling");
    reveal_strlit("crouching");
    reveal_strlit("lying");
    reveal_strlit("mounted");
    reveal_strlit("dismounted");
    reveal_strlit("riding");
    reveal_strlit("walking");
    reveal_strlit("running");
    reveal_strlit("flying");
    reveal_strlit("jumping");
    reveal_strlit("attacking");
    reveal_strlit("charging");
    reveal_strlit("casting");
    reveal_strlit("shooting");
    reveal_strlit("idle");
    reveal_strlit("resting");
    reveal_strlit("pose");
    if starts_with(w, "pose"@) {
        assert(w.take(4)[0] == w[0]);
        assert("pose"@[0] == 'p');
        assert(w[0] == 'p');
    }
}

/// The support words a folder name may consist of, as documented.
pub open spec fn support_status_word(w: Seq<char>) -> Option<&'static str> {
    if w == "supported"@ || w == "presupported"@ {
        Some("supported")
    } else if w == "unsupported"@ {
        Some("unsupported")
    } else {
        None
    }
}

/// A folder named just `supported` or `presupported` (in any case) holds
/// supported files, one named `unsupported` unsupported files. Stated for
/// names whose lowercased letters are all alphanumeric, as those words'
/// letters are.
pub proof fn support_folders_state_their_status(segment: Seq<char>)
    requires
        support_status_word(lowercase(segment)) is Some,
        forall|i: int| 0 <= i < lowercase(segment).len() ==> alphanumeric(#[trigger] lowercase(segment)[i]),
    ensures
        segment_support(segment) == support_status_word(lowercase(segment)),
{
    let w = lowercase(segment);
    reveal_strlit("supported");
    reveal_strlit("presupported");
    reveal_strlit("unsupported");
    reveal_strlit("stl");
    reveal_strlit("stls");
    reveal_strlit("lys");
    reveal_strlit("chitu");
    reveal_strlit("chitubox");
    reveal_strlit("obj");
    reveal_strlit("3mf");
    assert forall|i: int| 0 <= i < w.len() implies !(#[trigger] non_alnum_pred()(w[i])) by {
        assert(alphanumeric(w[i]));
    }
    lemma_split_without_sep(w, non_alnum_pred());
    assert(w.len() >= 9);
    assert(!is_slicer_format(w));
    let one = seq![w];
    assert(one.drop_last() =~= Seq::<Seq<char>>::empty());
    assert(support_words(one.drop_last()) == Seq::<Seq<char>>::empty());
    assert(support_words(one) =~= one);
    assert(join(one, Seq::empty()) == w);
    assert(support_core(segment) == w);
}

/// A folder whose name (trimmed and lowercased) is one of the documented
/// pose words — sitting, standing, kneeling, crouching, lying, mounted,
/// dismounted, riding, walking, running, flying, jumping, attacking,
/// charging, casting, shooting, idle, resting — is a pose marker that
/// keeps that word: it never becomes the model itself.
pub proof fn pose_words_are_poses(segment: Seq<char>)
    requires
        pose_lexicon(lowercase(trim(segment))),
    ensures
        segment_pose(segment) == Some(lowercase(trim(segment))),
{
    let w = lowercase(trim(segment));
    lemma_lexicon_plain(w);
    lemma_plain_word_prettified(w);
    assert(!all_ascii_alnum(w) || w.len() > 2);
    assert(is_pose_word(w));
}

} // verus!
