//! The console for the sibling command-line fetcher: which subcommands it
//! may launch, how its version is read, and the records its runs report.
use vstd::prelude::*;
use crate::error::AppError;
use crate::manifest::{components_of, path_components, string_views};
use crate::scanner::same_path;
use crate::text::{append_str, chars_of, eq_lit, split_whitespace, string_of, views, ws_words};

verus! {

/// Where the fetcher was found and the version it reported.
#[derive(Debug, Clone)]
pub struct MinihoardInfo {
    pub path: String,
    pub version: String,
}

/// One event of a run: an output line, or the end of the run.
#[derive(Debug, Clone)]
pub enum MinihoardStatus {
    Line(MinihoardLine),
    Finished(MinihoardFinished),
}

/// One line the running fetcher printed.
#[derive(Debug, Clone)]
pub struct MinihoardLine {
    pub job_id: String,
    pub line: String,
    /// Whether the line came from the error stream.
    pub is_err: bool,
}

/// The end of a run.
#[derive(Debug, Clone)]
pub struct MinihoardFinished {
    pub job_id: String,
    pub success: bool,
    /// Present when the process could not run at all.
    pub error: Option<String>,
}

/// The subcommands the console may launch: read-only ones and downloads
/// into the fetcher's own directories. Account changes stay in a real
/// terminal.
pub open spec fn is_allowed_subcommand(s: Seq<char>) -> bool {
    ||| s == "list"@
    ||| s == "download"@
    ||| s == "get"@
    ||| s == "config"@
    ||| s == "where"@
    ||| s == "whoami"@
}

/// The first argument, or the empty text when there is none.
pub open spec fn first_arg(args: Seq<String>) -> Seq<char> {
    if args.len() > 0 {
        args[0]@
    } else {
        Seq::empty()
    }
}

/// The refusal for a subcommand the console does not offer.
pub open spec fn refusal_text(sub: Seq<char>) -> Seq<char> {
    "'"@ + sub + "' isn't available from Plinth — run it in a terminal"@
}

/// The subcommand `args` asks for, if the console may launch it.
pub fn validated_subcommand(args: &[String]) -> (r: Result<String, AppError>)
    ensures
        is_allowed_subcommand(first_arg(args@)) ==> (r matches Ok(s) && s@ == first_arg(args@)),
        !is_allowed_subcommand(first_arg(args@)) ==> (r matches Err(AppError::InvalidInput(m))
            && m@ == refusal_text(first_arg(args@))),
{
    let sub: String = if args.len() > 0 {
        args[0].clone()
    } else {
        string_of(&Vec::new())
    };
    let v = chars_of(sub.as_str());
    if eq_lit(&v, "list") || eq_lit(&v, "download") || eq_lit(&v, "get") || eq_lit(&v, "config")
        || eq_lit(&v, "where") || eq_lit(&v, "whoami") {
        Ok(sub)
    } else {
        let mut m: Vec<char> = Vec::new();
        append_str(&mut m, "'");
        append_str(&mut m, sub.as_str());
        append_str(&mut m, "' isn't available from Plinth — run it in a terminal");
        assert(m@ =~= refusal_text(first_arg(args@)));
        Err(AppError::InvalidInput(string_of(&m)))
    }
}

/// Whether a run of `subcommand` needs the non-interactive confirmation
/// flag: batch downloads confirm interactively, and there is no terminal.
pub fn needs_assume_yes(subcommand: &str) -> (r: bool)
    ensures
        r == (subcommand@ == "download"@ || subcommand@ == "get"@),
{
    let v = chars_of(subcommand);
    eq_lit(&v, "download") || eq_lit(&v, "get")
}

/// The version a `--version` answer reports: its second word
/// ("minihoard 0.3.1" gives "0.3.1"), or "?" when there is none.
pub open spec fn version_text(stdout: Seq<char>) -> Seq<char> {
    if ws_words(stdout).len() >= 2 {
        ws_words(stdout)[1]
    } else {
        "?"@
    }
}

/// Reads the version out of a `--version` answer.
pub fn version_from_output(stdout: &str) -> (r: String)
    ensures
        r@ == version_text(stdout@),
{
    let v = chars_of(stdout);
    let words = split_whitespace(&v);
    if words.len() >= 2 {
        assert(views(words@)[1] == words@[1]@);
        string_of(&words[1])
    } else {
        let q = chars_of("?");
        string_of(&q)
    }
}

} // verus!

verus! {

/// What a run may go ahead with: the subcommand, whether it gets the
/// non-interactive confirmation flag, and whether a finished earlier run
/// is to be cleared from the single-run slot first.
#[derive(Debug, Clone)]
pub struct LaunchPlan {
    pub subcommand: String,
    pub assume_yes: bool,
    pub reap_finished: bool,
}

/// Whether `binary` is, as a path, one of the places detection looks.
pub open spec fn is_candidate(binary: Seq<char>, candidates: Seq<String>) -> bool {
    exists|i: int| 0 <= i < candidates.len() && components_of(#[trigger] candidates[i]@) == components_of(binary)
}

/// The guards a run of the fetcher passes before it is launched, in this
/// order: the subcommand must be one the console allows; the binary path
/// must be one detection could have produced (`candidates`, compared as
/// paths) and be a file (`binary_is_file`); and no earlier run may still
/// be alive (`earlier_run`: `None` when the slot is empty, else whether
/// that run is still going; a finished one is cleared).
pub fn launch_guard(
    args: &[String],
    binary_path: &str,
    candidates: &Vec<String>,
    binary_is_file: bool,
    earlier_run: Option<bool>,
) -> (r: Result<LaunchPlan, AppError>)
    ensures
        !is_allowed_subcommand(first_arg(args@)) ==> (r matches Err(AppError::InvalidInput(m)) && m@ == refusal_text(
            first_arg(args@),
        )),
        is_allowed_subcommand(first_arg(args@)) && !(is_candidate(binary_path@, candidates@) && binary_is_file) ==> (r matches Err(
            AppError::InvalidInput(m),
        ) && m@ == "Unrecognized minihoard binary path"@),
        is_allowed_subcommand(first_arg(args@)) && is_candidate(binary_path@, candidates@) && binary_is_file && earlier_run
            == Some(true) ==> (r matches Err(AppError::InvalidInput(m)) && m@
            == "minihoard is already running — wait or cancel it first"@),
        is_allowed_subcommand(first_arg(args@)) && is_candidate(binary_path@, candidates@) && binary_is_file && earlier_run
            != Some(true) ==> (r matches Ok(p) && p.subcommand@ == first_arg(args@) && p.assume_yes == (first_arg(args@)
            == "download"@ || first_arg(args@) == "get"@) && p.reap_finished == (earlier_run == Some(false))),
{
    let sub = match validated_subcommand(args) {
        Ok(s) => s,
        Err(e) => {
            return Err(e);
        },
    };
    let bc = path_components(binary_path);
    let mut known = false;
    let mut i: usize = 0;
    while i < candidates.len()
        invariant
            0 <= i <= candidates.len(),
            string_views(bc@) == components_of(binary_path@),
            known == exists|k: int| 0 <= k < i && components_of(#[trigger] candidates@[k]@) == components_of(binary_path@),
        decreases candidates.len() - i,
    {
        if same_path(candidates[i].as_str(), &bc) {
            known = true;
        }
        i += 1;
    }
    if !known || !binary_is_file {
        return Err(AppError::InvalidInput(crate::text::string_from_str("Unrecognized minihoard binary path")));
    }
    match earlier_run {
        Some(true) => Err(
            AppError::InvalidInput(crate::text::string_from_str("minihoard is already running — wait or cancel it first")),
        ),
        _ => {
            let assume_yes = needs_assume_yes(sub.as_str());
            Ok(LaunchPlan { subcommand: sub, assume_yes, reap_finished: earlier_run == Some(false) })
        },
    }
}

} // verus!

verus! {

/// The console launches exactly the subcommands list, download, get,
/// config, where and whoami, and refuses anything else.
pub proof fn console_subcommands_are_the_listed_ones(s: Seq<char>)
    ensures
        is_allowed_subcommand(s) == (s == "list"@ || s == "download"@ || s == "get"@ || s == "config"@ || s == "where"@
            || s == "whoami"@),
{
}

} // verus!
