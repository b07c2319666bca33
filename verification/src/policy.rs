//! Which handling the output of a sub-command needs.
//!
//! The output of a command that prints paths is decoded; the first line of the
//! version command gets the bridge's own name and version appended; any
//! other output passes through. Where both kinds of command are named in
//! one invocation, the version command decides.

use vstd::prelude::*;
use crate::decode::{decoded_text, translate_path_to_win_output};
use crate::text::same_text;

verus! {

/// What is done to each line of the output of the wrapped command.
#[derive(Clone, Copy, Debug, PartialEq, Eq, Structural)]
pub enum OutputTransform {
    /// The output is not captured.
    PassThrough,
    /// Mount paths in the output are rewritten to Windows paths.
    DecodePaths,
    /// The name and version of the bridge are appended.
    AppendVersion,
}

/// The name that the bridge adds to the version line, with the blank before
/// it and the dot after it.
pub const VERSION_SUFFIX: &'static str = " wslgit-for-jetbrains.";

/// Whether `arg` names a command whose output holds paths.
pub open spec fn names_translated_command(arg: Seq<char>) -> bool {
    arg == "rev-parse"@ || arg == "remote"@
}

/// Whether `arg` asks for the version.
pub open spec fn names_version_command(arg: Seq<char>) -> bool {
    arg == "version"@ || arg == "--version"@
}

/// Whether some argument asks for the version.
pub open spec fn any_version_command(args: Seq<String>) -> bool {
    exists|i: int| 0 <= i < args.len() && names_version_command(#[trigger] args[i]@)
}

/// Whether some argument names a command whose output holds paths.
pub open spec fn any_translated_command(args: Seq<String>) -> bool {
    exists|i: int| 0 <= i < args.len() && names_translated_command(#[trigger] args[i]@)
}

/// The handling that the arguments select.
pub open spec fn selected_transform(args: Seq<String>) -> OutputTransform {
    if any_version_command(args) {
        OutputTransform::AppendVersion
    } else if any_translated_command(args) {
        OutputTransform::DecodePaths
    } else {
        OutputTransform::PassThrough
    }
}

/// What a transform makes of a line of output. The version is appended to
/// the first line alone.
pub open spec fn transformed(
    t: OutputTransform,
    first: bool,
    line: Seq<char>,
    version: Seq<char>,
) -> Seq<char> {
    match t {
        OutputTransform::PassThrough => line,
        OutputTransform::DecodePaths => decoded_text(line),
        OutputTransform::AppendVersion => if first {
            line + VERSION_SUFFIX@ + version
        } else {
            line
        },
    }
}

/// Whether `arg` is `rev-parse` or `remote`.
pub fn is_translated_command(arg: String) -> (b: bool)
    ensures
        b == names_translated_command(arg@),
{
    same_text(arg.as_str(), "rev-parse") || same_text(arg.as_str(), "remote")
}

/// Whether `arg` is `version` or `--version`.
pub fn is_version_command(arg: String) -> (b: bool)
    ensures
        b == names_version_command(arg@),
{
    same_text(arg.as_str(), "version") || same_text(arg.as_str(), "--version")
}

/// Chooses the handling of the output from the arguments that follow the
/// program's own name.
pub fn select_transform(args: &Vec<String>) -> (t: OutputTransform)
    ensures
        t == selected_transform(args@),
{
    let mut version = false;
    let mut translated = false;
    let mut i: usize = 0;
    while i < args.len()
        invariant
            i <= args.len(),
            version == any_version_command(args@.take(i as int)),
            translated == any_translated_command(args@.take(i as int)),
        decreases args.len() - i,
    {
        let v = is_version_command(args[i].clone());
        let t = is_translated_command(args[i].clone());
        assert(args@.take(i + 1)[i as int] == args@[i as int]);
        version = version || v;
        translated = translated || t;
        i += 1;
    }
    assert(args@.take(args.len() as int) == args@);
    if version {
        OutputTransform::AppendVersion
    } else if translated {
        OutputTransform::DecodePaths
    } else {
        OutputTransform::PassThrough
    }
}

/// Appends the name of the bridge and `version` to a line.
pub fn append_version(line: String, version: &str) -> (out: String)
    ensures
        out@ == line@ + VERSION_SUFFIX@ + version@,
{
    let mut out = line;
    out.append(VERSION_SUFFIX);
    out.append(version);
    out
}

/// Applies a transform to one line of output; `first` says whether it is the
/// first line.
pub fn apply_transform(
    t: OutputTransform,
    first: bool,
    line: String,
    version: &str,
) -> (out: String)
    ensures
        out@ == transformed(t, first, line@, version@),
{
    match t {
        OutputTransform::PassThrough => line,
        OutputTransform::DecodePaths => translate_path_to_win_output(line),
        OutputTransform::AppendVersion => if first {
            append_version(line, version)
        } else {
            line
        },
    }
}

} // verus!
