//! The patterns that the translation rules are written in, and the calls
//! into the `regex` crate that match them.
//!
//! Nothing in this module is proved: each function states what the pattern
//! engine returns for one pattern of this library.

use vstd::prelude::*;
use crate::decode::mount_spans;
use crate::encode::escaped;
use crate::mapping::mount_line_fields;
use crate::text::pair_text;

verus! {

/// Matches one character outside the safe set.
pub const ESCAPE_PATTERN: &'static str = "[^a-zA-Z0-9,._+@%/-]";

/// Stands for a backslash followed by the whole match.
pub const ESCAPE_REPLACEMENT: &'static str = "\\$0";

/// `regex::Regex::new` on `pattern`, then `Regex::replace_all` on `text` with
/// `replacement`.
///
/// The pattern is a negated class of single characters, so every character
/// outside the safe set is a match of its own and nothing else matches;
/// `replace_all` puts the replacement, a backslash and the match itself, in
/// the place of each match and copies the rest.
#[verifier::external_body]
pub(crate) fn replace_unsafe(pattern: &str, replacement: &str, text: &str) -> (out: String)
    requires
        pattern@ == ESCAPE_PATTERN@,
        replacement@ == ESCAPE_REPLACEMENT@,
    ensures
        out@ == escaped(text@),
{
    let re = regex::Regex::new(pattern).unwrap();
    re.replace_all(text, replacement).into_owned()
}

/// Matches `/mnt/`, one ASCII letter, `/` and the bytes that follow up to the
/// next ASCII whitespace.
pub const MOUNT_PATH_PATTERN: &'static str = "(?m-u)/mnt/(?P<drive>[A-Za-z])(?P<path>/\\S*)";

/// `regex::bytes::Regex::new` on `pattern`, then `Regex::find_iter` on
/// `text`: the start and end of each match, in order.
///
/// `find_iter` yields the leftmost match, then the leftmost match that
/// begins at or after the end of the one before, and so on. A match of this
/// pattern begins where `/mnt/`, a letter and `/` stand, and since `\S*` is
/// greedy and Unicode is off, it ends at the first byte among
/// `\t \n \x0B \x0C \r` and space, or at the end of the text.
#[verifier::external_body]
pub(crate) fn find_mount_paths(pattern: &str, text: &[u8]) -> (spans: Vec<(usize, usize)>)
    requires
        pattern@ == MOUNT_PATH_PATTERN@,
    ensures
        spans@ == mount_spans(text@, 0),
{
    let re = regex::bytes::Regex::new(pattern).unwrap();
    re.find_iter(text).map(|m| (m.start(), m.end())).collect()
}

/// Matches, at the start of a line, a drive letter and `:`, whitespace, `on`,
/// whitespace, and the characters that follow up to the next whitespace.
pub const MOUNT_LINE_PATTERN: &'static str = "^(?P<drive>[a-zA-Z]):\\s+on\\s+(?P<path>\\S+)";

/// `regex::Regex::new` on `pattern`, then `Regex::captures` on `line`: the
/// text of the groups `drive` and `path` where the line matches.
///
/// `^` holds the match to the start of the text. Each `\s+` takes a whole
/// run of characters with the Unicode property `White_Space`, since what
/// follows it cannot begin with one, and `\S+`, being greedy, takes every
/// character up to the next such character or the end.
#[verifier::external_body]
pub(crate) fn capture_mount_line(pattern: &str, line: &str) -> (found: Option<(String, String)>)
    requires
        pattern@ == MOUNT_LINE_PATTERN@,
    ensures
        pair_text(found) == mount_line_fields(line@),
{
    let re = regex::Regex::new(pattern).unwrap();
    let groups = re.captures(line)?;
    Some((groups["drive"].to_string(), groups["path"].to_string()))
}

} // verus!
