//! The command of an external editor, made usable inside the subsystem.
//!
//! An editor command is an executable and, after the first whitespace,
//! arguments that stay as they are. The executable may stand in double
//! quotes, and may lack the extension under which it lies on disk. Looking
//! at the disk is left to the caller: the library names the candidates to
//! try, and builds the command from the canonical path of the one that was
//! found.

use vstd::prelude::*;
use crate::encode::{encode_path, encoded_path};
use crate::text::{substring, text_of, to_chars, white_space, word_end};
use crate::winpath::{has_other_prefix, path_prefix, PathPrefix};

verus! {

/// The first token of the command, as written.
pub open spec fn first_token(s: Seq<char>) -> Seq<char> {
    s.subrange(0, word_end(s, 0))
}

/// Whether anything follows the first token.
pub open spec fn has_arguments(s: Seq<char>) -> bool {
    word_end(s, 0) < s.len()
}

/// What follows the whitespace character after the first token.
pub open spec fn trailing_arguments(s: Seq<char>) -> Seq<char> {
    s.subrange(word_end(s, 0) + 1, s.len() as int)
}

/// `t` without the double quote that it begins with and, where there is one,
/// the double quote that it ends with; `t` itself where it begins with none.
pub open spec fn unquoted(t: Seq<char>) -> Seq<char> {
    if t.len() > 0 && t[0] == '"' {
        if t.len() > 1 && t.last() == '"' {
            t.subrange(1, t.len() - 1)
        } else {
            t.subrange(1, t.len() as int)
        }
    } else {
        t
    }
}

/// The executable that the command names.
pub open spec fn executable(s: Seq<char>) -> Seq<char> {
    unquoted(first_token(s))
}

/// The names under which the executable is looked for, in the order in
/// which they are tried.
pub open spec fn candidates(exe: Seq<char>) -> Seq<Seq<char>> {
    seq![exe, exe + seq!['.', 'C', 'M', 'D'], exe + seq!['.', 'E', 'X', 'E']]
}

/// `head` in the place of the first token of the command.
pub open spec fn with_arguments(head: Seq<char>, s: Seq<char>) -> Seq<char> {
    if has_arguments(s) {
        head.push(' ') + trailing_arguments(s)
    } else {
        head
    }
}

/// Whether the canonical path that was found can stand in the command.
pub open spec fn is_usable(canonical: Option<Seq<char>>) -> bool {
    canonical matches Some(p) && !has_other_prefix(p)
}

/// The editor command for the subsystem. Where the executable was found
/// under a path that can be translated, the mount path of its canonical
/// path stands for it; otherwise the first token stays as written.
pub open spec fn resolved(s: Seq<char>, canonical: Option<Seq<char>>) -> Seq<char> {
    if is_usable(canonical) {
        with_arguments(encoded_path(canonical->0), s)
    } else {
        with_arguments(first_token(s), s)
    }
}

/// Where the first token ends.
fn token_end(chars: &[char]) -> (k: usize)
    ensures
        k == word_end(chars@, 0),
        k <= chars@.len(),
{
    let mut k: usize = 0;
    while k < chars.len() && !white_space(chars[k])
        invariant
            k <= chars.len(),
            word_end(chars@, 0) == word_end(chars@, k as int),
        decreases chars.len() - k,
    {
        k += 1;
    }
    k
}

/// The executable that an editor command names: its first token, without
/// the quotes around it.
pub fn editor_executable(command: &str) -> (exe: String)
    ensures
        exe@ == executable(command@),
{
    let chars = to_chars(command);
    let k = token_end(chars.as_slice());
    if k > 0 && chars[0] == '"' {
        if k > 1 && chars[k - 1] == '"' {
            let exe = substring(chars.as_slice(), 1, k - 1);
            exe
        } else {
            let exe = substring(chars.as_slice(), 1, k);
            exe
        }
    } else {
        substring(chars.as_slice(), 0, k)
    }
}

/// The names to look for on disk, in order: the executable as it is, with
/// `.CMD` and with `.EXE`.
pub fn editor_candidates(exe: &str) -> (names: Vec<String>)
    ensures
        names@.len() == 3,
        forall|i: int| 0 <= i < 3 ==> (#[trigger] names@[i])@ == candidates(exe@)[i],
{
    let mut plain = String::new();
    plain.append(exe);
    let mut cmd = String::new();
    cmd.append(exe);
    cmd.push('.');
    cmd.push('C');
    cmd.push('M');
    cmd.push('D');
    let mut program = String::new();
    program.append(exe);
    program.push('.');
    program.push('E');
    program.push('X');
    program.push('E');
    let mut names: Vec<String> = Vec::new();
    names.push(plain);
    names.push(cmd);
    names.push(program);
    names
}

/// Builds the editor command for the subsystem. `canonical` is the absolute
/// path, with links resolved, of the first candidate that exists, or `None`
/// where none of them exists.
pub fn resolve_editor(command: &str, canonical: Option<&str>) -> (out: String)
    ensures
        out@ == resolved(command@, text_of(canonical)),
{
    let chars = to_chars(command);
    let k = token_end(chars.as_slice());
    let mut out = match canonical {
        Some(p) => {
            let path = to_chars(p);
            match path_prefix(path.as_slice()) {
                Some(PathPrefix::Other) => substring(chars.as_slice(), 0, k),
                _ => encode_path(p),
            }
        },
        None => substring(chars.as_slice(), 0, k),
    };
    if k < chars.len() {
        out.push(' ');
        let rest = substring(chars.as_slice(), k + 1, chars.len());
        out.append(rest.as_str());
    }
    out
}

} // verus!
