//! What one invocation of the bridge runs: the mode that the first argument
//! selects, the arguments of the child process and its environment.

use vstd::prelude::*;
use crate::decode::{decoded_text, translate_path_to_win};
use crate::editor::{resolve_editor, resolved};
use crate::encode::{option_value, translate_path_to_unix, translated};
use crate::text::{same_text, text_of, to_chars};
use crate::winpath::has_other_prefix;

verus! {

/// What the bridge does in one invocation.
#[derive(Clone, Copy, Debug, PartialEq, Eq, Structural)]
pub enum Mode {
    /// Print the table of drives and mount points.
    ShowMapping,
    /// Build the table from the mounts of the subsystem.
    GenerateMapping,
    /// Run a Windows command, with mount paths in its arguments decoded.
    WindowsCommand,
    /// Run the wrapped tool inside the subsystem.
    Wrapped,
}

/// The mode that the first argument selects.
pub open spec fn mode_of(first: Seq<char>) -> Mode {
    if first == "win-show-mapping"@ {
        Mode::ShowMapping
    } else if first == "win-generate-mapping"@ {
        Mode::GenerateMapping
    } else if first == "win-cmd"@ {
        Mode::WindowsCommand
    } else {
        Mode::Wrapped
    }
}

/// Chooses the mode from the first argument after the program's own name;
/// the empty string stands for no argument.
pub fn select_mode(first: &str) -> (mode: Mode)
    ensures
        mode == mode_of(first@),
{
    if same_text(first, "win-show-mapping") {
        Mode::ShowMapping
    } else if same_text(first, "win-generate-mapping") {
        Mode::GenerateMapping
    } else if same_text(first, "win-cmd") {
        Mode::WindowsCommand
    } else {
        Mode::Wrapped
    }
}

/// The arguments of the Windows command interpreter: `/c`, then each given
/// argument with its mount paths decoded.
pub fn windows_command_arguments(args: &Vec<String>) -> (out: Vec<String>)
    ensures
        out@.len() == args@.len() + 1,
        out@[0]@ == "/c"@,
        forall|i: int|
            0 <= i < args@.len() ==> (#[trigger] out@[i + 1])@ == decoded_text(args@[i]@),
{
    let mut out: Vec<String> = Vec::new();
    out.push("/c".to_owned());
    let mut i: usize = 0;
    while i < args.len()
        invariant
            i <= args.len(),
            out@.len() == i + 1,
            out@[0]@ == "/c"@,
            forall|j: int|
                0 <= j < i ==> (#[trigger] out@[j + 1])@ == decoded_text(args@[j]@),
        decreases args.len() - i,
    {
        out.push(translate_path_to_win(args[i].clone()));
        i += 1;
    }
    out
}

/// Whether every argument can be translated: none has a value with a prefix
/// that carries no drive letter.
pub open spec fn all_translatable(args: Seq<String>) -> bool {
    forall|i: int| 0 <= i < args.len() ==> !has_other_prefix(option_value(#[trigger] args[i]@))
}

/// The arguments of the wrapped tool inside the subsystem: `git`, then each
/// given argument translated. `exists[i]` says whether the value of
/// `args[i]` names something on disk.
pub fn wrapped_command_arguments(args: &Vec<String>, exists: &Vec<bool>) -> (out: Vec<String>)
    requires
        args@.len() == exists@.len(),
        all_translatable(args@),
    ensures
        out@.len() == args@.len() + 1,
        out@[0]@ == "git"@,
        forall|i: int|
            0 <= i < args@.len() ==> (#[trigger] out@[i + 1])@ == translated(args@[i]@, exists@[i]),
{
    let mut out: Vec<String> = Vec::new();
    out.push("git".to_owned());
    let mut i: usize = 0;
    while i < args.len()
        invariant
            i <= args.len(),
            args@.len() == exists@.len(),
            all_translatable(args@),
            out@.len() == i + 1,
            out@[0]@ == "git"@,
            forall|j: int|
                0 <= j < i ==> (#[trigger] out@[j + 1])@ == translated(args@[j]@, exists@[j]),
        decreases args.len() - i,
    {
        out.push(translate_path_to_unix(args[i].clone(), exists[i]));
        i += 1;
    }
    out
}

/// Whether a variable of the environment belongs to the wrapped tool: its
/// name begins with `GIT_`.
pub open spec fn is_forwarded(name: Seq<char>) -> bool {
    name.len() >= 4 && name[0] == 'G' && name[1] == 'I' && name[2] == 'T' && name[3] == '_'
}

/// The value that the child sees for a forwarded variable. The editor
/// variable names this program, the mode for Windows commands and the
/// editor command; any other variable keeps its value.
pub open spec fn child_value(
    name: Seq<char>,
    value: Seq<char>,
    program: Seq<char>,
    canonical: Option<Seq<char>>,
) -> Seq<char> {
    if name == "GIT_EDITOR"@ {
        program + " win-cmd "@ + resolved(value, canonical)
    } else {
        value
    }
}

/// The variables that the child gets, in the order of `vars`.
pub open spec fn child_variables(
    vars: Seq<(String, String)>,
    program: Seq<char>,
    canonical: Option<Seq<char>>,
) -> Seq<(Seq<char>, Seq<char>)>
    decreases vars.len(),
{
    if vars.len() == 0 {
        Seq::empty()
    } else {
        let init = child_variables(vars.drop_last(), program, canonical);
        let (name, value) = vars.last();
        if is_forwarded(name@) {
            init.push((name@, child_value(name@, value@, program, canonical)))
        } else {
            init
        }
    }
}

/// The list that tells the subsystem which variables to take over: each
/// forwarded name with `/u` after it, and `:` between each two.
pub open spec fn shared_names(vars: Seq<(String, String)>) -> Seq<char>
    decreases vars.len(),
{
    if vars.len() == 0 {
        Seq::empty()
    } else {
        let init = shared_names(vars.drop_last());
        let name = vars.last().0@;
        if !is_forwarded(name) {
            init
        } else if init.len() == 0 {
            name + "/u"@
        } else {
            init.push(':') + name + "/u"@
        }
    }
}

/// The views of a list of variables.
pub open spec fn variable_views(vars: Seq<(String, String)>) -> Seq<(Seq<char>, Seq<char>)> {
    vars.map_values(|v: (String, String)| (v.0@, v.1@))
}

/// Whether the name begins with `GIT_`.
fn forwarded(name: &str) -> (b: bool)
    ensures
        b == is_forwarded(name@),
{
    let chars = to_chars(name);
    chars.len() >= 4 && chars[0] == 'G' && chars[1] == 'I' && chars[2] == 'T' && chars[3] == '_'
}

/// The variables to set for the child, from the variables of this process.
/// `program` is this program as the subsystem names it; `canonical` is what
/// was found on disk for the editor command (see `resolve_editor`).
pub fn child_environment(
    vars: &Vec<(String, String)>,
    program: &str,
    canonical: Option<&str>,
) -> (out: Vec<(String, String)>)
    ensures
        variable_views(out@) == child_variables(vars@, program@, text_of(canonical)),
{
    let ghost found = text_of(canonical);
    let mut out: Vec<(String, String)> = Vec::new();
    let mut i: usize = 0;
    while i < vars.len()
        invariant
            i <= vars.len(),
            found == text_of(canonical),
            variable_views(out@) == child_variables(vars@.take(i as int), program@, found),
        decreases vars.len() - i,
    {
        let name = &vars[i].0;
        let value = &vars[i].1;
        assert(vars@.take(i + 1).drop_last() == vars@.take(i as int));
        if forwarded(name.as_str()) {
            let v = if same_text(name.as_str(), "GIT_EDITOR") {
                let mut s = String::new();
                s.append(program);
                s.append(" win-cmd ");
                let editor = resolve_editor(value.as_str(), canonical);
                s.append(editor.as_str());
                s
            } else {
                value.clone()
            };
            out.push((name.clone(), v));
        }
        i += 1;
    }
    assert(vars@.take(vars.len() as int) == vars@);
    out
}

/// The value of the variable that names the shared variables, or `None`
/// where no variable is forwarded.
pub fn shared_variable_names(vars: &Vec<(String, String)>) -> (out: Option<String>)
    ensures
        out is Some <==> shared_names(vars@).len() > 0,
        out is Some ==> out->0@ == shared_names(vars@),
{
    let mut out = String::new();
    let mut any = false;
    let mut i: usize = 0;
    while i < vars.len()
        invariant
            i <= vars.len(),
            out@ == shared_names(vars@.take(i as int)),
            any == (out@.len() > 0),
        decreases vars.len() - i,
    {
        let name = &vars[i].0;
        assert(vars@.take(i + 1).drop_last() == vars@.take(i as int));
        if forwarded(name.as_str()) {
            if any {
                out.push(':');
            }
            out.append(name.as_str());
            out.append("/u");
            any = true;
        }
        i += 1;
    }
    assert(vars@.take(vars.len() as int) == vars@);
    if any {
        Some(out)
    } else {
        None
    }
}

/// The exit status of the bridge: that of the child where it has one, and 1
/// where the child ended without one.
pub fn exit_status(child: Option<i32>) -> (status: i32)
    ensures
        child is Some ==> status == child->0,
        child is None ==> status == 1,
{
    match child {
        Some(code) => code,
        None => 1,
    }
}

} // verus!
