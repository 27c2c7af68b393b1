//! The decisions a build makes around each format's compilation: where the
//! build directory is, which declared inputs are copied or missing, and what
//! the build reports once every format has run.

use vstd::prelude::*;
use crate::error::RheoError;
use crate::config::packages::opt_view;
use crate::watch::str_opt;
use crate::paths::{join, join_exec, resolve_path, resolve_path_spec, split_ext, split_ext_exec};
use crate::plugins::PluginInput;
use crate::results::{counts_of, CompilationResults, FormatResult};
use crate::text::{owned, push_str};

verus! {

/// The build directory: the CLI's, against the working directory, before
/// the configured one, against the project root; `None` when neither is set.
pub open spec fn build_dir_spec(
    root: Seq<char>,
    configured: Option<Seq<char>>,
    cli: Option<Seq<char>>,
    cwd: Seq<char>,
) -> Option<Seq<char>> {
    match cli {
        Some(c) => Some(resolve_path_spec(cwd, c)),
        None => match configured {
            Some(c) => Some(resolve_path_spec(root, c)),
            None => None,
        },
    }
}

/// Resolve the build directory with priority: CLI argument, then the
/// configured `build_dir`, then none (the caller's default).
pub fn resolve_build_dir(root: &str, configured: &Option<String>, cli: Option<&str>, cwd: &str) -> (r: Option<String>)
    ensures
        opt_view(r) == build_dir_spec(root@, opt_view(*configured), str_opt(cli), cwd@),
{
    match cli {
        Some(c) => Some(resolve_path(cwd, c)),
        None => match configured {
            Some(c) => Some(resolve_path(root, c.as_str())),
            None => None,
        },
    }
}

/// Whether any of `names` compiled at least one file.
pub open spec fn any_succeeded(m: Map<Seq<char>, FormatResult>, names: Seq<Seq<char>>) -> bool {
    exists|i: int| 0 <= i < names.len() && #[trigger] counts_of(m, names[i]).succeeded > 0
}

/// Whether any recorded format failed.
pub open spec fn any_failed(m: Map<Seq<char>, FormatResult>) -> bool {
    exists|k: Seq<char>| m.contains_key(k) && #[trigger] m[k].failed > 0
}

/// The message a build with failures ends with.
pub open spec fn failure_message(partial: bool) -> Seq<char> {
    if partial {
        "some formats failed to compile"@
    } else {
        "all formats failed or no files were compiled"@
    }
}

/// What a build reports once every format in `names` has run: success when
/// nothing failed; otherwise a configuration error that tells a partial
/// failure (some format compiled files) from a total one.
pub fn compilation_outcome(results: &CompilationResults, names: &[&str]) -> (r: Result<(), RheoError>)
    ensures
        !any_failed(results.view_map()) ==> r is Ok,
        any_failed(results.view_map()) ==> (r matches Err(RheoError::ProjectConfig { message })
            && message@ == failure_message(any_succeeded(
                results.view_map(),
                names@.map_values(|n: &str| n@),
            ))),
{
    let ghost ns = names@.map_values(|n: &str| n@);
    if !results.has_failures() {
        return Ok(());
    }
    let mut partial = false;
    let mut i: usize = 0;
    while i < names.len()
        invariant
            i <= names@.len(),
            ns == names@.map_values(|n: &str| n@),
            partial == exists|j: int| 0 <= j < i && #[trigger] counts_of(results.view_map(), ns[j]).succeeded > 0,
        decreases names@.len() - i,
    {
        let counts = results.get(names[i]);
        if counts.succeeded > 0 {
            assert(counts_of(results.view_map(), ns[i as int]).succeeded > 0);
            partial = true;
        }
        i += 1;
    }
    let message = if partial {
        owned("some formats failed to compile")
    } else {
        owned("all formats failed or no files were compiled")
    };
    Err(RheoError::ProjectConfig { message })
}

/// The message for a required input that is not in the project.
pub open spec fn missing_input_message(plugin: Seq<char>, name: Seq<char>, path: Seq<char>) -> Seq<char> {
    "plugin '"@ + plugin + "' requires input '"@ + name + "' at '"@ + path
        + "' but it was not found"@
}

/// The indices below `n` whose input is present, in order.
pub open spec fn present_indices(present: Seq<bool>, n: nat) -> Seq<usize>
    decreases n,
{
    if n == 0 {
        Seq::empty()
    } else {
        let rest = present_indices(present, (n - 1) as nat);
        if present[n - 1] {
            rest.push((n - 1) as usize)
        } else {
            rest
        }
    }
}

/// Which of a plugin's declared inputs get copied into its output directory,
/// given which are present as files in the project: the indices of the
/// present ones, in order; an error naming the first required input that is
/// missing.
pub fn plan_plugin_inputs(plugin: &str, inputs: &[PluginInput], present: &[bool]) -> (r: Result<Vec<usize>, RheoError>)
    requires
        present@.len() == inputs@.len(),
    ensures
        match r {
            Ok(v) => (forall|i: int| 0 <= i < inputs@.len() ==> !(inputs@[i].required && !present@[i]))
                && v@ == present_indices(present@, inputs@.len()),
            Err(e) => exists|i: int| 0 <= i < inputs@.len() && inputs@[i].required && !present@[i]
                && (forall|j: int| 0 <= j < i ==> !(inputs@[j].required && !present@[j]))
                && (e matches RheoError::ProjectConfig { message }
                    && message@ == missing_input_message(plugin@, inputs@[i].name@, inputs@[i].path@)),
        },
{
    let mut out: Vec<usize> = Vec::new();
    let mut i: usize = 0;
    while i < inputs.len()
        invariant
            i <= inputs@.len(),
            present@.len() == inputs@.len(),
            forall|j: int| 0 <= j < i ==> !(inputs@[j].required && !present@[j]),
            out@ == present_indices(present@, i as nat),
        decreases inputs@.len() - i,
    {
        if present[i] {
            out.push(i);
        } else if inputs[i].required {
            let mut message = owned("plugin '");
            push_str(&mut message, plugin);
            push_str(&mut message, "' requires input '");
            push_str(&mut message, inputs[i].name);
            push_str(&mut message, "' at '");
            push_str(&mut message, inputs[i].path);
            push_str(&mut message, "' but it was not found");
            return Err(RheoError::ProjectConfig { message });
        }
        i += 1;
    }
    Ok(out)
}

/// A build of a project with no `.typ` files is refused before any format
/// runs.
pub fn require_sources(typ_file_count: usize) -> (r: Result<(), RheoError>)
    ensures
        typ_file_count > 0 ==> r is Ok,
        typ_file_count == 0 ==> (r matches Err(RheoError::ProjectConfig { message })
            && message@ == "no .typ files found in project"@),
{
    if typ_file_count == 0 {
        return Err(RheoError::ProjectConfig { message: owned("no .typ files found in project") });
    }
    Ok(())
}

/// A file name with its extension replaced by `ext` (or removed when `ext`
/// is empty), as std's `with_extension` sets it.
pub open spec fn with_ext(name: Seq<char>, ext: Seq<char>) -> Seq<char> {
    split_ext(name).0 + if ext.len() > 0 {
        "."@ + ext
    } else {
        Seq::empty()
    }
}

/// Where a format writes: for a merged spine, the file named after the
/// project with the format's extension in the format's directory; else the
/// format's directory itself.
pub open spec fn output_target_spec(dir: Seq<char>, name: Seq<char>, ext: Seq<char>, merge: bool) -> Seq<char> {
    if merge {
        join(dir, with_ext(name, ext))
    } else {
        dir
    }
}

/// Where a format writes its output; see [`output_target_spec`]. A
/// project's name is its directory's file name, a single path component,
/// whose extension, if it has one, the format's replaces.
pub fn output_target(plugin_dir: &str, project_name: &str, ext: &str, merge: bool) -> (r: String)
    ensures
        r@ == output_target_spec(plugin_dir@, project_name@, ext@, merge),
{
    if !merge {
        return owned(plugin_dir);
    }
    let (stem, _) = split_ext_exec(project_name);
    let mut file = stem;
    if crate::text::chars_of(ext).len() > 0 {
        push_str(&mut file, ".");
        push_str(&mut file, ext);
    }
    proof {
        reveal_strlit(".");
        if ext@.len() == 0 {
            assert(file@ =~= with_ext(project_name@, ext@));
        } else {
            assert(file@ =~= with_ext(project_name@, ext@));
        }
    }
    join_exec(plugin_dir, file.as_str())
}

} // verus!
