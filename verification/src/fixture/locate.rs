//! Where the runner looks for the repository root and for the engine
//! executables. The caller inspects the file system; the choices are made here.

use vstd::prelude::*;
use crate::text::{chars_of, push_all, push_str_chars, string_from_chars};
use super::manifest::PathProbe;

verus! {

/// A directory looked at while searching for the repository root: its path,
/// and whether it holds a `Cargo.toml` file and a `tests/lua` directory.
#[derive(Clone, Debug)]
pub struct RootProbe {
    pub path: String,
    pub has_cargo_toml: bool,
    pub has_lua_tests: bool,
}

/// The path of the first of `ancestors` that holds both markers.
pub open spec fn first_root(ancestors: Seq<RootProbe>) -> Option<Seq<char>>
    decreases ancestors.len(),
{
    if ancestors.len() == 0 {
        None
    } else if ancestors[0].has_cargo_toml && ancestors[0].has_lua_tests {
        Some(ancestors[0].path@)
    } else {
        first_root(ancestors.drop_first())
    }
}

/// The repository root: the first of `ancestors` (the starting directory and
/// then each of its ancestors, nearest first) that holds both a `Cargo.toml`
/// file and a `tests/lua` directory. `start` is the starting path as given,
/// for the error when there is none.
pub fn discover_repo_root(start: &str, ancestors: &Vec<RootProbe>) -> (r: Result<String, String>)
    ensures
        match first_root(ancestors@) {
            Some(p) => r matches Ok(x) && x@ == p,
            None => r matches Err(e) && e@ == "could not find lua_rust repository root above "@
                + start@,
        },
{
    let n = ancestors.len();
    let mut i: usize = 0;
    proof {
        assert(ancestors@.skip(0) =~= ancestors@);
    }
    while i < n
        invariant
            n == ancestors@.len(),
            i <= n,
            first_root(ancestors@) == first_root(ancestors@.skip(i as int)),
        decreases n - i,
    {
        proof {
            assert(ancestors@.skip(i as int)[0] == ancestors@[i as int]);
            assert(ancestors@.skip(i as int).drop_first() =~= ancestors@.skip(i + 1));
        }
        if ancestors[i].has_cargo_toml && ancestors[i].has_lua_tests {
            return Ok(ancestors[i].path.clone());
        }
        i += 1;
    }
    let mut out = chars_of("could not find lua_rust repository root above ");
    push_str_chars(&mut out, start);
    Err(string_from_chars(&out))
}

/// `base` joined with `relative`, as a Unix path: a relative part is appended
/// after a separator (unless `base` is empty or already ends with one); an
/// absolute part replaces `base`.
pub open spec fn path_join(base: Seq<char>, relative: Seq<char>) -> Seq<char> {
    if relative.len() > 0 && relative[0] == '/' {
        relative
    } else if base.len() == 0 || base.last() == '/' {
        base + relative
    } else {
        base + "/"@ + relative
    }
}

/// Join `relative` onto `base` as `path_join` describes.
pub fn join_path(base: &str, relative: &str) -> (r: String)
    ensures
        r@ == path_join(base@, relative@),
{
    let b = chars_of(base);
    let rel = chars_of(relative);
    if rel.len() > 0 && rel[0] == '/' {
        return string_from_chars(&rel);
    }
    let mut out: Vec<char> = Vec::new();
    push_all(&mut out, &b);
    proof {
        assert(out@ =~= b@);
    }
    if !(b.len() == 0 || b[b.len() - 1] == '/') {
        push_str_chars(&mut out, "/");
    }
    push_all(&mut out, &rel);
    proof {
        if b@.len() > 0 {
            assert(b@.last() == b@[b@.len() - 1]);
        }
    }
    string_from_chars(&out)
}

/// `path` made absolute against `current_directory`: an absolute path is
/// kept, a relative one is joined onto the directory.
pub fn absolute_from(current_directory: &str, path: &str) -> (r: String)
    ensures
        r@ == path_join(current_directory@, path@),
{
    join_path(current_directory, path)
}

/// File name of the Lua command-line application on the platform.
pub open spec fn app_file_name(windows: bool) -> Seq<char> {
    if windows {
        "lua_app.exe"@
    } else {
        "lua_app"@
    }
}

fn app_name(windows: bool) -> (r: &'static str)
    ensures
        r@ == app_file_name(windows),
{
    if windows {
        "lua_app.exe"
    } else {
        "lua_app"
    }
}

/// Build directories, relative to the repository root, searched for the
/// Rust engine, in order.
pub open spec fn rust_build_directory(k: int) -> Seq<char> {
    if k == 0 {
        "target/debug"@
    } else if k == 1 {
        "target/x86_64-pc-windows-msvc/debug"@
    } else if k == 2 {
        "target/release"@
    } else {
        "target/x86_64-pc-windows-msvc/release"@
    }
}

/// Where the Rust engine may have been built under `repo_root`, in the order
/// they are tried.
pub open spec fn rust_candidates(repo_root: Seq<char>, windows: bool) -> Seq<Seq<char>> {
    Seq::new(
        4,
        |k: int| path_join(path_join(repo_root, rust_build_directory(k)), app_file_name(windows)),
    )
}

fn build_directory(k: usize) -> (r: &'static str)
    requires
        k < 4,
    ensures
        r@ == rust_build_directory(k as int),
{
    if k == 0 {
        "target/debug"
    } else if k == 1 {
        "target/x86_64-pc-windows-msvc/debug"
    } else if k == 2 {
        "target/release"
    } else {
        "target/x86_64-pc-windows-msvc/release"
    }
}

/// The paths under `repo_root` where the Rust engine may have been built, in
/// the order they are tried.
pub fn rust_executable_candidates(repo_root: &str, windows: bool) -> (r: Vec<String>)
    ensures
        r@.len() == 4,
        forall|k: int| 0 <= k < 4 ==> #[trigger] r@[k]@ == rust_candidates(repo_root@, windows)[k],
{
    let mut out: Vec<String> = Vec::new();
    let mut k: usize = 0;
    while k < 4
        invariant
            k <= 4,
            out@.len() == k,
            forall|j: int| 0 <= j < k ==> #[trigger] out@[j]@ == rust_candidates(repo_root@, windows)[j],
        decreases 4 - k,
    {
        let directory = join_path(repo_root, build_directory(k));
        out.push(join_path(directory.as_str(), app_name(windows)));
        k += 1;
    }
    out
}

/// The display of the first probe that exists.
pub open spec fn first_existing(probes: Seq<PathProbe>) -> Option<Seq<char>>
    decreases probes.len(),
{
    if probes.len() == 0 {
        None
    } else if probes[0].exists {
        Some(probes[0].display@)
    } else {
        first_existing(probes.drop_first())
    }
}

/// The default Rust engine: the first of the candidate locations (probed in
/// the order `rust_executable_candidates` gives them) that is a file.
pub fn find_default_rust_executable(candidates: &Vec<PathProbe>) -> (r: Option<String>)
    ensures
        match first_existing(candidates@) {
            Some(p) => r matches Some(x) && x@ == p,
            None => r is None,
        },
{
    let n = candidates.len();
    let mut i: usize = 0;
    proof {
        assert(candidates@.skip(0) =~= candidates@);
    }
    while i < n
        invariant
            n == candidates@.len(),
            i <= n,
            first_existing(candidates@) == first_existing(candidates@.skip(i as int)),
        decreases n - i,
    {
        proof {
            assert(candidates@.skip(i as int)[0] == candidates@[i as int]);
            assert(candidates@.skip(i as int).drop_first() =~= candidates@.skip(i + 1));
        }
        if candidates[i].exists {
            return Some(candidates[i].display.clone());
        }
        i += 1;
    }
    None
}

/// Where the reference engine is looked for: `lua_cpp/bin` beside the
/// repository, under the parent directory `repo_parent`.
pub open spec fn cpp_candidate(repo_parent: Seq<char>, windows: bool) -> Seq<char> {
    path_join(path_join(repo_parent, "lua_cpp/bin"@), app_file_name(windows))
}

/// The location of the reference engine beside the repository whose parent
/// directory is `repo_parent`.
pub fn cpp_executable_candidate(repo_parent: &str, windows: bool) -> (r: String)
    ensures
        r@ == cpp_candidate(repo_parent@, windows),
{
    let directory = join_path(repo_parent, "lua_cpp/bin");
    join_path(directory.as_str(), app_name(windows))
}

/// The default reference engine: the candidate beside the repository (none
/// when the repository root has no parent) if it is a file.
pub fn find_default_cpp_executable(candidate: Option<PathProbe>) -> (r: Option<String>)
    ensures
        match candidate {
            Some(p) => if p.exists {
                r matches Some(x) && x@ == p.display@
            } else {
                r is None
            },
            None => r is None,
        },
{
    match candidate {
        Some(p) => if p.exists {
            Some(p.display)
        } else {
            None
        },
        None => None,
    }
}

} // verus!
