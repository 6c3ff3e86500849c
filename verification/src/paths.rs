//! Paths and their virtual counterparts inside a compiled module.
//!
//! Paths are carried as strings. The lexical operations of `std::path` and of
//! Slint's `pathutils` are outside code: each has a name below, and the
//! wrapper that calls it states that its result is that name applied to its
//! arguments. These names stand for the path rules of the platform the crate
//! is built for.

use vstd::prelude::*;

use crate::text::{chars_of, starts_with, starts_with_exec};

verus! {

/// `Path::parent`.
pub uninterp spec fn path_parent(p: Seq<char>) -> Option<Seq<char>>;

/// `Path::starts_with`: `base` is a prefix of `p`, component by component.
pub uninterp spec fn path_starts_with(p: Seq<char>, base: Seq<char>) -> bool;

/// `Path == Path`: equal component by component.
pub uninterp spec fn path_eq(a: Seq<char>, b: Seq<char>) -> bool;

/// `Path::is_absolute`.
pub uninterp spec fn path_is_absolute(p: Seq<char>) -> bool;

/// `Path::file_name`.
pub uninterp spec fn path_file_name(p: Seq<char>) -> Option<Seq<char>>;

/// `Path::extension`.
pub uninterp spec fn path_extension(p: Seq<char>) -> Option<Seq<char>>;

/// `Path::join`.
pub uninterp spec fn path_join(base: Seq<char>, p: Seq<char>) -> Seq<char>;

/// `pathdiff::diff_paths`: `p` relative to `base`, when there is such a path.
pub uninterp spec fn diff_paths(p: Seq<char>, base: Seq<char>) -> Option<Seq<char>>;

/// `i_slint_compiler::pathutils::clean_path`.
pub uninterp spec fn clean_path(p: Seq<char>) -> Seq<char>;

/// `i_slint_compiler::pathutils::join`.
pub uninterp spec fn slint_join(base: Seq<char>, p: Seq<char>) -> Option<Seq<char>>;

/// Calls `Path::parent`. The parent of a path is the path without its final
/// component, so it is shorter than the path. Nothing else is stated of it.
#[verifier::external_body]
pub(crate) fn parent_of(p: &str) -> (r: Option<String>)
    ensures
        match r {
            Some(q) => path_parent(p@) == Some(q@) && q@.len() < p@.len(),
            None => path_parent(p@) is None,
        },
{
    std::path::Path::new(p).parent().map(|q| q.to_string_lossy().into_owned())
}

/// Calls `Path::starts_with`.
#[verifier::external_body]
pub(crate) fn starts_with_path(p: &str, base: &str) -> (b: bool)
    ensures
        b == path_starts_with(p@, base@),
{
    std::path::Path::new(p).starts_with(base)
}

/// Calls `Path::eq`.
#[verifier::external_body]
pub(crate) fn same_path(a: &str, b: &str) -> (r: bool)
    ensures
        r == path_eq(a@, b@),
{
    std::path::Path::new(a) == std::path::Path::new(b)
}

/// Calls `Path::is_absolute`.
#[verifier::external_body]
pub(crate) fn is_absolute(p: &str) -> (b: bool)
    ensures
        b == path_is_absolute(p@),
{
    std::path::Path::new(p).is_absolute()
}

/// Calls `Path::file_name`.
#[verifier::external_body]
pub(crate) fn file_name_of(p: &str) -> (r: Option<String>)
    ensures
        match r {
            Some(n) => path_file_name(p@) == Some(n@),
            None => path_file_name(p@) is None,
        },
{
    std::path::Path::new(p).file_name().map(|n| n.to_string_lossy().into_owned())
}

/// Calls `Path::extension`.
#[verifier::external_body]
pub(crate) fn extension_of(p: &str) -> (r: Option<String>)
    ensures
        match r {
            Some(n) => path_extension(p@) == Some(n@),
            None => path_extension(p@) is None,
        },
{
    std::path::Path::new(p).extension().map(|n| n.to_string_lossy().into_owned())
}

/// Calls `Path::join`.
#[verifier::external_body]
pub(crate) fn join_path(base: &str, p: &str) -> (r: String)
    ensures
        r@ == path_join(base@, p@),
{
    std::path::Path::new(base).join(p).to_string_lossy().into_owned()
}

/// Calls `pathdiff::diff_paths`.
#[verifier::external_body]
pub(crate) fn relative_path(p: &str, base: &str) -> (r: Option<String>)
    ensures
        match r {
            Some(q) => diff_paths(p@, base@) == Some(q@),
            None => diff_paths(p@, base@) is None,
        },
{
    pathdiff::diff_paths(p, base).map(|q| q.to_string_lossy().into_owned())
}

/// Calls `i_slint_compiler::pathutils::clean_path`.
#[verifier::external_body]
pub(crate) fn cleaned(p: &str) -> (r: String)
    ensures
        r@ == clean_path(p@),
{
    i_slint_compiler::pathutils::clean_path(std::path::Path::new(p)).to_string_lossy().into_owned()
}

/// Calls `i_slint_compiler::pathutils::join`.
#[verifier::external_body]
pub(crate) fn slint_joined(base: &str, p: &str) -> (r: Option<String>)
    ensures
        match r {
            Some(q) => slint_join(base@, p@) == Some(q@),
            None => slint_join(base@, p@) is None,
        },
{
    i_slint_compiler::pathutils::join(std::path::Path::new(base), std::path::Path::new(p)).map(
        |q| q.to_string_lossy().into_owned(),
    )
}

} // verus!

verus! {

pub open spec fn builtin_prefix() -> Seq<char> {
    seq!['b', 'u', 'i', 'l', 't', 'i', 'n', ':']
}

/// A path into Slint's own built-in library.
pub open spec fn is_builtin_path(p: Seq<char>) -> bool {
    starts_with(p, builtin_prefix())
}

/// Does `path` name one of Slint's built-in files?
pub fn is_builtin(path: &str) -> (b: bool)
    ensures
        b == is_builtin_path(path@),
{
    let p = chars_of(path);
    let prefix = vec!['b', 'u', 'i', 'l', 't', 'i', 'n', ':'];
    assert(prefix@ =~= builtin_prefix());
    starts_with_exec(p.as_slice(), prefix.as_slice())
}

/// `p` with every `\` turned into `/`.
pub open spec fn forward_slashes(p: Seq<char>) -> Seq<char> {
    p.map_values(|c: char| if c == '\\' { '/' } else { c })
}

fn forward_slashes_exec(p: &str) -> (r: String)
    ensures
        r@ == forward_slashes(p@),
{
    let chars = chars_of(p);
    let mut out: Vec<char> = Vec::new();
    let mut i: usize = 0;
    while i < chars.len()
        invariant
            chars@ == p@,
            i <= chars.len(),
            out@ == forward_slashes(p@).take(i as int),
        decreases chars.len() - i,
    {
        let c = chars[i];
        out.push(if c == '\\' { '/' } else { c });
        i = i + 1;
        assert(out@ =~= forward_slashes(p@).take(i as int));
    }
    assert(forward_slashes(p@).take(chars.len() as int) =~= forward_slashes(p@));
    crate::text::string_of(out.as_slice())
}

/// The key a compiled module stores a file under: `path` with `\` turned
/// into `/`.
pub fn normalize_key(path: &str) -> (r: String)
    ensures
        r@ == forward_slashes(path@),
{
    forward_slashes_exec(path)
}

/// The root under which a compiled module's files live.
pub open spec fn virtual_root() -> Seq<char> {
    seq!['/', 's', 'l', 'i', 'n', 't', '-', 'a', 'o', 't']
}

pub open spec fn default_component_file() -> Seq<char> {
    seq!['c', 'o', 'm', 'p', 'o', 'n', 'e', 'n', 't', '.', 's', 'l', 'i', 'n', 't']
}

/// The virtual path of the real file `file` when the bundled files share the
/// directory `root`: its path relative to `root` (or just its file name)
/// under the virtual root, with forward slashes.
pub open spec fn virtual_path_of(file: Seq<char>, root: Seq<char>) -> Seq<char> {
    let relative = match diff_paths(file, root) {
        Some(r) => r,
        None => match path_file_name(file) {
            Some(n) => n,
            None => default_component_file(),
        },
    };
    virtual_root() + seq!['/'] + forward_slashes(relative)
}

/// Every bundled file lives under the virtual root.
pub proof fn law_virtual_paths_are_under_the_root(file: Seq<char>, root: Seq<char>)
    ensures
        (virtual_root() + seq!['/']).is_prefix_of(virtual_path_of(file, root)),
{
    let v = virtual_path_of(file, root);
    let prefix = virtual_root() + seq!['/'];
    assert(v.subrange(0, prefix.len() as int) =~= prefix);
}

/// Executable [`virtual_path_of`].
pub fn virtual_path(file: &str, root: &str) -> (r: String)
    ensures
        r@ == virtual_path_of(file@, root@),
{
    let relative = match relative_path(file, root) {
        Some(r) => r,
        None => match file_name_of(file) {
            Some(n) => n,
            None => {
                let d = vec!['c', 'o', 'm', 'p', 'o', 'n', 'e', 'n', 't', '.', 's', 'l', 'i', 'n', 't'];
                assert(d@ =~= default_component_file());
                crate::text::string_of(d.as_slice())
            },
        },
    };
    let relative = forward_slashes_exec(relative.as_str());
    let mut out = vec!['/', 's', 'l', 'i', 'n', 't', '-', 'a', 'o', 't', '/'];
    let rel = chars_of(relative.as_str());
    crate::text::push_all(&mut out, rel.as_slice());
    assert(out@ =~= virtual_path_of(file@, root@));
    crate::text::string_of(out.as_slice())
}

/// Where the resource `resource`, referenced from the virtual `.slint` file
/// `virtual_slint`, lives in the virtual tree.
pub open spec fn virtual_resource_path_of(virtual_slint: Seq<char>, resource: Seq<char>) -> Seq<
    char,
> {
    let parent = match path_parent(virtual_slint) {
        Some(p) => p,
        None => virtual_root(),
    };
    let joined = match slint_join(parent, resource) {
        Some(j) => j,
        None => path_join(parent, resource),
    };
    forward_slashes(joined)
}

/// Executable [`virtual_resource_path_of`].
pub fn virtual_resource_path(virtual_slint: &str, resource: &str) -> (r: String)
    ensures
        r@ == virtual_resource_path_of(virtual_slint@, resource@),
{
    let parent = match parent_of(virtual_slint) {
        Some(p) => p,
        None => {
            let root = vec!['/', 's', 'l', 'i', 'n', 't', '-', 'a', 'o', 't'];
            assert(root@ =~= virtual_root());
            crate::text::string_of(root.as_slice())
        },
    };
    let joined = match slint_joined(parent.as_str(), resource) {
        Some(j) => j,
        None => join_path(parent.as_str(), resource),
    };
    forward_slashes_exec(joined.as_str())
}

/// The parent directories of `paths` that have one, in order.
pub open spec fn parents(paths: Seq<Seq<char>>) -> Seq<Seq<char>>
    decreases paths.len(),
{
    if paths.len() == 0 {
        seq![]
    } else {
        let rest = parents(paths.drop_last());
        match path_parent(paths.last()) {
            Some(p) => rest.push(p),
            None => rest,
        }
    }
}

/// Walk `prefix` up through its parents until `dir` starts with it; `None`
/// when the walk reaches the top without finding one.
pub open spec fn widen(dir: Seq<char>, prefix: Seq<char>) -> Option<Seq<char>>
    decreases prefix.len(),
{
    if path_starts_with(dir, prefix) {
        Some(prefix)
    } else {
        match path_parent(prefix) {
            Some(p) => if p.len() < prefix.len() && !path_eq(p, prefix) {
                widen(dir, p)
            } else {
                None
            },
            None => None,
        }
    }
}

/// The common prefix of `prefix` and each of `dirs`, in order.
pub open spec fn common_fold(dirs: Seq<Seq<char>>, prefix: Seq<char>) -> Option<Seq<char>>
    decreases dirs.len(),
{
    if dirs.len() == 0 {
        Some(prefix)
    } else {
        match common_fold(dirs.drop_last(), prefix) {
            Some(p) => widen(dirs.last(), p),
            None => None,
        }
    }
}

pub open spec fn current_dir() -> Seq<char> {
    seq!['.']
}

/// The directory that every one of `paths` lies under: the last parent,
/// widened to cover each other parent in turn; `.` when there is no parent
/// or no common directory.
pub open spec fn common_directory_of(paths: Seq<Seq<char>>) -> Seq<char> {
    let dirs = parents(paths);
    if dirs.len() == 0 {
        current_dir()
    } else {
        match common_fold(dirs.drop_last(), dirs.last()) {
            Some(p) => p,
            None => current_dir(),
        }
    }
}

/// The view of each string.
pub open spec fn views(v: Seq<String>) -> Seq<Seq<char>> {
    v.map_values(|s: String| s@)
}

fn dot() -> (r: String)
    ensures
        r@ == current_dir(),
{
    let d = vec!['.'];
    assert(d@ =~= current_dir());
    crate::text::string_of(d.as_slice())
}

/// Executable [`widen`].
fn widen_exec(dir: &str, start: String) -> (r: Option<String>)
    ensures
        match r {
            Some(p) => widen(dir@, start@) == Some(p@),
            None => widen(dir@, start@) is None,
        },
{
    let mut prefix = start;
    loop
        invariant
            widen(dir@, start@) == widen(dir@, prefix@),
        decreases prefix@.len(),
    {
        if starts_with_path(dir, prefix.as_str()) {
            return Some(prefix);
        }
        match parent_of(prefix.as_str()) {
            Some(p) => {
                if same_path(p.as_str(), prefix.as_str()) {
                    assert(widen(dir@, prefix@) is None);
                    return None;
                }
                assert(widen(dir@, prefix@) == widen(dir@, p@));
                prefix = p;
            },
            None => {
                assert(widen(dir@, prefix@) is None);
                return None;
            },
        }
    }
}

/// The directory all `paths` share (see [`common_directory_of`]).
pub fn common_directory(paths: &Vec<String>) -> (r: String)
    ensures
        r@ == common_directory_of(views(paths@)),
{
    let mut dirs: Vec<String> = Vec::new();
    let mut i: usize = 0;
    while i < paths.len()
        invariant
            i <= paths.len(),
            views(dirs@) == parents(views(paths@).take(i as int)),
        decreases paths.len() - i,
    {
        proof {
            assert(views(paths@).take(i + 1).drop_last() =~= views(paths@).take(i as int));
        }
        match parent_of(paths[i].as_str()) {
            Some(p) => {
                dirs.push(p);
                assert(views(dirs@) =~= parents(views(paths@).take(i as int)).push(
                    dirs@.last()@,
                ));
            },
            None => {},
        }
        i = i + 1;
    }
    assert(views(paths@).take(paths.len() as int) =~= views(paths@));
    if dirs.len() == 0 {
        return dot();
    }
    let last = dirs.len() - 1;
    let mut prefix = dirs[last].clone();
    let mut k: usize = 0;
    while k < last
        invariant
            last == dirs.len() - 1,
            k <= last,
            views(dirs@) == parents(views(paths@)),
            common_fold(views(dirs@).take(k as int), dirs@[last as int]@) == Some(prefix@),
        decreases last - k,
    {
        proof {
            assert(views(dirs@).take(k + 1).drop_last() =~= views(dirs@).take(k as int));
        }
        match widen_exec(dirs[k].as_str(), prefix) {
            Some(p) => prefix = p,
            None => {
                proof {
                    assert(views(dirs@).drop_last().take(k + 1) =~= views(dirs@).take(k + 1));
                    assert(views(dirs@).take(k + 1).last() == dirs@[k as int]@);
                    assert(common_fold(views(dirs@).take(k + 1), dirs@[last as int]@) is None);
                    lemma_common_fold_stuck(views(dirs@).drop_last(), dirs@[last as int]@, k + 1);
                }
                return dot();
            },
        }
        k = k + 1;
    }
    assert(views(dirs@).take(last as int) =~= views(dirs@).drop_last());
    prefix
}

/// Once the fold fails on a prefix of `dirs`, it fails on all of `dirs`.
proof fn lemma_common_fold_stuck(dirs: Seq<Seq<char>>, prefix: Seq<char>, k: int)
    requires
        0 <= k <= dirs.len(),
        common_fold(dirs.take(k), prefix) is None,
    ensures
        common_fold(dirs, prefix) is None,
    decreases dirs.len() - k,
{
    if k < dirs.len() {
        assert(dirs.take(k + 1).drop_last() =~= dirs.take(k));
        lemma_common_fold_stuck(dirs, prefix, k + 1);
    } else {
        assert(dirs.take(k) =~= dirs);
    }
}

} // verus!
