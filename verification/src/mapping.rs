//! Resolution of a local script file to the Roblox instance it stands for.
//!
//! The suffix before `.luau` names the script class (`.module`, `.server`,
//! `.client`), and the first mapping whose local folder contains the file
//! gives the Roblox path under which the script lives.

use vstd::prelude::*;
use crate::mappings::{lemma_least_witness, Mappings};
use crate::plain_path::{
    is_plain_path, lemma_plain_path_chars, lemma_plain_split, lemma_plain_suffix, plain_file_name,
    plain_parent,
};
use crate::text::{
    chars_of, count_trailing, drop_trailing, push_chars, push_str, replace_char, replace_chars,
    string_of, strip_prefix, strip_prefix_chars, strip_suffix, strip_suffix_chars, sub_chars,
    CharClass,
};

verus! {

/// The three Roblox script classes.
#[derive(Clone, Copy, Debug, PartialEq, Eq, Structural)]
pub enum ScriptKind {
    /// A `ModuleScript`, from a `.module.luau` file.
    ModuleScript,
    /// A server `Script`, from a `.server.luau` file.
    Script,
    /// A `LocalScript`, from a `.client.luau` file.
    LocalScript,
}

/// The Roblox class name of a script kind.
pub open spec fn kind_name(kind: ScriptKind) -> Seq<char> {
    match kind {
        ScriptKind::ModuleScript => "ModuleScript"@,
        ScriptKind::Script => "Script"@,
        ScriptKind::LocalScript => "LocalScript"@,
    }
}

impl ScriptKind {
    /// The Roblox class name of this kind.
    pub fn as_str(&self) -> (s: &'static str)
        ensures
            s@ == kind_name(*self),
    {
        match self {
            ScriptKind::ModuleScript => "ModuleScript",
            ScriptKind::Script => "Script",
            ScriptKind::LocalScript => "LocalScript",
        }
    }
}

/// A local script file together with the Roblox instance it stands for.
#[derive(Clone, Debug)]
pub struct ResolvedScript {
    /// The script's name: the file name without its class suffix.
    pub name: String,
    /// The script class.
    pub kind: ScriptKind,
    /// The Roblox path of the script, from `game`.
    pub roblox_path: String,
    /// The local path of the file, as given.
    pub local_path: String,
}

/// A resolved script with its strings seen as character sequences.
pub struct ResolvedView {
    pub name: Seq<char>,
    pub kind: ScriptKind,
    pub roblox_path: Seq<char>,
    pub local_path: Seq<char>,
}

impl View for ResolvedScript {
    type V = ResolvedView;

    open spec fn view(&self) -> ResolvedView {
        ResolvedView {
            name: self.name@,
            kind: self.kind,
            roblox_path: self.roblox_path@,
            local_path: self.local_path@,
        }
    }
}

// ---------------------------------------------------------------------------
// File names
// ---------------------------------------------------------------------------

/// The script name and class that a file name spells: `<name>.module.luau`,
/// `<name>.server.luau` or `<name>.client.luau`, tried in that order.
pub open spec fn script_name(file_name: Seq<char>) -> Option<(Seq<char>, ScriptKind)> {
    match strip_suffix(file_name, ".luau"@) {
        None => None,
        Some(stem) => match strip_suffix(stem, ".module"@) {
            Some(name) => Some((name, ScriptKind::ModuleScript)),
            None => match strip_suffix(stem, ".server"@) {
                Some(name) => Some((name, ScriptKind::Script)),
                None => match strip_suffix(stem, ".client"@) {
                    Some(name) => Some((name, ScriptKind::LocalScript)),
                    None => None,
                },
            },
        },
    }
}

/// The script name and class that `file_name` spells, if it spells one.
pub fn parse_script_name(file_name: &str) -> (r: Option<(String, ScriptKind)>)
    ensures
        r matches Some((name, kind)) ==> script_name(file_name@) == Some((name@, kind)),
        r is None ==> script_name(file_name@) is None,
{
    let f = chars_of(file_name);
    let luau = chars_of(".luau");
    let stem = match strip_suffix_chars(&f, &luau) {
        Some(stem) => stem,
        None => return None,
    };
    let module = chars_of(".module");
    if let Some(name) = strip_suffix_chars(&stem, &module) {
        return Some((string_of(&name), ScriptKind::ModuleScript));
    }
    let server = chars_of(".server");
    if let Some(name) = strip_suffix_chars(&stem, &server) {
        return Some((string_of(&name), ScriptKind::Script));
    }
    let client = chars_of(".client");
    if let Some(name) = strip_suffix_chars(&stem, &client) {
        return Some((string_of(&name), ScriptKind::LocalScript));
    }
    None
}

// ---------------------------------------------------------------------------
// Paths, through `std::path::Path`
// ---------------------------------------------------------------------------

/// What `Path::file_name` gives for a path: its final component, if that is
/// a normal component.
pub uninterp spec fn path_file_name(path: Seq<char>) -> Option<Seq<char>>;

/// What `Path::parent` gives for a path: the path without its final
/// component, if it has one.
pub uninterp spec fn path_parent(path: Seq<char>) -> Option<Seq<char>>;

/// `Path::file_name` of `path`, as a string. The result is named by
/// `path_file_name`; beyond that, as the documentation says ("the final
/// component of the Path"), a plain relative path gives its last component.
#[verifier::external_body]
fn file_name_of(path: &str) -> (r: Option<String>)
    ensures
        r matches Some(f) ==> path_file_name(path@) == Some(f@),
        r is None ==> path_file_name(path@) is None,
        is_plain_path(path@) ==> r is Some && r->0@ == plain_file_name(path@),
{
    std::path::Path::new(path).file_name().map(|f| f.to_string_lossy().into_owned())
}

/// `Path::parent` of `path`, as a string. The result is named by
/// `path_parent`; beyond that, as the documentation says ("the Path without
/// its final component", `Some("")` for a relative path with one
/// component), a plain relative path gives all but its last component.
#[verifier::external_body]
fn parent_of(path: &str) -> (r: Option<String>)
    ensures
        r matches Some(p) ==> path_parent(path@) == Some(p@),
        r is None ==> path_parent(path@) is None,
        is_plain_path(path@) ==> r is Some && r->0@ == plain_parent(path@),
{
    std::path::Path::new(path).parent().map(|p| p.to_string_lossy().into_owned())
}

// ---------------------------------------------------------------------------
// From a local file to a Roblox path
// ---------------------------------------------------------------------------

/// A path with every `\` turned into `/`.
pub open spec fn forward_slashes(path: Seq<char>) -> Seq<char> {
    replace_char(path, '\\', '/')
}

/// What follows the local folder `folder` (trailing slashes dropped, one `/`
/// added) at the start of `path`.
pub open spec fn local_rest(path: Seq<char>, folder: Seq<char>) -> Option<Seq<char>> {
    strip_prefix(path, drop_trailing(folder, CharClass::Slash).push('/'))
}

/// The index of the first entry whose local folder contains `path`.
pub open spec fn first_local_entry(entries: Seq<(Seq<char>, Seq<char>)>, path: Seq<char>) -> Option<int> {
    if exists|i: int| 0 <= i < entries.len() && #[trigger] local_rest(path, entries[i].0) is Some {
        Some(
            choose|i: int|
                0 <= i < entries.len() && #[trigger] local_rest(path, entries[i].0) is Some
                    && forall|j: int| 0 <= j < i ==> #[trigger] local_rest(path, entries[j].0) is None,
        )
    } else {
        None
    }
}

/// What `first_local_entry` finds: the first entry that contains `path`, or
/// none at all.
pub proof fn lemma_first_local_entry(entries: Seq<(Seq<char>, Seq<char>)>, path: Seq<char>)
    ensures
        first_local_entry(entries, path) matches Some(i) ==> 0 <= i < entries.len()
            && local_rest(path, entries[i].0) is Some && forall|j: int|
            0 <= j < i ==> #[trigger] local_rest(path, entries[j].0) is None,
        first_local_entry(entries, path) is None ==> forall|j: int|
            0 <= j < entries.len() ==> #[trigger] local_rest(path, entries[j].0) is None,
{
    if exists|i: int| 0 <= i < entries.len() && #[trigger] local_rest(path, entries[i].0) is Some {
        let i0 = choose|i: int| 0 <= i < entries.len() && #[trigger] local_rest(path, entries[i].0) is Some;
        let p = |i: int| 0 <= i < entries.len() && local_rest(path, entries[i].0) is Some;
        assert(p(i0));
        lemma_least_witness(p, i0);
        let w = choose|i: int| 0 <= i <= i0 && #[trigger] p(i) && forall|j: int| 0 <= j < i ==> !#[trigger] p(j);
        assert forall|j: int| 0 <= j < w implies #[trigger] local_rest(path, entries[j].0) is None by {
            assert(!p(j));
        }
        assert(0 <= w < entries.len() && local_rest(path, entries[w].0) is Some);
    }
}

/// The Roblox path of a script named `name` found in the folder `parent`
/// (empty for the mapped folder itself) under the Roblox path `roblox_prefix`.
pub open spec fn roblox_path_spec(roblox_prefix: Seq<char>, parent: Seq<char>, name: Seq<char>) -> Seq<char> {
    if parent.len() == 0 {
        roblox_prefix.push('/') + name
    } else {
        roblox_prefix.push('/') + parent.push('/') + name
    }
}

/// The folder part of `rest` as `Path::parent` gives it, with forward
/// slashes; empty where there is none.
pub open spec fn parent_folder(rest: Seq<char>) -> Seq<char> {
    match path_parent(rest) {
        Some(p) => forward_slashes(p),
        None => Seq::empty(),
    }
}

/// What `resolve_path` gives once the file name of `local_path` is known.
pub open spec fn resolve_named(
    local_path: Seq<char>,
    file_name: Seq<char>,
    entries: Seq<(Seq<char>, Seq<char>)>,
) -> Option<ResolvedView> {
    match script_name(file_name) {
        None => None,
        Some((name, kind)) => {
            let normalized = forward_slashes(local_path);
            match first_local_entry(entries, normalized) {
                None => None,
                Some(i) => {
                    let rest = local_rest(normalized, entries[i].0)->0;
                    Some(
                        ResolvedView {
                            name,
                            kind,
                            roblox_path: roblox_path_spec(entries[i].1, parent_folder(rest), name),
                            local_path,
                        },
                    )
                },
            }
        },
    }
}

/// What follows a mapped folder in a plain path is a plain path with the same
/// final component.
pub proof fn lemma_plain_rest(p: Seq<char>, folder: Seq<char>)
    requires
        is_plain_path(p),
        local_rest(p, folder) is Some,
    ensures
        is_plain_path(local_rest(p, folder)->0),
        plain_file_name(local_rest(p, folder)->0) == plain_file_name(p),
        p == drop_trailing(folder, CharClass::Slash).push('/') + local_rest(p, folder)->0,
{
    let prefix = drop_trailing(folder, CharClass::Slash).push('/');
    let m = prefix.len() as int;
    assert(p.take(m) == prefix);
    assert(p[m - 1] == p.take(m)[m - 1]);
    lemma_plain_suffix(p, m);
    assert(p =~= prefix + p.skip(m));
}

/// What `resolve_path` gives for a plain relative path: the script named by
/// its final component, under the Roblox path of the first mapping whose
/// folder contains it, inside the folders that lie between.
pub open spec fn plain_resolve(p: Seq<char>, entries: Seq<(Seq<char>, Seq<char>)>) -> Option<
    ResolvedView,
> {
    match script_name(plain_file_name(p)) {
        None => None,
        Some((name, kind)) => match first_local_entry(entries, p) {
            None => None,
            Some(i) => {
                let rest = local_rest(p, entries[i].0)->0;
                Some(
                    ResolvedView {
                        name,
                        kind,
                        roblox_path: roblox_path_spec(entries[i].1, plain_parent(rest), name),
                        local_path: p,
                    },
                )
            },
        },
    }
}

/// What `resolve_path` gives for `local_path`.
pub open spec fn resolve_spec(local_path: Seq<char>, entries: Seq<(Seq<char>, Seq<char>)>) -> Option<
    ResolvedView,
> {
    match path_file_name(local_path) {
        None => None,
        Some(file_name) => resolve_named(local_path, file_name, entries),
    }
}

/// The Roblox path of a script named `name` found in the folder `parent`
/// (empty for the mapped folder itself) under the Roblox path `roblox_prefix`.
pub fn roblox_path_for(roblox_prefix: &str, parent: &str, name: &str) -> (r: String)
    ensures
        r@ == roblox_path_spec(roblox_prefix@, parent@, name@),
{
    let mut out = chars_of(roblox_prefix);
    out.push('/');
    let parent_chars = chars_of(parent);
    if parent_chars.len() > 0 {
        push_chars(&mut out, &parent_chars);
        out.push('/');
    }
    push_str(&mut out, name);
    assert(out@ =~= roblox_path_spec(roblox_prefix@, parent@, name@));
    string_of(&out)
}

/// The first entry whose local folder contains `path`, with what follows
/// that folder in `path`.
fn find_local_entry(path: &[char], mappings: &Mappings) -> (r: Option<(usize, Vec<char>)>)
    ensures
        r matches Some((i, rest)) ==> first_local_entry(mappings@, path@) == Some(i as int)
            && local_rest(path@, mappings@[i as int].0) == Some(rest@) && i < mappings@.len(),
        r is None ==> first_local_entry(mappings@, path@) is None,
{
    let n = mappings.len();
    let mut i: usize = 0;
    while i < n
        invariant
            n == mappings@.len(),
            i <= n,
            forall|j: int| 0 <= j < i ==> #[trigger] local_rest(path@, mappings@[j].0) is None,
        decreases n - i,
    {
        let (folder, _) = mappings.entry(i);
        let folder_chars = chars_of(folder.as_str());
        let slashes = count_trailing(&folder_chars, folder_chars.len(), CharClass::Slash);
        let mut prefix = sub_chars(&folder_chars, 0, folder_chars.len() - slashes);
        proof {
            assert(folder_chars@.take(folder_chars@.len() as int) == folder_chars@);
            assert(prefix@ == drop_trailing(folder_chars@, CharClass::Slash));
        }
        prefix.push('/');
        if let Some(rest) = strip_prefix_chars(path, &prefix) {
            proof {
                lemma_first_local_entry(mappings@, path@);
                let k = first_local_entry(mappings@, path@)->0;
                if k < i {
                    assert(local_rest(path@, mappings@[k].0) is None);
                } else if k > i {
                    assert(local_rest(path@, mappings@[i as int].0) is Some);
                }
            }
            return Some((i, rest));
        }
        i = i + 1;
    }
    proof {
        lemma_first_local_entry(mappings@, path@);
        if first_local_entry(mappings@, path@) is Some {
            let k = first_local_entry(mappings@, path@)->0;
            assert(local_rest(path@, mappings@[k].0) is None);
        }
    }
    None
}

/// The folder part of `rest` as `Path::parent` gives it, with forward
/// slashes; empty where there is none.
fn parent_folder_of(rest: &str) -> (r: Vec<char>)
    ensures
        r@ == parent_folder(rest@),
        is_plain_path(rest@) ==> r@ == plain_parent(rest@),
{
    match parent_of(rest) {
        Some(p) => {
            let chars = chars_of(p.as_str());
            let r = replace_chars(&chars, '\\', '/');
            proof {
                if is_plain_path(rest@) {
                    lemma_plain_split(rest@);
                    assert(r@ =~= plain_parent(rest@));
                }
            }
            r
        },
        None => Vec::new(),
    }
}

/// Resolves `local_path`, whose file name is `file_name`, against the
/// mappings.
pub fn resolve_with_file_name(local_path: &str, file_name: &str, mappings: &Mappings) -> (r: Option<
    ResolvedScript,
>)
    ensures
        r matches Some(s) ==> resolve_named(local_path@, file_name@, mappings@) == Some(s@),
        r is None ==> resolve_named(local_path@, file_name@, mappings@) is None,
        is_plain_path(local_path@) && file_name@ == plain_file_name(local_path@) ==> (r matches Some(
            s,
        ) ==> plain_resolve(local_path@, mappings@) == Some(s@)) && (r is None ==> plain_resolve(
            local_path@,
            mappings@,
        ) is None),
{
    let (name, kind) = match parse_script_name(file_name) {
        Some(parsed) => parsed,
        None => return None,
    };
    let path_chars = chars_of(local_path);
    let normalized = replace_chars(&path_chars, '\\', '/');
    proof {
        if is_plain_path(local_path@) {
            lemma_plain_path_chars(local_path@);
            assert(normalized@ =~= local_path@);
        }
    }
    let (i, rest) = match find_local_entry(&normalized, mappings) {
        Some(found) => found,
        None => return None,
    };
    let (_, roblox_prefix) = mappings.entry(i);
    proof {
        if is_plain_path(local_path@) {
            let folder = mappings@[i as int].0;
            let prefix = drop_trailing(folder, CharClass::Slash).push('/');
            assert(normalized@.take(prefix.len() as int) == prefix);
            assert(normalized@[prefix.len() - 1] == normalized@.take(prefix.len() as int)[prefix.len() - 1]);
            lemma_plain_suffix(local_path@, prefix.len() as int);
        }
    }
    let rest_text = string_of(&rest);
    let parent = string_of(&parent_folder_of(rest_text.as_str()));
    let roblox_path = roblox_path_for(roblox_prefix.as_str(), parent.as_str(), name.as_str());
    Some(ResolvedScript { name, kind, roblox_path, local_path: local_path.to_owned() })
}

/// Resolves a local file path (relative to the project root) to the script
/// it holds: its name and class from the file name, and its Roblox path from
/// the first mapping whose local folder contains it. `None` where the file
/// name is no script name or no mapping contains the file.
pub fn resolve_path(local_path: &str, mappings: &Mappings) -> (r: Option<ResolvedScript>)
    ensures
        r matches Some(s) ==> resolve_spec(local_path@, mappings@) == Some(s@),
        r is None ==> resolve_spec(local_path@, mappings@) is None,
        is_plain_path(local_path@) ==> (r matches Some(s) ==> plain_resolve(local_path@, mappings@)
            == Some(s@)) && (r is None ==> plain_resolve(local_path@, mappings@) is None),
{
    let file_name = match file_name_of(local_path) {
        Some(f) => f,
        None => return None,
    };
    resolve_with_file_name(local_path, file_name.as_str(), mappings)
}

} // verus!
