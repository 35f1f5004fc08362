//! Pulling scripts from Studio back to disk: where each script goes, whether
//! it conflicts with the local file, and the name of the backup copy.

use vstd::prelude::*;
use crate::events::{IncomingScript, IncomingView, PullFile, PullFileView};
use crate::mapping::{
    first_local_entry, kind_name, lemma_first_local_entry, lemma_plain_rest, local_rest, plain_resolve, roblox_path_spec,
    script_name, ScriptKind,
};
use crate::plain_path::{is_plain_path, lemma_plain_split, plain_file_name, plain_parent};
use crate::mappings::{lemma_least_witness, Mappings};
use crate::text::{
    drop_trailing, CharClass, chars_of, law_strip_splits_text, push_str, string_of, strip_prefix, strip_prefix_chars, strip_suffix, trim,
    trim_chars,
};

verus! {

/// The local file for a pulled script: `file_name` inside the mapped local
/// folder `folder` (both relative to the project root; `file_name` may hold
/// subfolders).
#[derive(Clone, Debug)]
pub struct LocalTarget {
    pub folder: String,
    pub file_name: String,
}

/// The file suffix for a Roblox class name.
pub open spec fn kind_extension(kind: Seq<char>) -> Option<Seq<char>> {
    if kind == "ModuleScript"@ {
        Some("module.luau"@)
    } else if kind == "Script"@ {
        Some("server.luau"@)
    } else if kind == "LocalScript"@ {
        Some("client.luau"@)
    } else {
        None
    }
}

/// What follows the Roblox path `prefix` and one `/` at the start of
/// `roblox_path`.
pub open spec fn roblox_rest(roblox_path: Seq<char>, prefix: Seq<char>) -> Option<Seq<char>> {
    strip_prefix(roblox_path, prefix.push('/'))
}

/// The index of the first entry whose Roblox path contains `roblox_path`.
pub open spec fn first_roblox_entry(entries: Seq<(Seq<char>, Seq<char>)>, roblox_path: Seq<char>) -> Option<
    int,
> {
    if exists|i: int| 0 <= i < entries.len() && #[trigger] roblox_rest(roblox_path, entries[i].1) is Some {
        Some(
            choose|i: int|
                0 <= i < entries.len() && #[trigger] roblox_rest(roblox_path, entries[i].1) is Some
                    && forall|j: int| 0 <= j < i ==> #[trigger] roblox_rest(roblox_path, entries[j].1) is None,
        )
    } else {
        None
    }
}

/// What `first_roblox_entry` finds: the first entry that contains
/// `roblox_path`, or none at all.
pub proof fn lemma_first_roblox_entry(entries: Seq<(Seq<char>, Seq<char>)>, roblox_path: Seq<char>)
    ensures
        first_roblox_entry(entries, roblox_path) matches Some(i) ==> 0 <= i < entries.len()
            && roblox_rest(roblox_path, entries[i].1) is Some && forall|j: int|
            0 <= j < i ==> #[trigger] roblox_rest(roblox_path, entries[j].1) is None,
        first_roblox_entry(entries, roblox_path) is None ==> forall|j: int|
            0 <= j < entries.len() ==> #[trigger] roblox_rest(roblox_path, entries[j].1) is None,
{
    if exists|i: int| 0 <= i < entries.len() && #[trigger] roblox_rest(roblox_path, entries[i].1) is Some {
        let i0 = choose|i: int| 0 <= i < entries.len() && #[trigger] roblox_rest(roblox_path, entries[i].1) is Some;
        let p = |i: int| 0 <= i < entries.len() && roblox_rest(roblox_path, entries[i].1) is Some;
        assert(p(i0));
        lemma_least_witness(p, i0);
        let w = choose|i: int| 0 <= i <= i0 && #[trigger] p(i) && forall|j: int| 0 <= j < i ==> !#[trigger] p(j);
        assert forall|j: int| 0 <= j < w implies #[trigger] roblox_rest(roblox_path, entries[j].1) is None by {
            assert(!p(j));
        }
        assert(0 <= w < entries.len() && roblox_rest(roblox_path, entries[w].1) is Some);
    }
}

/// Where a script of class `kind` at `roblox_path` goes on disk: the local
/// folder of the first mapping whose Roblox path contains it, and the rest of
/// the Roblox path with the class's file suffix.
pub open spec fn local_target_spec(
    roblox_path: Seq<char>,
    kind: Seq<char>,
    entries: Seq<(Seq<char>, Seq<char>)>,
) -> Option<(Seq<char>, Seq<char>)> {
    match kind_extension(kind) {
        None => None,
        Some(ext) => match first_roblox_entry(entries, roblox_path) {
            None => None,
            Some(i) => Some(
                (entries[i].0, roblox_rest(roblox_path, entries[i].1)->0.push('.') + ext),
            ),
        },
    }
}

/// The file suffix for the Roblox class name `kind`.
fn extension_for(kind: &str) -> (r: Option<&'static str>)
    ensures
        r matches Some(e) ==> kind_extension(kind@) == Some(e@),
        r is None ==> kind_extension(kind@) is None,
{
    let k = kind.to_owned();
    if k == "ModuleScript".to_owned() {
        Some("module.luau")
    } else if k == "Script".to_owned() {
        Some("server.luau")
    } else if k == "LocalScript".to_owned() {
        Some("client.luau")
    } else {
        None
    }
}

/// The local file that a script from Studio goes to: `None` where its class
/// is unknown or no mapping's Roblox path contains it.
pub fn resolve_to_local_path(script: &IncomingScript, mappings: &Mappings) -> (r: Option<LocalTarget>)
    ensures
        r matches Some(t) ==> local_target_spec(script.roblox_path@, script.kind@, mappings@) == Some(
            (t.folder@, t.file_name@),
        ),
        r is None ==> local_target_spec(script.roblox_path@, script.kind@, mappings@) is None,
{
    let ext = match extension_for(script.kind.as_str()) {
        Some(e) => e,
        None => return None,
    };
    let path = chars_of(script.roblox_path.as_str());
    let n = mappings.len();
    let mut i: usize = 0;
    while i < n
        invariant
            n == mappings@.len(),
            i <= n,
            path@ == script.roblox_path@,
            kind_extension(script.kind@) == Some(ext@),
            forall|j: int| 0 <= j < i ==> #[trigger] roblox_rest(path@, mappings@[j].1) is None,
        decreases n - i,
    {
        let (folder, roblox_prefix) = mappings.entry(i);
        let mut prefix = chars_of(roblox_prefix.as_str());
        prefix.push('/');
        if let Some(rest) = strip_prefix_chars(&path, &prefix) {
            proof {
                assert(prefix@ == mappings@[i as int].1.push('/'));
                assert(roblox_rest(path@, mappings@[i as int].1) == Some(rest@));
                lemma_first_roblox_entry(mappings@, path@);
                if first_roblox_entry(mappings@, path@) is None {
                    assert(roblox_rest(path@, mappings@[i as int].1) is None);
                }
                let k = first_roblox_entry(mappings@, path@)->0;
                if k < i {
                    assert(roblox_rest(path@, mappings@[k].1) is None);
                } else if k > i {
                    assert(roblox_rest(path@, mappings@[i as int].1) is Some);
                }
            }
            let mut file_name = rest;
            file_name.push('.');
            push_str(&mut file_name, ext);
            let target = LocalTarget { folder: folder.clone(), file_name: string_of(&file_name) };
            return Some(target);
        }
        i = i + 1;
    }
    proof {
        lemma_first_roblox_entry(mappings@, path@);
        if first_roblox_entry(mappings@, path@) is Some {
            let k = first_roblox_entry(mappings@, path@)->0;
            assert(roblox_rest(path@, mappings@[k].1) is None);
        }
    }
    None
}

/// Whether a script from Studio conflicts with the local file's content
/// `existing` (`None` where there is no local file): the two differ beyond
/// leading and trailing white space.
pub open spec fn conflicts(source: Seq<char>, existing: Option<Seq<char>>) -> bool {
    match existing {
        Some(e) => trim(e) != trim(source),
        None => false,
    }
}

/// The characters of an optional string.
pub open spec fn text_of(s: Option<&str>) -> Option<Seq<char>> {
    match s {
        Some(t) => Some(t@),
        None => None,
    }
}

/// Checks a script from Studio against the content of its local file
/// (`existing`, `None` where the file does not exist): the script with a
/// conflict flag.
pub fn check_conflict(script: &IncomingScript, existing: Option<&str>) -> (r: PullFile)
    ensures
        r@ == (PullFileView {
            roblox_path: script.roblox_path@,
            name: script.name@,
            kind: script.kind@,
            source: script.source@,
            conflict: conflicts(script.source@, text_of(existing)),
        }),
        existing matches Some(e) ==> r.conflict == conflicts(script.source@, Some(e@)),
        existing is None ==> !r.conflict,
{
    let conflict = match existing {
        Some(e) => differ_trimmed(e, script.source.as_str()),
        None => false,
    };
    PullFile {
        roblox_path: script.roblox_path.clone(),
        name: script.name.clone(),
        kind: script.kind.clone(),
        source: script.source.clone(),
        conflict,
    }
}

/// Whether writing `source` over a local file keeps a backup copy of it:
/// where the file exists and its content is not exactly `source`, or cannot
/// be read (`existing` is `None`).
pub open spec fn backup_needed(exists: bool, existing: Option<Seq<char>>, source: Seq<char>) -> bool {
    exists && match existing {
        Some(e) => e != source,
        None => true,
    }
}

/// Whether two texts differ beyond leading and trailing white space.
fn differ_trimmed(a: &str, b: &str) -> (r: bool)
    ensures
        r == (trim(a@) != trim(b@)),
{
    let a_trimmed = trim_chars(&chars_of(a));
    let b_trimmed = trim_chars(&chars_of(b));
    string_of(&a_trimmed) != string_of(&b_trimmed)
}

/// Whether writing `source` over the local file keeps a backup copy:
/// `exists` tells whether the file is there, `existing` holds its content
/// where it could be read.
pub fn needs_backup(exists: bool, existing: Option<&str>, source: &str) -> (b: bool)
    ensures
        b == backup_needed(exists, text_of(existing), source@),
        existing matches Some(e) ==> b == backup_needed(exists, Some(e@), source@),
        existing is None ==> b == exists,
{
    if !exists {
        return false;
    }
    match existing {
        Some(e) => e.to_owned() != source.to_owned(),
        None => true,
    }
}

/// Why a pulled script cannot be written.
#[derive(Clone, Debug)]
pub enum PullError {
    /// No local file corresponds to the script's Roblox path and class.
    Unresolvable { roblox_path: String },
}

/// The local file that a checked script is written to, or the error that
/// names its Roblox path where there is none.
pub fn write_target(file: &PullFile, mappings: &Mappings) -> (r: Result<LocalTarget, PullError>)
    ensures
        r matches Ok(t) ==> local_target_spec(file.roblox_path@, file.kind@, mappings@) == Some(
            (t.folder@, t.file_name@),
        ),
        r matches Err(PullError::Unresolvable { roblox_path }) ==> local_target_spec(
            file.roblox_path@,
            file.kind@,
            mappings@,
        ) is None && roblox_path@ == file.roblox_path@,
{
    let script = IncomingScript {
        roblox_path: file.roblox_path.clone(),
        name: file.name.clone(),
        kind: file.kind.clone(),
        source: file.source.clone(),
    };
    match resolve_to_local_path(&script, mappings) {
        Some(target) => Ok(target),
        None => Err(PullError::Unresolvable { roblox_path: file.roblox_path.clone() }),
    }
}

/// The path of the backup copy of a local file: the path with `.backup`
/// appended.
pub fn backup_path(local_path: &str) -> (r: String)
    ensures
        r@ == local_path@ + ".backup"@,
{
    let mut out = chars_of(local_path);
    push_str(&mut out, ".backup");
    string_of(&out)
}

/// The file suffix of each script class.
proof fn lemma_kind_extensions()
    ensures
        kind_extension(kind_name(ScriptKind::ModuleScript)) == Some("module.luau"@),
        kind_extension(kind_name(ScriptKind::Script)) == Some("server.luau"@),
        kind_extension(kind_name(ScriptKind::LocalScript)) == Some("client.luau"@),
{
    reveal_strlit("ModuleScript");
    reveal_strlit("Script");
    reveal_strlit("LocalScript");
    assert("ModuleScript"@.len() == 12);
    assert("Script"@.len() == 6);
    assert("LocalScript"@.len() == 11);
}

/// The file name that a pull gives a script named `name` of class `kind`.
pub open spec fn pulled_file_name(name: Seq<char>, kind: ScriptKind) -> Seq<char> {
    name.push('.') + kind_extension(kind_name(kind))->0
}

/// A file that a pull writes is read back by a push as the same script: the
/// file name of a script named `name` of class `kind` spells that name and
/// class.
pub proof fn law_pulled_file_name_reads_back(name: Seq<char>, kind: ScriptKind)
    ensures
        kind_extension(kind_name(kind)) is Some,
        script_name(pulled_file_name(name, kind)) == Some((name, kind)),
{
    lemma_kind_extensions();
    reveal_strlit("module.luau");
    reveal_strlit("server.luau");
    reveal_strlit("client.luau");
    reveal_strlit(".luau");
    reveal_strlit(".module");
    reveal_strlit(".server");
    reveal_strlit(".client");
    let f = pulled_file_name(name, kind);
    let stem = f.take(f.len() - 5);
    assert(f.skip(f.len() - 5) =~= ".luau"@);
    match kind {
        ScriptKind::ModuleScript => {
            assert(stem =~= name + ".module"@);
            assert(stem.skip(stem.len() - 7) =~= ".module"@);
            assert(stem.take(stem.len() - 7) =~= name);
        },
        ScriptKind::Script => {
            assert(stem =~= name + ".server"@);
            assert(stem.skip(stem.len() - 7) != ".module"@) by {
                assert(stem.skip(stem.len() - 7)[1] == 's');
            }
            assert(stem.skip(stem.len() - 7) =~= ".server"@);
            assert(stem.take(stem.len() - 7) =~= name);
        },
        ScriptKind::LocalScript => {
            assert(stem =~= name + ".client"@);
            assert(stem.skip(stem.len() - 7) != ".module"@) by {
                assert(stem.skip(stem.len() - 7)[1] == 'c');
            }
            assert(stem.skip(stem.len() - 7) != ".server"@) by {
                assert(stem.skip(stem.len() - 7)[1] == 'c');
            }
            assert(stem.skip(stem.len() - 7) =~= ".client"@);
            assert(stem.take(stem.len() - 7) =~= name);
        },
    }
}

/// A pushed script, pulled back, goes to the file it was pushed from: a
/// script file `file_name` in the folder `parent` (empty for the mapped
/// folder itself) of mapping `i` is pushed to the Roblox path
/// `roblox_path_spec(..)`, and a pull of that path with the script's class
/// writes `parent/file_name` in the same local folder. This holds where no
/// earlier mapping's Roblox path also contains the pushed path.
pub proof fn law_pull_returns_pushed_file(
    entries: Seq<(Seq<char>, Seq<char>)>,
    i: int,
    parent: Seq<char>,
    file_name: Seq<char>,
)
    requires
        0 <= i < entries.len(),
        script_name(file_name) is Some,
        forall|j: int|
            0 <= j < i ==> #[trigger] roblox_rest(
                roblox_path_spec(entries[i].1, parent, (script_name(file_name)->0).0),
                entries[j].1,
            ) is None,
    ensures
        ({
            let (name, kind) = script_name(file_name)->0;
            local_target_spec(roblox_path_spec(entries[i].1, parent, name), kind_name(kind), entries)
                == Some(
                (
                    entries[i].0,
                    if parent.len() == 0 {
                        file_name
                    } else {
                        parent.push('/') + file_name
                    },
                ),
            )
        }),
{
    lemma_kind_extensions();
    reveal_strlit("module.luau");
    reveal_strlit("server.luau");
    reveal_strlit("client.luau");
    reveal_strlit(".luau");
    reveal_strlit(".module");
    reveal_strlit(".server");
    reveal_strlit(".client");
    let (name, kind) = script_name(file_name)->0;
    let path = roblox_path_spec(entries[i].1, parent, name);
    let prefix = entries[i].1.push('/');
    let tail = if parent.len() == 0 { name } else { parent.push('/') + name };
    assert(path =~= prefix + tail);
    assert(path.take(prefix.len() as int) =~= prefix);
    assert(path.skip(prefix.len() as int) =~= tail);
    assert(roblox_rest(path, entries[i].1) == Some(tail));
    lemma_first_roblox_entry(entries, path);
    if first_roblox_entry(entries, path) is None {
        assert(roblox_rest(path, entries[i].1) is None);
    }
    let k = first_roblox_entry(entries, path)->0;
    if k < i {
        assert(roblox_rest(path, entries[k].1) is None);
    } else if k > i {
        assert(roblox_rest(path, entries[i].1) is None);
    }
    // The file name is the script name followed by the class's suffix.
    let stem = strip_suffix(file_name, ".luau"@)->0;
    assert(file_name =~= stem + ".luau"@);
    let ext = kind_extension(kind_name(kind))->0;
    match kind {
        ScriptKind::ModuleScript => {
            assert(stem =~= name + ".module"@);
            assert(name.push('.') + ext =~= file_name);
        },
        ScriptKind::Script => {
            assert(stem =~= name + ".server"@);
            assert(name.push('.') + ext =~= file_name);
        },
        ScriptKind::LocalScript => {
            assert(stem =~= name + ".client"@);
            assert(name.push('.') + ext =~= file_name);
        },
    }
    assert(tail.push('.') + ext =~= if parent.len() == 0 {
        file_name
    } else {
        parent.push('/') + file_name
    });
}

/// A script pushed from a local file is pulled back to that same file: for a
/// plain relative path `p` that resolves to a script under mapping `i`, a
/// pull of the script's Roblox path and class goes to mapping `i`'s folder,
/// at what follows that folder in `p` (so folder, `/` and that rest spell `p`
/// where the folder has no trailing `/`). This holds where no earlier
/// mapping's Roblox path also contains the pushed path.
pub proof fn law_pull_returns_file_of_push(entries: Seq<(Seq<char>, Seq<char>)>, p: Seq<char>)
    requires
        is_plain_path(p),
        plain_resolve(p, entries) is Some,
        forall|j: int|
            0 <= j < first_local_entry(entries, p)->0 ==> #[trigger] roblox_rest(
                (plain_resolve(p, entries)->0).roblox_path,
                entries[j].1,
            ) is None,
    ensures
        ({
            let i = first_local_entry(entries, p)->0;
            let s = plain_resolve(p, entries)->0;
            let rest = local_rest(p, entries[i].0)->0;
            &&& local_target_spec(s.roblox_path, kind_name(s.kind), entries) == Some((entries[i].0, rest))
            &&& drop_trailing(entries[i].0, CharClass::Slash) == entries[i].0 ==> entries[i].0.push('/')
                + rest == p
        }),
{
    let i = first_local_entry(entries, p)->0;
    lemma_first_local_entry(entries, p);
    let rest = local_rest(p, entries[i].0)->0;
    lemma_plain_rest(p, entries[i].0);
    lemma_plain_split(rest);
    law_pull_returns_pushed_file(entries, i, plain_parent(rest), plain_file_name(p));
}

/// A script from Studio conflicts with the local file exactly when the file
/// exists and the two texts, with leading and trailing white space set aside,
/// differ: in length or at some position. The relation is symmetric.
pub proof fn law_conflict_is_trimmed_difference(source: Seq<char>, existing: Seq<char>)
    ensures
        !conflicts(source, None),
        conflicts(source, Some(existing)) <==> (trim(existing).len() != trim(source).len()
            || exists|i: int|
            0 <= i < trim(source).len() && #[trigger] trim(existing)[i] != trim(source)[i]),
        conflicts(source, Some(existing)) == conflicts(existing, Some(source)),
{
    let a = trim(existing);
    let b = trim(source);
    if a.len() == b.len() && !exists|i: int| 0 <= i < b.len() && #[trigger] a[i] != b[i] {
        assert(a =~= b);
    }
    if a == b {
        assert(forall|i: int| 0 <= i < b.len() ==> #[trigger] a[i] == b[i]);
    }
}

/// Writing over an existing file keeps a backup exactly when the file's
/// content is not the new source (in length or at some position), or cannot
/// be read; writing where there is no file keeps none. Lengths alone decide
/// nothing: any difference keeps a backup.
pub proof fn law_backup_kept_for_any_difference(existing: Seq<char>, source: Seq<char>)
    ensures
        backup_needed(true, Some(existing), source) <==> (existing.len() != source.len() || exists|
            i: int,
        | 0 <= i < source.len() && #[trigger] existing[i] != source[i]),
        backup_needed(true, None, source),
        !backup_needed(false, Some(existing), source),
        !backup_needed(false, None, source),
        backup_needed(true, Some(existing), source) == backup_needed(true, Some(source), existing),
{
    if existing.len() == source.len() && !exists|i: int| 0 <= i < source.len() && #[trigger] existing[i] != source[i] {
        assert(existing =~= source);
    }
    if existing == source {
        assert(forall|i: int| 0 <= i < source.len() ==> #[trigger] existing[i] == source[i]);
    }
}

/// Every file name that spells a script is that script's name followed by
/// its class's suffix, so no other file name is read as a script.
pub proof fn law_script_file_names_are_suffixed(file_name: Seq<char>)
    ensures
        script_name(file_name) matches Some((name, kind)) ==> file_name == pulled_file_name(name, kind),
{
    lemma_kind_extensions();
    reveal_strlit("module.luau");
    reveal_strlit("server.luau");
    reveal_strlit("client.luau");
    reveal_strlit(".luau");
    reveal_strlit(".module");
    reveal_strlit(".server");
    reveal_strlit(".client");
    if let Some((name, kind)) = script_name(file_name) {
        let stem = strip_suffix(file_name, ".luau"@)->0;
        law_strip_splits_text(file_name, ".luau"@, stem);
        let ext = match kind {
            ScriptKind::ModuleScript => ".module"@,
            ScriptKind::Script => ".server"@,
            ScriptKind::LocalScript => ".client"@,
        };
        law_strip_splits_text(stem, ext, name);
        assert(file_name =~= pulled_file_name(name, kind));
    }
}

/// Appending a file suffix to a Roblox path is appending it to its name.
proof fn lemma_suffixed_roblox_path(r: Seq<char>, parent: Seq<char>, name: Seq<char>, ext: Seq<char>)
    ensures
        r.push('/') + (if parent.len() == 0 {
            name.push('.') + ext
        } else {
            parent.push('/') + (name.push('.') + ext)
        }) == roblox_path_spec(r, parent, name).push('.') + ext,
{
    if parent.len() == 0 {
        assert(r.push('/') + (name.push('.') + ext) =~= roblox_path_spec(r, parent, name).push('.') + ext);
    } else {
        assert(r.push('/') + (parent.push('/') + (name.push('.') + ext)) =~= roblox_path_spec(
            r,
            parent,
            name,
        ).push('.') + ext);
    }
}

/// The Roblox path of a script mirrors its local file: the mapping's Roblox
/// path, `/`, and what follows the mapped folder in the file's plain path
/// spell the script's Roblox path followed by its class's file suffix.
pub proof fn law_roblox_path_mirrors_local_path(p: Seq<char>, entries: Seq<(Seq<char>, Seq<char>)>)
    requires
        is_plain_path(p),
        plain_resolve(p, entries) is Some,
    ensures
        ({
            let i = first_local_entry(entries, p)->0;
            let s = plain_resolve(p, entries)->0;
            entries[i].1.push('/') + local_rest(p, entries[i].0)->0 == s.roblox_path.push('.')
                + kind_extension(kind_name(s.kind))->0
        }),
{
    let i = first_local_entry(entries, p)->0;
    lemma_first_local_entry(entries, p);
    let rest = local_rest(p, entries[i].0)->0;
    lemma_plain_rest(p, entries[i].0);
    lemma_plain_split(rest);
    let f = plain_file_name(p);
    law_script_file_names_are_suffixed(f);
    let name = (script_name(f)->0).0;
    let kind = (script_name(f)->0).1;
    let s = plain_resolve(p, entries)->0;
    assert(s.name == name && s.kind == kind);
    let parent = plain_parent(rest);
    assert(s.roblox_path == roblox_path_spec(entries[i].1, parent, name));
    let ext = kind_extension(kind_name(kind))->0;
    assert(f == name.push('.') + ext);
    lemma_suffixed_roblox_path(entries[i].1, parent, name, ext);
}

} // verus!
