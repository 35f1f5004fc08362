//! What a changed local file pushes to Studio.

use vstd::prelude::*;
use crate::events::Event;
use crate::mapping::{kind_name, plain_resolve, resolve_path, resolve_spec, ResolvedScript};
use crate::plain_path::is_plain_path;
use crate::text::is_white_space;
use crate::mappings::Mappings;

verus! {

/// What the `ignore` crate's gitignore matcher answers: built with the root
/// `root` from the lines of `patterns` (a `.rozedignore` file's text),
/// whether it ignores the file at `rel`.
pub uninterp spec fn rozedignore_ignores(root: Seq<char>, patterns: Seq<char>, rel: Seq<char>) -> bool;

/// A character that a `.rozedignore` line reads as glob or line syntax
/// (`*`, `?`, `[`, `]`, `{`, `}`, `!`, `#`), or a byte-order mark.
pub open spec fn is_pattern_syntax(c: char) -> bool {
    c == '*' || c == '?' || c == '[' || c == ']' || c == '{' || c == '}' || c == '!' || c == '#'
        || c == '\u{feff}'
}

/// A relative path that, written as a `.rozedignore` line, names exactly
/// itself: a plain path without pattern syntax or white space.
pub open spec fn is_literal_pattern(rel: Seq<char>) -> bool {
    &&& is_plain_path(rel)
    &&& forall|i: int|
        0 <= i < rel.len() ==> !is_pattern_syntax(#[trigger] rel[i]) && !is_white_space(rel[i])
}

/// Whether `.rozedignore` ignores the file `rel`: a matcher from
/// `ignore::gitignore::GitignoreBuilder` with the root `root`, one
/// `add_line` per line of `patterns` (a leading byte-order mark dropped, as
/// `GitignoreBuilder::add` does for a file), `build`, then `matched(rel,
/// false).is_ignore()`; a matcher that fails to build ignores nothing.
/// The answer is named by `rozedignore_ignores`; two further claims follow
/// the crate's source: with no pattern text there is no glob, the matcher is
/// empty, and nothing is ignored; and a file whose path is the only line, a
/// literal pattern, is ignored where the root is absolute (the line becomes
/// an anchored literal glob, and `matched` leaves a relative path that does
/// not start with the root as it is).
#[verifier::external_body]
fn rozedignore_matches(root: &str, patterns: &str, rel: &str) -> (b: bool)
    ensures
        b == rozedignore_ignores(root@, patterns@, rel@),
        patterns@.len() == 0 ==> !b,
        patterns@ == rel@ && is_literal_pattern(rel@) && root@.len() > 0 && root@[0] == '/' ==> b,
{
    let mut builder = ignore::gitignore::GitignoreBuilder::new(root);
    for line in patterns.trim_start_matches('\u{feff}').lines() {
        let _ = builder.add_line(None, line);
    }
    match builder.build() {
        Ok(matcher) => matcher.matched(rel, false).is_ignore(),
        Err(_) => false,
    }
}

/// The script that a changed file at `rel_path` (relative to the project
/// root `root`) pushes: none where `.rozedignore` (its text is `patterns`,
/// empty where there is no such file) ignores it, where it was not modified
/// within the sync window (`unchanged`), or where it resolves to no script.
pub fn changed_file_target(
    rel_path: &str,
    mappings: &Mappings,
    root: &str,
    patterns: &str,
    unchanged: bool,
) -> (r: Option<ResolvedScript>)
    ensures
        rozedignore_ignores(root@, patterns@, rel_path@) || unchanged ==> r is None,
        !rozedignore_ignores(root@, patterns@, rel_path@) && !unchanged ==> (r matches Some(s)
            ==> resolve_spec(rel_path@, mappings@) == Some(s@)) && (r is None ==> resolve_spec(
            rel_path@,
            mappings@,
        ) is None),
        patterns@.len() == 0 && !unchanged ==> (r matches Some(s) ==> resolve_spec(
            rel_path@,
            mappings@,
        ) == Some(s@)) && (r is None ==> resolve_spec(rel_path@, mappings@) is None),
        patterns@ == rel_path@ && is_literal_pattern(rel_path@) && root@.len() > 0 && root@[0] == '/'
            ==> r is None,
        is_plain_path(rel_path@) && (patterns@.len() == 0 || !rozedignore_ignores(
            root@,
            patterns@,
            rel_path@,
        )) && !unchanged ==> (r matches Some(s) ==> plain_resolve(rel_path@, mappings@) == Some(s@))
            && (r is None ==> plain_resolve(rel_path@, mappings@) is None),
{
    if unchanged || rozedignore_matches(root, patterns, rel_path) {
        return None;
    }
    resolve_path(rel_path, mappings)
}

/// The event that pushes `script`, whose file holds `source`.
pub fn script_pushed_event(script: ResolvedScript, source: String) -> (e: Event)
    ensures
        e matches Event::ScriptPushed { name, kind, roblox_path, source: s } && name@ == script.name@
            && kind@ == kind_name(script.kind) && roblox_path@ == script.roblox_path@ && s@ == source@,
{
    let kind = script.kind.as_str().to_owned();
    Event::ScriptPushed { name: script.name, kind, roblox_path: script.roblox_path, source }
}

} // verus!
