//! The rules behind the file commands: what a path with a tilde stands for,
//! which entries a search for notes visits and collects, where a pasted
//! image is kept, and whether a plugin is listed as installed.
//!
//! Reading, writing and walking directories are the caller's work.

use crate::text::{contains_text, decimal, occurs_in, same_text, string_from_chars, to_chars,
    wide_decimal_string};
use vstd::prelude::*;

verus! {

/// `path` with a tilde at its start replaced by `home`.
pub open spec fn expanded(path: Seq<char>, home: Seq<char>) -> Seq<char> {
    if path.len() > 0 && path[0] == '~' {
        home + path.skip(1)
    } else {
        path
    }
}

/// `path` with a tilde at its start replaced by `home`, where a slash
/// follows the tilde.
pub open spec fn expanded_dir(path: Seq<char>, home: Seq<char>) -> Seq<char> {
    if path.len() > 1 && path[0] == '~' && path[1] == '/' {
        home + path.skip(1)
    } else {
        path
    }
}

fn replace_first(path: &Vec<char>, home: &str) -> (replaced: String)
    requires
        path@.len() > 0,
    ensures
        replaced@ == home@ + path@.skip(1),
{
    let mut rest: Vec<char> = Vec::new();
    let mut i: usize = 1;
    while i < path.len()
        invariant
            1 <= i <= path.len(),
            rest@ == path@.subrange(1, i as int),
        decreases path.len() - i,
    {
        rest.push(path[i]);
        assert(path@.subrange(1, i as int + 1) =~= path@.subrange(1, i as int).push(
            path@[i as int],
        ));
        i = i + 1;
    }
    assert(rest@ =~= path@.skip(1));
    let mut replaced = home.to_owned();
    replaced.append(string_from_chars(&rest).as_str());
    replaced
}

/// The path that `path` stands for when a tilde at its start means `home`.
pub fn expand_home(path: &str, home: &str) -> (full: String)
    ensures
        full@ == expanded(path@, home@),
{
    let chars = to_chars(path);
    if chars.len() > 0 && chars[0] == '~' {
        replace_first(&chars, home)
    } else {
        path.to_owned()
    }
}

/// The path that `path` stands for when `~/` at its start means the
/// directory `home`.
pub fn expand_home_dir(path: &str, home: &str) -> (full: String)
    ensures
        full@ == expanded_dir(path@, home@),
{
    let chars = to_chars(path);
    if chars.len() > 1 && chars[0] == '~' && chars[1] == '/' {
        replace_first(&chars, home)
    } else {
        path.to_owned()
    }
}

/// How deep below its start a search for notes goes.
pub const MAX_WALK_DEPTH: u32 = 5;

/// Whether a search visits a directory `depth` levels below its start.
pub fn within_depth(depth: u32) -> (visited: bool)
    ensures
        visited == (depth <= MAX_WALK_DEPTH),
{
    depth <= MAX_WALK_DEPTH
}

/// What a search for notes does with a directory entry.
#[derive(Clone, Copy, Debug, PartialEq, Eq, Structural)]
pub enum EntryAction {
    /// Pass over the entry.
    Skip,
    /// Search the directory.
    Descend,
    /// Add the file to the notes found.
    Collect,
}

/// Whether an entry is hidden, or one of the directories that hold
/// dependencies or build output.
pub open spec fn passed_over(name: Seq<char>) -> bool {
    ||| (name.len() > 0 && name[0] == '.')
    ||| name == "node_modules"@
    ||| name == "target"@
    ||| name == "dist"@
}

/// Whether a file name ends in `.md`.
pub open spec fn is_note(name: Seq<char>) -> bool {
    name.len() >= 3 && name.subrange(name.len() - 3, name.len() as int) == seq!['.', 'm', 'd']
}

/// What a search for notes does with the entry `name`.
pub open spec fn action_for(name: Seq<char>, is_dir: bool) -> EntryAction {
    if passed_over(name) {
        EntryAction::Skip
    } else if is_dir {
        EntryAction::Descend
    } else if is_note(name) {
        EntryAction::Collect
    } else {
        EntryAction::Skip
    }
}

/// What a search for notes does with the entry `name`, a directory or not.
pub fn entry_action(name: &str, is_dir: bool) -> (action: EntryAction)
    ensures
        action == action_for(name@, is_dir),
{
    let chars = to_chars(name);
    if chars.len() > 0 && chars[0] == '.' {
        return EntryAction::Skip;
    }
    if same_text(&chars, &to_chars("node_modules")) || same_text(&chars, &to_chars("target"))
        || same_text(&chars, &to_chars("dist")) {
        return EntryAction::Skip;
    }
    if is_dir {
        return EntryAction::Descend;
    }
    let len = chars.len();
    if len >= 3 && chars[len - 3] == '.' && chars[len - 2] == 'm' && chars[len - 1] == 'd' {
        assert(chars@.subrange(len - 3, len as int) =~= seq!['.', 'm', 'd']);
        EntryAction::Collect
    } else {
        assert(!is_note(chars@)) by {
            if is_note(chars@) {
                let tail = chars@.subrange(len - 3, len as int);
                assert(tail[0] == '.' && tail[1] == 'm' && tail[2] == 'd');
            }
        }
        EntryAction::Skip
    }
}

/// The directory in which pasted images are kept.
pub open spec fn image_dir_for(home: Seq<char>) -> Seq<char> {
    home + "/.ade/images"@
}

/// The file name of an image pasted at `millis` milliseconds after the
/// epoch.
pub open spec fn image_name_for(millis: u128, extension: Seq<char>) -> Seq<char> {
    "paste-"@ + decimal(millis as nat) + "."@ + extension
}

/// The path under which an image pasted at `millis` is kept.
pub open spec fn image_path_for(home: Seq<char>, millis: u128, extension: Seq<char>) -> Seq<
    char,
> {
    image_dir_for(home) + "/"@ + image_name_for(millis, extension)
}

/// The directory in which pasted images are kept.
pub fn image_dir(home: &str) -> (dir: String)
    ensures
        dir@ == image_dir_for(home@),
{
    let mut dir = home.to_owned();
    dir.append("/.ade/images");
    dir
}

/// The path under which an image pasted at `millis` milliseconds after the
/// epoch is kept.
pub fn image_path(home: &str, millis: u128, extension: &str) -> (path: String)
    ensures
        path@ == image_path_for(home@, millis, extension@),
{
    let mut path = image_dir(home);
    path.append("/");
    path.append("paste-");
    path.append(wide_decimal_string(millis).as_str());
    path.append(".");
    path.append(extension);
    assert(path@ =~= image_path_for(home@, millis, extension@));
    path
}

/// Whether the list of installed plugins names `plugin`: whether the name
/// occurs anywhere in the list.
pub fn lists_plugin(list: &str, plugin: &str) -> (listed: bool)
    ensures
        listed == occurs_in(list@, plugin@),
{
    contains_text(&to_chars(list), &to_chars(plugin))
}

} // verus!
