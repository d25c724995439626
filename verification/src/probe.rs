//! The rules behind two probes of the host: where a command is looked for,
//! and which directory counts as the user's home.
//!
//! Looking at the disk and running helper programs are the caller's work;
//! this module says where to look and reads what the helpers print.

use crate::text::{find_last_word, last_word, same_text, string_from_chars, text_of, texts_of,
    to_chars, trim, trimmed};
use vstd::prelude::*;

verus! {

/// The directories in which a command is looked for, in order. The one
/// with a `*` is a pattern that may match several directories.
pub open spec fn search_dirs_for(home: Seq<char>) -> Seq<Seq<char>> {
    seq![
        home + "/.local/bin"@,
        home + "/.cargo/bin"@,
        home + "/bin"@,
        home + "/.nvm/versions/node/*/bin"@,
        "/usr/local/bin"@,
        "/opt/homebrew/bin"@,
        "/usr/bin"@,
        "/bin"@,
    ]
}

fn under(home: &str, rest: &str) -> (path: String)
    ensures
        path@ == home@ + rest@,
{
    let mut path = home.to_owned();
    path.append(rest);
    path
}

/// The directories in which a command is looked for, in order.
pub fn search_dirs(home: &str) -> (dirs: Vec<String>)
    ensures
        texts_of(dirs@) == search_dirs_for(home@),
{
    let mut dirs: Vec<String> = Vec::new();
    dirs.push(under(home, "/.local/bin"));
    dirs.push(under(home, "/.cargo/bin"));
    dirs.push(under(home, "/bin"));
    dirs.push(under(home, "/.nvm/versions/node/*/bin"));
    dirs.push("/usr/local/bin".to_owned());
    dirs.push("/opt/homebrew/bin".to_owned());
    dirs.push("/usr/bin".to_owned());
    dirs.push("/bin".to_owned());
    assert(texts_of(dirs@) =~= search_dirs_for(home@));
    dirs
}

/// Whether a directory is a pattern: whether it holds a `*`.
pub fn is_pattern(dir: &str) -> (pattern: bool)
    ensures
        pattern == dir@.contains('*'),
{
    let chars = to_chars(dir);
    let mut i: usize = 0;
    while i < chars.len()
        invariant
            i <= chars.len(),
            chars@ == dir@,
            forall|k: int| 0 <= k < i ==> chars@[k] != '*',
        decreases chars.len() - i,
    {
        if chars[i] == '*' {
            assert(dir@[i as int] == '*');
            return true;
        }
        i = i + 1;
    }
    false
}

/// Where `command` would be in `dir`.
pub fn candidate(dir: &str, command: &str) -> (path: String)
    ensures
        path@ == dir@ + "/"@ + command@,
{
    let mut path = dir.to_owned();
    path.append("/");
    path.append(command);
    path
}

/// The shells that are asked for a command that no directory holds, in
/// order.
pub open spec fn fallback_shells_list() -> Seq<Seq<char>> {
    seq!["/bin/zsh"@, "/bin/bash"@, "/bin/sh"@]
}

/// The shells that are asked for a command that no directory holds.
pub fn fallback_shells() -> (shells: Vec<String>)
    ensures
        texts_of(shells@) == fallback_shells_list(),
{
    let mut shells: Vec<String> = Vec::new();
    shells.push("/bin/zsh".to_owned());
    shells.push("/bin/bash".to_owned());
    shells.push("/bin/sh".to_owned());
    assert(texts_of(shells@) =~= fallback_shells_list());
    shells
}

/// The arguments that make a login shell look `command` up.
pub fn lookup_arguments(command: &str) -> (arguments: Vec<String>)
    ensures
        texts_of(arguments@) == seq!["-lc"@, "which "@ + command@],
{
    let mut arguments: Vec<String> = Vec::new();
    arguments.push("-lc".to_owned());
    arguments.push(under("which ", command));
    assert(texts_of(arguments@) =~= seq!["-lc"@, "which "@ + command@]);
    arguments
}

/// What a helper printed, without the white space around it, where
/// anything is left.
pub open spec fn printed(output: Seq<char>) -> Option<Seq<char>> {
    if trimmed(output).len() == 0 {
        None
    } else {
        Some(trimmed(output))
    }
}

/// What a helper printed, without the white space around it, where
/// anything is left.
pub fn printed_text(output: &str) -> (text: Option<String>)
    ensures
        text_of(text) == printed(output@),
{
    let kept = trim(&to_chars(output));
    if kept.len() == 0 {
        None
    } else {
        Some(string_from_chars(&kept))
    }
}

/// The error for a command that was found nowhere.
pub fn not_found(command: &str, home: &str) -> (message: String)
    ensures
        message@ == command@ + " not found in "@ + home@ + " or PATH"@,
{
    let mut message = command.to_owned();
    message.append(" not found in ");
    message.append(home);
    message.append(" or PATH");
    message
}

/// A way of learning the user's home directory. The ways are tried in this
/// order, and the first whose directory exists wins.
#[derive(Clone, Copy, Debug, PartialEq, Eq, Structural)]
pub enum HomeSource {
    /// The variable `HOME`.
    Variable,
    /// What the system's own lookup prints.
    System,
    /// The record of the user in the directory service.
    Directory,
    /// What a shell makes of a tilde.
    Shell,
}

/// The home directory that is assumed when no way of learning it works.
pub open spec fn unknown_home() -> Seq<char> {
    "/Users/unknown"@
}

/// The home directory that is assumed when no way of learning it works.
pub fn default_home() -> (home: String)
    ensures
        home@ == unknown_home(),
{
    "/Users/unknown".to_owned()
}

/// The directory that `text`, the value or the output of `source`, names:
/// the variable as it is, unless empty; the system's output and the
/// shell's without the white space around it, unless nothing is left or the
/// shell left the tilde as it was; of the directory record its last word.
pub open spec fn home_named(source: HomeSource, text: Seq<char>) -> Option<Seq<char>> {
    match source {
        HomeSource::Variable => if text.len() == 0 {
            None
        } else {
            Some(text)
        },
        HomeSource::System => printed(text),
        HomeSource::Directory => last_word(text),
        HomeSource::Shell => if trimmed(text) == seq!['~'] {
            None
        } else {
            printed(text)
        },
    }
}

/// The directory that `text` names as the user's home, for the caller to
/// accept if it exists.
pub fn home_candidate(source: HomeSource, text: &str) -> (named: Option<String>)
    ensures
        text_of(named) == home_named(source, text@),
{
    match source {
        HomeSource::Variable => {
            if to_chars(text).len() == 0 {
                None
            } else {
                Some(text.to_owned())
            }
        },
        HomeSource::System => printed_text(text),
        HomeSource::Directory => {
            match find_last_word(&to_chars(text)) {
                Some(word) => Some(string_from_chars(&word)),
                None => None,
            }
        },
        HomeSource::Shell => {
            let kept = trim(&to_chars(text));
            let mut tilde: Vec<char> = Vec::new();
            tilde.push('~');
            assert(tilde@ =~= seq!['~']);
            if kept.len() == 0 || same_text(&kept, &tilde) {
                None
            } else {
                Some(string_from_chars(&kept))
            }
        },
    }
}

/// The arguments of the query for the directory record of `user`.
pub fn directory_arguments(user: &str) -> (arguments: Vec<String>)
    ensures
        texts_of(arguments@) == seq!["."@, "-read"@, "/Users/"@ + user@, "NFSHomeDirectory"@],
{
    let mut arguments: Vec<String> = Vec::new();
    arguments.push(".".to_owned());
    arguments.push("-read".to_owned());
    arguments.push(under("/Users/", user));
    arguments.push("NFSHomeDirectory".to_owned());
    assert(texts_of(arguments@) =~= seq![
        "."@,
        "-read"@,
        "/Users/"@ + user@,
        "NFSHomeDirectory"@,
    ]);
    arguments
}

} // verus!
