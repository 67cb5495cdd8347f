//! Where files live.
use vstd::prelude::*;
use vstd::string::*;
use crate::text::{chars_of, same_text};

verus! {

/// Whether a directory's text is one to which a name is added as it is: the
/// current directory, one that ends in a separator, and, where there are drives, a
/// drive alone.
pub open spec fn takes_a_name(target: Seq<char>, dir: Seq<char>) -> bool {
    ||| dir.len() == 0
    ||| dir.last() == '/'
    ||| target == "windows"@ && dir.last() == '\\'
    ||| target == "windows"@ && dir.len() == 2 && is_letter(dir[0]) && dir[1] == ':'
}

/// Whether a character is one of the letters that name a drive.
pub open spec fn is_letter(c: char) -> bool {
    'a' <= c <= 'z' || 'A' <= c <= 'Z'
}

/// What stands between a directory and a name on a system.
pub open spec fn separator(target: Seq<char>) -> Seq<char> {
    if target == "windows"@ {
        "\\"@
    } else {
        "/"@
    }
}

/// A name inside a directory, as a system writes it. An empty directory is the
/// current one.
pub open spec fn joined(target: Seq<char>, dir: Seq<char>, name: Seq<char>) -> Seq<char> {
    if takes_a_name(target, dir) {
        dir + name
    } else {
        dir + separator(target) + name
    }
}

/// A relative name inside a directory.
pub fn join(dir: &str, name: &str, target_os: &str) -> (r: String)
    ensures
        r@ == joined(target_os@, dir@, name@),
{
    let d = chars_of(dir);
    let n: usize = d.len();
    let windows: bool = same_text(target_os, "windows");
    if n == 0 || d[n - 1] == '/' || (windows && d[n - 1] == '\\') || (windows && n == 2 && (('a'
        <= d[0] && d[0] <= 'z') || ('A' <= d[0] && d[0] <= 'Z')) && d[1] == ':') {
        dir.to_owned().concat(name)
    } else if windows {
        dir.to_owned().concat("\\").concat(name)
    } else {
        dir.to_owned().concat("/").concat(name)
    }
}

/// A text, or another where there is none.
pub open spec fn text_or(text: Option<&str>, other: Seq<char>) -> Seq<char> {
    match text {
        Some(t) => t@,
        None => other,
    }
}

/// The settings directory of a user: in their home, by either of the two names
/// that systems have for it, or else in the current directory.
pub fn default_dir(home: Option<&str>, profile: Option<&str>, target_os: &str) -> (r: String)
    ensures
        r@ == joined(target_os@, text_or(home, text_or(profile, "."@)), ".zstats"@),
{
    let base = match home {
        Some(dir) => dir,
        None => match profile {
            Some(dir) => dir,
            None => ".",
        },
    };
    join(base, ".zstats", target_os)
}

/// The settings file in a directory.
pub fn config_path(dir: &str, target_os: &str) -> (r: String)
    ensures
        r@ == joined(target_os@, dir@, "config.toml"@),
{
    join(dir, "config.toml", target_os)
}

/// The file in a directory that replaces the builtin template.
pub fn template_path(dir: &str, target_os: &str) -> (r: String)
    ensures
        r@ == joined(target_os@, dir@, "template.toml"@),
{
    join(dir, "template.toml", target_os)
}

/// The history's directory in a directory.
pub fn data_dir(config_dir: &str, target_os: &str) -> (r: String)
    ensures
        r@ == joined(target_os@, config_dir@, "data"@),
{
    join(config_dir, "data", target_os)
}

/// The daemon's socket of a user.
pub fn socket_path(temp_dir: &str, user: Option<&str>, target_os: &str) -> (r: String)
    ensures
        r@ == joined(target_os@, temp_dir@, "zstats-"@ + text_or(user, "default"@) + ".sock"@),
{
    let user = match user {
        Some(user) => user,
        None => "default",
    };
    join(temp_dir, "zstats-".to_owned().concat(user).concat(".sock").as_str(), target_os)
}

/// The daemon's log of a user.
pub fn log_path(temp_dir: &str, user: Option<&str>, target_os: &str) -> (r: String)
    ensures
        r@ == joined(target_os@, temp_dir@, "zstats-"@ + text_or(user, "default"@) + ".log"@),
{
    let user = match user {
        Some(user) => user,
        None => "default",
    };
    join(temp_dir, "zstats-".to_owned().concat(user).concat(".log").as_str(), target_os)
}

} // verus!
