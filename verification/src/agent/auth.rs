//! Where the sign-in of the provider is kept, and what is demanded of that file.
use vstd::prelude::*;

use crate::errors::stated;
use crate::json;
use crate::paths;
use crate::text;

verus! {

/// The directory and the file that hold the sign-in.
#[derive(Clone, Debug, PartialEq, Eq)]
pub struct AuthPaths {
    pub directory: String,
    pub cache: String,
}

/// The directory of the sign-in below the home of the configuration.
pub open spec fn auth_directory(config_home: Seq<char>) -> Seq<char> {
    paths::joined(paths::joined(config_home, "intake"@), "agent"@)
}

impl AuthPaths {
    /// The directory and the file in the directory of the configuration.
    pub fn in_config_directory(config_directory: &str) -> (paths: Self)
        ensures
            paths.directory@ == paths::joined(config_directory@, "agent"@),
            paths.cache@ == paths::joined(
                paths::joined(config_directory@, "agent"@),
                "rig-auth.json"@,
            ),
    {
        let directory = paths::join(config_directory, "agent");
        let cache = paths::join(directory.as_str(), "rig-auth.json");
        AuthPaths { directory, cache }
    }

    /// The directory and the file below the home of the configuration.
    pub fn under_config_home(config_home: &str) -> (paths: Self)
        ensures
            paths.directory@ == auth_directory(config_home@),
            paths.cache@ == paths::joined(auth_directory(config_home@), "rig-auth.json"@),
    {
        AuthPaths::in_config_directory(paths::join(config_home, "intake").as_str())
    }
}

/// What the file system says of a path.
#[derive(Clone, Copy, Debug, PartialEq, Eq, Structural)]
pub struct FileFacts {
    pub is_symlink: bool,
    pub is_file: bool,
    pub is_directory: bool,
    /// Whether the current user owns it.
    pub owned: bool,
}

/// What is wrong with the owner of a path.
pub open spec fn owner_problem(path: Seq<char>, facts: FileFacts) -> Option<Seq<char>> {
    if facts.owned {
        None
    } else {
        Some("Rig authentication path must be owned by the current user: "@ + path)
    }
}

/// What is wrong with the directory of the sign-in.
pub open spec fn directory_problem(path: Seq<char>, facts: FileFacts) -> Option<Seq<char>> {
    if facts.is_symlink || !facts.is_directory {
        Some("Rig authentication directory must be a real directory"@)
    } else {
        owner_problem(path, facts)
    }
}

/// What is wrong with the file of the sign-in.
pub open spec fn cache_problem(path: Seq<char>, facts: FileFacts) -> Option<Seq<char>> {
    if facts.is_symlink || !facts.is_file {
        Some("Rig authentication cache must be a regular file: "@ + path)
    } else {
        owner_problem(path, facts)
    }
}

fn check_owner(path: &str, facts: FileFacts) -> (result: Result<(), String>)
    ensures
        stated(result) == owner_problem(path@, facts),
{
    if facts.owned {
        Ok(())
    } else {
        let mut message = "Rig authentication path must be owned by the current user: ".to_owned();
        message.append(path);
        Err(message)
    }
}

/// Checks the directory of the sign-in.
pub fn check_private_directory(path: &str, facts: FileFacts) -> (result: Result<(), String>)
    ensures
        stated(result) == directory_problem(path@, facts),
{
    if facts.is_symlink || !facts.is_directory {
        return Err("Rig authentication directory must be a real directory".to_owned());
    }
    check_owner(path, facts)
}

/// Checks the file of the sign-in.
pub fn check_cache(path: &str, facts: FileFacts) -> (result: Result<(), String>)
    ensures
        stated(result) == cache_problem(path@, facts),
{
    if facts.is_symlink || !facts.is_file {
        let mut message = "Rig authentication cache must be a regular file: ".to_owned();
        message.append(path);
        return Err(message);
    }
    check_owner(path, facts)
}

/// What is wrong with the content of the file: that it is no JSON, as `unreadable` says, or no
/// object.
pub open spec fn content_problem(is_object: Option<bool>, unreadable: Seq<char>) -> Option<
    Seq<char>,
> {
    match is_object {
        None => Some(unreadable),
        Some(false) => Some("Rig authentication cache must contain a JSON object"@),
        Some(true) => None,
    }
}

/// The verdict on content of which it is known whether it is an object. None where it is no JSON.
pub fn judge_content(is_object: Option<bool>, unreadable: &str) -> (result: Result<(), String>)
    ensures
        stated(result) == content_problem(is_object, unreadable@),
{
    match is_object {
        None => Err(unreadable.to_owned()),
        Some(false) => Err("Rig authentication cache must contain a JSON object".to_owned()),
        Some(true) => Ok(()),
    }
}

/// Checks the content of the file of the sign-in.
pub fn check_content(bytes: &Vec<u8>, unreadable: &str) -> (result: Result<(), String>)
    ensures
        stated(result) == content_problem(json::json_object(bytes@), unreadable@),
{
    judge_content(json::is_object(bytes), unreadable)
}

/// The file that new content is written to before it takes the place of the file of the sign-in.
pub open spec fn temporary_file(
    parent: Seq<char>,
    name: Seq<char>,
    process: nat,
    sequence: nat,
) -> Seq<char> {
    paths::joined(
        parent,
        "."@ + name + "."@ + text::decimal(process) + "."@ + text::decimal(sequence) + ".tmp"@,
    )
}

/// The file that new content is written to, or what is wrong with the path.
pub fn temporary_cache(path: &str, process: u32, sequence: u64) -> (result: Result<String, String>)
    ensures
        match (paths::directory_of(path@), paths::base_name(path@)) {
            (None, _) => stated(result) == Some(
                "Rig authentication cache has no parent directory"@,
            ),
            (Some(_), None) => stated(result) == Some(
                "Rig authentication cache has an invalid file name"@,
            ),
            (Some(parent), Some(name)) => result matches Ok(out) && out@ == temporary_file(
                parent,
                name,
                process as nat,
                sequence as nat,
            ),
        },
{
    let parent = match paths::directory(path) {
        Some(parent) => parent,
        None => {
            return Err("Rig authentication cache has no parent directory".to_owned());
        },
    };
    match paths::file_name(path) {
        None => Err("Rig authentication cache has an invalid file name".to_owned()),
        Some(name) => {
            let mut file = ".".to_owned();
            file.append(name.as_str());
            file.append(".");
            file.append(text::decimal_of(process as u128).as_str());
            file.append(".");
            file.append(text::decimal_of(sequence as u128).as_str());
            file.append(".tmp");
            Ok(paths::join(parent.as_str(), file.as_str()))
        },
    }
}

/// The message shown for a sign-in that failed.
pub open spec fn sign_in_problem(message: Seq<char>, interactive: bool) -> Seq<char> {
    if !interactive && text::contains(message, "sign-in required"@) {
        "ChatGPT subscription authentication is required. Run `intake login`."@
    } else {
        message
    }
}

/// The message shown for a sign-in that failed.
pub fn authorize_failure(message: &str, interactive: bool) -> (out: String)
    ensures
        out@ == sign_in_problem(message@, interactive),
{
    if !interactive && text::contains_str(message, "sign-in required") {
        "ChatGPT subscription authentication is required. Run `intake login`.".to_owned()
    } else {
        message.to_owned()
    }
}

} // verus!
