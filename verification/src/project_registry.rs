//! The registry of projects: the paths it lists, and what is known of the projects there.
use vstd::prelude::*;

use crate::agent::process::ProcessOutput;
use crate::config::{self, Variable};
use crate::errors::stated;
use crate::json;
use crate::paths;
use crate::text;
use crate::urls::{self, UrlModel, UrlParts};

verus! {

/// The largest size of a registry, in bytes.
pub const MAX_PROJECT_REGISTRY_BYTES: usize = 65_536;

/// The largest number of paths in a registry.
pub const MAX_PROJECTS: usize = 1000;

/// What is known of a project.
#[derive(Clone, Debug)]
pub struct ProjectInventoryEntry {
    pub path: String,
    pub remotes: Vec<String>,
    pub github_repositories: Vec<String>,
    pub default_branch: Option<String>,
}

/// What the contracts say of a project.
#[verifier::ext_equal]
pub struct ProjectModel {
    pub path: Seq<char>,
    pub remotes: Seq<Seq<char>>,
    pub github_repositories: Seq<Seq<char>>,
    pub default_branch: Option<Seq<char>>,
}

impl View for ProjectInventoryEntry {
    type V = ProjectModel;

    open spec fn view(&self) -> ProjectModel {
        ProjectModel {
            path: self.path@,
            remotes: text::texts(self.remotes@),
            github_repositories: text::texts(self.github_repositories@),
            default_branch: text::opt_text(self.default_branch),
        }
    }
}

/// What the contracts say of projects.
pub open spec fn project_models(projects: Seq<ProjectInventoryEntry>) -> Seq<ProjectModel> {
    projects.map_values(|project: ProjectInventoryEntry| project@)
}

/// The projects that were found, and what was wrong with the others.
#[derive(Clone, Debug)]
pub struct ProjectInventory {
    pub projects: Vec<ProjectInventoryEntry>,
    pub diagnostics: Vec<String>,
}

// ---------------------------------------------------------------------------------------------
// The registry file
// ---------------------------------------------------------------------------------------------

/// What stands at the path of the registry.
#[derive(Clone, Copy, Debug, PartialEq, Eq, Structural)]
pub enum RegistryProbe {
    /// A regular file that is no symbolic link.
    RegularFile,
    /// Anything else.
    Other,
    Missing,
}

/// Whether the registry has to be created.
pub fn ensure_project_registry(probe: RegistryProbe) -> (result: Result<bool, String>)
    ensures
        stated(result) == (if probe is Other {
            Some("project registry path is not a regular file"@)
        } else {
            None
        }),
        result matches Ok(create) ==> create == (probe is Missing),
{
    match probe {
        RegistryProbe::RegularFile => Ok(false),
        RegistryProbe::Other => Err("project registry path is not a regular file".to_owned()),
        RegistryProbe::Missing => Ok(true),
    }
}

/// What keeps a registry file from being read.
pub open spec fn file_problem(regular: bool, size: nat) -> Option<Seq<char>> {
    if !regular {
        Some("project registry is not a regular file"@)
    } else if size > MAX_PROJECT_REGISTRY_BYTES {
        Some("project registry exceeds its size limit"@)
    } else {
        None
    }
}

/// Whether a registry file may be read.
pub fn check_registry_file(regular: bool, size: u64) -> (result: Result<(), String>)
    ensures
        stated(result) == file_problem(regular, size as nat),
{
    if !regular {
        Err("project registry is not a regular file".to_owned())
    } else if size > MAX_PROJECT_REGISTRY_BYTES as u64 {
        Err("project registry exceeds its size limit".to_owned())
    } else {
        Ok(())
    }
}

/// The text that the bytes of a registry file hold.
pub open spec fn registry_text(bytes: Seq<u8>) -> Result<Seq<char>, Seq<char>> {
    if bytes.len() > MAX_PROJECT_REGISTRY_BYTES {
        Err("project registry exceeds its size limit"@)
    } else if !vstd::utf8::valid_utf8(bytes) {
        Err("project registry is not valid UTF-8"@)
    } else {
        Ok(vstd::utf8::decode_utf8(bytes))
    }
}

/// The text that the bytes of a registry file hold.
pub fn read_registry(bytes: &Vec<u8>) -> (result: Result<String, String>)
    ensures
        json::written(result) == registry_text(bytes@),
{
    if bytes.len() > MAX_PROJECT_REGISTRY_BYTES {
        return Err("project registry exceeds its size limit".to_owned());
    }
    match text::from_utf8(bytes) {
        Some(content) => Ok(content),
        None => Err("project registry is not valid UTF-8".to_owned()),
    }
}

// ---------------------------------------------------------------------------------------------
// The paths of a registry
// ---------------------------------------------------------------------------------------------

/// What the contracts say of the outcome of reading a list of texts.
pub open spec fn read_texts(result: Result<Vec<String>, String>) -> Result<
    Seq<Seq<char>>,
    Seq<char>,
> {
    match result {
        Ok(list) => Ok(text::texts(list@)),
        Err(message) => Err(message@),
    }
}

/// Whether an item of the registry is a path.
pub open spec fn names_path(item: Option<Seq<char>>) -> bool {
    match item {
        Some(path) => text::trim(path).len() > 0,
        None => false,
    }
}

/// The first item from a place on that is no path.
pub open spec fn first_non_path(items: Seq<Option<Seq<char>>>, from: int) -> Option<int>
    decreases items.len() - from,
{
    if from < 0 || from >= items.len() {
        None
    } else if !names_path(items[from]) {
        Some(from)
    } else {
        first_non_path(items, from + 1)
    }
}

/// The paths that the items of a registry list, or what is wrong with them.
pub open spec fn listed_paths(items: Option<Seq<Option<Seq<char>>>>) -> Result<
    Seq<Seq<char>>,
    Seq<char>,
> {
    match items {
        None => Err("project registry must be a YAML list of paths"@),
        Some(items) => if items.len() > MAX_PROJECTS {
            Err("project registry exceeds its 1000 path limit"@)
        } else {
            match first_non_path(items, 0) {
                Some(index) => Err(
                    "project registry entry "@ + text::decimal((index + 1) as nat)
                        + " must be a path"@,
                ),
                None => Ok(items.map_values(|item: Option<Seq<char>>| item->0)),
            }
        },
    }
}

/// The paths that the items of a registry list.
pub fn accept_paths(list: &Option<Vec<Option<String>>>) -> (result: Result<Vec<String>, String>)
    ensures
        read_texts(result) == listed_paths(
            match list {
                Some(items) => Some(json::opt_texts(items@)),
                None => None,
            },
        ),
{
    let items = match list {
        None => return Err("project registry must be a YAML list of paths".to_owned()),
        Some(items) => items,
    };
    if items.len() > MAX_PROJECTS {
        return Err("project registry exceeds its 1000 path limit".to_owned());
    }
    let ghost model = json::opt_texts(items@);
    let total: usize = items.len();
    let mut out: Vec<String> = Vec::new();
    let mut i: usize = 0;
    while i < total
        invariant
            i <= total == items@.len(),
            total <= MAX_PROJECTS,
            *list == Some(*items),
            model == json::opt_texts(items@),
            first_non_path(model, 0) == first_non_path(model, i as int),
            out@.len() == i,
            forall|k: int| 0 <= k < i ==> Some((#[trigger] out@[k])@) == model[k],
        decreases total - i,
    {
        let found = match &items[i] {
            Some(path) => if text::trim_str(path.as_str()).as_str().is_empty() {
                None
            } else {
                Some(path.as_str().to_owned())
            },
            None => None,
        };
        assert(model[i as int] == text::opt_text(items@[i as int]));
        match found {
            Some(path) => out.push(path),
            None => {
                let mut message = "project registry entry ".to_owned();
                message.append(text::decimal_of(i as u128 + 1).as_str());
                message.append(" must be a path");
                return Err(message);
            },
        }
        i += 1;
    }
    assert(text::texts(out@) =~= model.map_values(|item: Option<Seq<char>>| item->0)) by {
        assert forall|k: int| 0 <= k < out@.len() implies text::texts(out@)[k] == model[k]->0 by {
            assert(Some(out@[k]@) == model[k]);
        }
    }
    Ok(out)
}

/// The paths that a registry lists, or what is wrong with it.
pub open spec fn registry_paths(content: Seq<char>) -> Result<Seq<Seq<char>>, Seq<char>> {
    if text::byte_len(content) > MAX_PROJECT_REGISTRY_BYTES {
        Err("project registry exceeds its size limit"@)
    } else {
        match config::yaml_json(content, true, 0) {
            Err(error) => Err("invalid project registry YAML: "@ + error),
            Ok(value) => listed_paths(json::list_texts(value)),
        }
    }
}

/// The paths that a registry lists.
pub fn parse_project_paths(content: &str) -> (result: Result<Vec<String>, String>)
    ensures
        read_texts(result) == registry_paths(content@),
{
    if text::byte_count(&text::chars_of(content)) > MAX_PROJECT_REGISTRY_BYTES as u128 {
        return Err("project registry exceeds its size limit".to_owned());
    }
    match config::parse_yaml_value(content) {
        Err(error) => {
            let mut message = "invalid project registry YAML: ".to_owned();
            message.append(error.as_str());
            Err(message)
        },
        Ok(value) => accept_paths(&json::texts_in(value.as_str())),
    }
}

// ---------------------------------------------------------------------------------------------
// A project
// ---------------------------------------------------------------------------------------------

/// What keeps a path from being the one of a project.
pub open spec fn place_problem(
    canonical: Option<Seq<char>>,
    roots: Seq<Seq<char>>,
    current_directory: Seq<char>,
) -> Option<Seq<char>> {
    match canonical {
        None => Some("path is unavailable"@),
        Some(path) => if paths::within(path, roots, current_directory) {
            None
        } else {
            Some("path is outside configured project roots"@)
        },
    }
}

/// Whether a path, as far as it could be resolved, lies where projects do.
pub fn check_project_place(
    canonical: Option<&str>,
    roots: &Vec<String>,
    current_directory: &str,
) -> (result: Result<(), String>)
    ensures
        stated(result) == place_problem(
            text::opt_str(canonical),
            text::texts(roots@),
            current_directory@,
        ),
{
    match canonical {
        None => Err("path is unavailable".to_owned()),
        Some(path) => if config::is_within(path, roots, current_directory) {
            Ok(())
        } else {
            Err("path is outside configured project roots".to_owned())
        },
    }
}

/// Whether the repository that a path lies in lies where projects do.
pub fn check_repository_place(
    repository: &str,
    roots: &Vec<String>,
    current_directory: &str,
) -> (result: Result<(), String>)
    ensures
        stated(result) == (if paths::within(
            repository@,
            text::texts(roots@),
            current_directory@,
        ) {
            None
        } else {
            Some("Git repository is outside configured project roots"@)
        }),
{
    if config::is_within(repository, roots, current_directory) {
        Ok(())
    } else {
        Err("Git repository is outside configured project roots".to_owned())
    }
}

/// What a Git command says: nothing where it failed.
pub open spec fn git_says(output: ProcessOutput) -> Result<Option<Seq<char>>, Seq<char>> {
    if output.stdout_truncated || output.stderr_truncated {
        Err("Git metadata exceeds its size limit"@)
    } else if output.exit_code != Some(0i32) {
        Ok(None)
    } else if !vstd::utf8::valid_utf8(output.stdout@) {
        Err("Git metadata is not valid UTF-8"@)
    } else {
        Ok(Some(text::trim(vstd::utf8::decode_utf8(output.stdout@))))
    }
}

/// What a Git command says.
pub fn git_output(output: &ProcessOutput) -> (result: Result<Option<String>, String>)
    ensures
        git_says(*output) == (match result {
            Ok(out) => Ok(text::opt_text(out)),
            Err(message) => Err(message@),
        }),
{
    if output.stdout_truncated || output.stderr_truncated {
        return Err("Git metadata exceeds its size limit".to_owned());
    }
    let succeeded = match output.exit_code {
        Some(code) => code == 0,
        None => false,
    };
    if !succeeded {
        return Ok(None);
    }
    match text::from_utf8(&output.stdout) {
        None => Err("Git metadata is not valid UTF-8".to_owned()),
        Some(content) => Ok(Some(text::trim_str(content.as_str()))),
    }
}

/// The top directory of the repository that Git names.
pub fn repository_root(output: Option<String>) -> (result: Result<String, String>)
    ensures
        json::written(result) == (match text::opt_text(output) {
            Some(root) => Ok(root),
            None => Err("path is not a Git repository"@),
        }),
{
    match output {
        Some(root) => Ok(root),
        None => Err("path is not a Git repository".to_owned()),
    }
}

/// The list with each text only where it occurs first.
pub open spec fn distinct(list: Seq<Seq<char>>) -> Seq<Seq<char>>
    decreases list.len(),
{
    if list.len() == 0 {
        Seq::empty()
    } else {
        let before = distinct(list.drop_last());
        if before.contains(list.last()) {
            before
        } else {
            before.push(list.last())
        }
    }
}

/// The list with the text behind it, unless it is there already.
fn push_distinct(list: &mut Vec<String>, value: &str)
    ensures
        text::texts(final(list)@) == (if text::texts(old(list)@).contains(value@) {
            text::texts(old(list)@)
        } else {
            text::texts(old(list)@).push(value@)
        }),
{
    if !text::list_has(list, value) {
        list.push(value.to_owned());
        assert(text::texts(list@) =~= text::texts(old(list)@).push(value@));
    }
}

/// The second word of each line that has one.
pub open spec fn second_words(lines: Seq<Seq<char>>) -> Seq<Seq<char>>
    decreases lines.len(),
{
    if lines.len() == 0 {
        Seq::empty()
    } else {
        let before = second_words(lines.drop_last());
        let words = text::words(lines.last());
        if words.len() > 1 {
            before.push(words[1])
        } else {
            before
        }
    }
}

/// The addresses in what Git says of its remotes, a setting and an address on each line.
pub open spec fn remote_addresses(output: Seq<char>) -> Seq<Seq<char>> {
    distinct(second_words(text::split_on(output, '\n')))
}

/// The addresses in what Git says of its remotes.
pub fn read_remotes(output: &str) -> (remotes: Vec<String>)
    ensures
        text::texts(remotes@) == remote_addresses(output@),
{
    let lines = text::split_chars(&text::chars_of(output), '\n');
    let ghost all = text::split_on(output@, '\n');
    let total: usize = lines.len();
    let mut remotes: Vec<String> = Vec::new();
    let mut i: usize = 0;
    assert(text::texts(remotes@) =~= distinct(second_words(all.take(0))));
    while i < total
        invariant
            i <= total == lines@.len(),
            lines@.len() == all.len(),
            forall|k: int| 0 <= k < lines@.len() ==> (#[trigger] lines@[k])@ == all[k],
            text::texts(remotes@) == distinct(second_words(all.take(i as int))),
        decreases total - i,
    {
        assert(all.take(i + 1).drop_last() =~= all.take(i as int));
        assert(all.take(i + 1).last() == lines@[i as int]@);
        let words = text::split_words(&lines[i]);
        if words.len() > 1 {
            assert(text::texts(words@)[1] == words@[1]@);
            let ghost before = second_words(all.take(i as int));
            assert(second_words(all.take(i + 1)).drop_last() =~= before);
            push_distinct(&mut remotes, words[1].as_str());
        }
        i += 1;
    }
    assert(all.take(i as int) =~= all);
    remotes
}

/// The owner and the repository that a path of two names gives.
pub open spec fn pair_of(value: Seq<char>) -> Option<Seq<char>> {
    let bare = if text::ends_with(value, ".git"@) {
        value.take(value.len() - ".git"@.len())
    } else {
        value
    };
    let parts = text::split_on(bare, '/');
    if parts.len() == 2 && parts[0].len() > 0 && parts[1].len() > 0 {
        Some(parts[0] + "/"@ + parts[1])
    } else {
        None
    }
}

/// The owner and the repository that a path of two names gives.
pub fn repository_pair(value: &str) -> (pair: Option<String>)
    ensures
        text::opt_text(pair) == pair_of(value@),
{
    let chars = text::chars_of(value);
    let suffix = text::chars_of(".git");
    let mut end: usize = chars.len();
    if text::ends_with_str(value, ".git") {
        end = chars.len() - suffix.len();
    }
    let bare = text::string_of(&chars, 0, end);
    assert(bare@ =~= value@.take(end as int));
    assert(value@.take(value@.len() as int) =~= value@);
    let parts = text::split_chars(&text::chars_of(bare.as_str()), '/');
    if parts.len() == 2 && parts[0].len() > 0 && parts[1].len() > 0 {
        let mut out = text::collect(&parts[0]);
        out.append("/");
        out.append(text::collect(&parts[1]).as_str());
        Some(out)
    } else {
        None
    }
}

/// The path without the separators that it begins with.
pub open spec fn without_slashes(path: Seq<char>) -> Seq<char>
    decreases path.len(),
{
    if path.len() > 0 && path[0] == '/' {
        without_slashes(path.drop_first())
    } else {
        path
    }
}

/// The GitHub repository that a URL names.
pub open spec fn url_repository(parts: Option<UrlModel>) -> Option<Seq<char>> {
    match parts {
        None => None,
        Some(parts) => match parts.host {
            None => None,
            Some(host) => if text::lower(host) == "github.com"@ {
                pair_of(without_slashes(parts.path))
            } else {
                None
            },
        },
    }
}

/// The GitHub repository that a URL names.
pub fn repository_of_url(parts: Option<UrlParts>) -> (repository: Option<String>)
    ensures
        text::opt_text(repository) == url_repository(urls::opt_parts(parts)),
{
    let parts = match parts {
        None => return None,
        Some(parts) => parts,
    };
    let host = match &parts.host {
        None => return None,
        Some(host) => text::lower_str(host.as_str()),
    };
    if !text::same(host.as_str(), "github.com") {
        return None;
    }
    let path = text::chars_of(parts.path.as_str());
    let mut start: usize = 0;
    assert(path@.skip(0) =~= path@);
    while start < path.len() && path[start] == '/'
        invariant
            start <= path@.len(),
            without_slashes(path@) == without_slashes(path@.skip(start as int)),
        decreases path@.len() - start,
    {
        assert(path@.skip(start as int)[0] == path@[start as int]);
        assert(path@.skip(start as int).drop_first() =~= path@.skip(start + 1));
        start += 1;
    }
    assert(start < path@.len() ==> path@.skip(start as int)[0] == path@[start as int]);
    let rest = text::string_of(&path, start, path.len());
    assert(rest@ =~= path@.skip(start as int));
    repository_pair(rest.as_str())
}

/// The GitHub repository that the address of a remote names.
pub open spec fn remote_repository(remote: Seq<char>) -> Option<Seq<char>> {
    if text::starts_with(text::lower(remote), "git@github.com:"@) {
        pair_of(remote.skip("git@github.com:"@.len() as int))
    } else {
        url_repository(urls::url_parts(remote))
    }
}

/// The GitHub repository that the address of a remote names.
pub fn github_repository(remote: &str) -> (repository: Option<String>)
    ensures
        text::opt_text(repository) == remote_repository(remote@),
{
    let lowered = text::lower_str(remote);
    if text::starts_with_str(lowered.as_str(), "git@github.com:") {
        let chars = text::chars_of(remote);
        let skipped: usize = text::chars_of("git@github.com:").len();
        assert(lowered@.len() == remote@.len());
        let rest = text::string_of(&chars, skipped, chars.len());
        assert(rest@ =~= remote@.skip(skipped as int));
        repository_pair(rest.as_str())
    } else {
        repository_of_url(urls::split_url(remote))
    }
}

/// The GitHub repositories that the addresses name, in their order.
pub open spec fn named_repositories(remotes: Seq<Seq<char>>) -> Seq<Seq<char>>
    decreases remotes.len(),
{
    if remotes.len() == 0 {
        Seq::empty()
    } else {
        let before = named_repositories(remotes.drop_last());
        match remote_repository(remotes.last()) {
            Some(repository) => before.push(repository),
            None => before,
        }
    }
}

/// The GitHub repositories that the addresses name, each once.
pub fn github_repositories(remotes: &Vec<String>) -> (repositories: Vec<String>)
    ensures
        text::texts(repositories@) == distinct(named_repositories(text::texts(remotes@))),
{
    let ghost all = text::texts(remotes@);
    let total: usize = remotes.len();
    let mut repositories: Vec<String> = Vec::new();
    let mut i: usize = 0;
    assert(text::texts(repositories@) =~= distinct(named_repositories(all.take(0))));
    while i < total
        invariant
            i <= total == remotes@.len(),
            all == text::texts(remotes@),
            text::texts(repositories@) == distinct(named_repositories(all.take(i as int))),
        decreases total - i,
    {
        assert(all.take(i + 1).drop_last() =~= all.take(i as int));
        assert(all.take(i + 1).last() == remotes@[i as int]@);
        match github_repository(remotes[i].as_str()) {
            Some(repository) => {
                let ghost before = named_repositories(all.take(i as int));
                assert(named_repositories(all.take(i + 1)).drop_last() =~= before);
                push_distinct(&mut repositories, repository.as_str());
            },
            None => {},
        }
        i += 1;
    }
    assert(all.take(i as int) =~= all);
    repositories
}

/// The branch that Git names as the one of the origin.
pub open spec fn origin_branch(output: Seq<char>) -> Seq<char> {
    if text::starts_with(output, "origin/"@) {
        output.skip("origin/"@.len() as int)
    } else {
        output
    }
}

/// What is known of a project from where it lies and from what Git says of its remotes and of
/// the origin's branch.
pub open spec fn project_of(
    repository: Seq<char>,
    remotes: Option<Seq<char>>,
    branch: Option<Seq<char>>,
) -> ProjectModel {
    let addresses = remote_addresses(
        match remotes {
            Some(output) => output,
            None => Seq::empty(),
        },
    );
    ProjectModel {
        path: repository,
        remotes: addresses,
        github_repositories: distinct(named_repositories(addresses)),
        default_branch: match branch {
            Some(output) => Some(origin_branch(output)),
            None => None,
        },
    }
}

/// What is known of a project.
pub fn inspect_project(repository: &str, remotes: Option<String>, branch: Option<String>) -> (entry:
    ProjectInventoryEntry)
    ensures
        entry@ == project_of(repository@, text::opt_text(remotes), text::opt_text(branch)),
{
    let output = match remotes {
        Some(output) => output,
        None => String::new(),
    };
    let addresses = read_remotes(output.as_str());
    let repositories = github_repositories(&addresses);
    let default_branch = match branch {
        Some(output) => match text::strip_prefix_str(output.as_str(), "origin/") {
            Some(name) => Some(name),
            None => Some(output),
        },
        None => None,
    };
    ProjectInventoryEntry {
        path: repository.to_owned(),
        remotes: addresses,
        github_repositories: repositories,
        default_branch,
    }
}

// ---------------------------------------------------------------------------------------------
// The inventory
// ---------------------------------------------------------------------------------------------

/// What the contracts say of an inspection.
pub open spec fn inspected(result: Result<ProjectInventoryEntry, String>) -> Result<
    ProjectModel,
    Seq<char>,
> {
    match result {
        Ok(project) => Ok(project@),
        Err(message) => Err(message@),
    }
}

/// Whether a project at the path is among the projects.
pub open spec fn lists(projects: Seq<ProjectModel>, path: Seq<char>) -> bool {
    exists|k: int| 0 <= k < projects.len() && (#[trigger] projects[k]).path == path
}

/// Whether no two of the projects lie at the same path.
pub open spec fn distinct_places(projects: Seq<ProjectModel>) -> bool {
    forall|i: int, j: int|
        0 <= i < j < projects.len() ==> (#[trigger] projects[i]).path != (
        #[trigger] projects[j]).path
}

/// The inventory: its projects and its diagnostics.
#[verifier::ext_equal]
pub struct InventoryModel {
    pub projects: Seq<ProjectModel>,
    pub diagnostics: Seq<Seq<char>>,
}

impl View for ProjectInventory {
    type V = InventoryModel;

    open spec fn view(&self) -> InventoryModel {
        InventoryModel {
            projects: project_models(self.projects@),
            diagnostics: text::texts(self.diagnostics@),
        }
    }
}

/// The inventory with the outcome of inspecting a path of the registry: a project that is not
/// listed yet, or a diagnostic.
pub open spec fn with_inspection(
    inventory: InventoryModel,
    path: Seq<char>,
    result: Result<ProjectModel, Seq<char>>,
) -> InventoryModel {
    match result {
        Ok(project) => if lists(inventory.projects, project.path) {
            InventoryModel {
                diagnostics: inventory.diagnostics.push("duplicate project path: "@ + path),
                ..inventory
            }
        } else {
            InventoryModel { projects: inventory.projects.push(project), ..inventory }
        },
        Err(message) => InventoryModel {
            diagnostics: inventory.diagnostics.push(path + ": "@ + message),
            ..inventory
        },
    }
}

fn is_listed(projects: &Vec<ProjectInventoryEntry>, path: &str) -> (found: bool)
    ensures
        found == lists(project_models(projects@), path@),
{
    let ghost models = project_models(projects@);
    let total: usize = projects.len();
    let mut i: usize = 0;
    while i < total
        invariant
            i <= total == projects@.len(),
            models == project_models(projects@),
            forall|k: int| 0 <= k < i ==> (#[trigger] models[k]).path != path@,
        decreases total - i,
    {
        assert(models[i as int] == projects@[i as int]@);
        if text::same(projects[i].path.as_str(), path) {
            return true;
        }
        i += 1;
    }
    false
}

impl ProjectInventory {
    /// An inventory without projects.
    pub fn empty() -> (inventory: Self)
        ensures
            inventory@ == (InventoryModel { projects: Seq::empty(), diagnostics: Seq::empty() }),
    {
        let inventory = ProjectInventory { projects: Vec::new(), diagnostics: Vec::new() };
        assert(inventory@.projects =~= Seq::empty());
        assert(inventory@.diagnostics =~= Seq::empty());
        inventory
    }

    /// The inventory of a registry that could not be read.
    pub fn unreadable(problem: String) -> (inventory: Self)
        ensures
            inventory@ == (InventoryModel {
                projects: Seq::empty(),
                diagnostics: seq![problem@],
            }),
    {
        let mut diagnostics: Vec<String> = Vec::new();
        diagnostics.push(problem);
        let inventory = ProjectInventory { projects: Vec::new(), diagnostics };
        assert(inventory@.projects =~= Seq::empty());
        assert(inventory@.diagnostics =~= seq![problem@]);
        inventory
    }

    /// Takes the outcome of inspecting a path of the registry.
    pub fn record(&mut self, path: &str, result: Result<ProjectInventoryEntry, String>)
        ensures
            final(self)@ == with_inspection(old(self)@, path@, inspected(result)),
    {
        match result {
            Ok(project) => {
                if is_listed(&self.projects, project.path.as_str()) {
                    let mut message = "duplicate project path: ".to_owned();
                    message.append(path);
                    self.diagnostics.push(message);
                    assert(self@.diagnostics =~= old(self)@.diagnostics.push(message@));
                } else {
                    self.projects.push(project);
                    assert(self@.projects =~= old(self)@.projects.push(project@));
                }
            },
            Err(problem) => {
                let mut message = path.to_owned();
                message.append(": ");
                message.append(problem.as_str());
                self.diagnostics.push(message);
                assert(self@.diagnostics =~= old(self)@.diagnostics.push(message@));
            },
        }
    }
}

/// What keeps the outcome of inspecting a path from being accepted beside the projects.
pub open spec fn entry_problem(
    projects: Seq<ProjectModel>,
    path: Seq<char>,
    result: Result<ProjectModel, Seq<char>>,
) -> Option<Seq<char>> {
    match result {
        Err(message) => Some(message),
        Ok(project) => if lists(projects, project.path) {
            Some("duplicate project path: "@ + path)
        } else {
            None
        },
    }
}

/// Takes the outcome of inspecting a path of a registry that has to be correct throughout.
pub fn accept_project(
    projects: &mut Vec<ProjectInventoryEntry>,
    path: &str,
    result: Result<ProjectInventoryEntry, String>,
) -> (accepted: Result<(), String>)
    ensures
        stated(accepted) == entry_problem(
            project_models(old(projects)@),
            path@,
            inspected(result),
        ),
        project_models(final(projects)@) == (match (accepted, inspected(result)) {
            (Ok(_), Ok(project)) => project_models(old(projects)@).push(project),
            _ => project_models(old(projects)@),
        }),
{
    match result {
        Err(message) => Err(message),
        Ok(project) => {
            if is_listed(projects, project.path.as_str()) {
                let mut message = "duplicate project path: ".to_owned();
                message.append(path);
                return Err(message);
            }
            projects.push(project);
            assert(project_models(projects@) =~= project_models(old(projects)@).push(project@));
            Ok(())
        },
    }
}

// ---------------------------------------------------------------------------------------------
// The project of a repository
// ---------------------------------------------------------------------------------------------

/// The name of the directory in which a repository, given by its owner and its name, is looked
/// for.
pub open spec fn likely_name(repository: Seq<char>) -> Option<Seq<char>> {
    let parts = text::split_on(repository, '/');
    if parts.len() == 2 && parts[1].len() > 0 && !text::starts_with(repository, "/"@) {
        Some(parts[1])
    } else {
        None
    }
}

/// The paths at which a repository is looked for, one below each root.
pub open spec fn likely_paths(repository: Seq<char>, roots: Seq<Seq<char>>) -> Seq<Seq<char>> {
    match likely_name(repository) {
        None => Seq::empty(),
        Some(name) => roots.map_values(|root: Seq<char>| paths::joined(root, name)),
    }
}

/// The paths at which a repository is looked for.
pub fn likely_candidates(repository: &str, roots: &Vec<String>) -> (out: Vec<String>)
    ensures
        text::texts(out@) == likely_paths(repository@, text::texts(roots@)),
{
    let parts = text::split_chars(&text::chars_of(repository), '/');
    let mut out: Vec<String> = Vec::new();
    if parts.len() != 2 || parts[1].len() == 0 || text::starts_with_str(repository, "/") {
        assert(text::texts(out@) =~= Seq::empty());
        return out;
    }
    let name = text::collect(&parts[1]);
    let total: usize = roots.len();
    let mut i: usize = 0;
    while i < total
        invariant
            i <= total == roots@.len(),
            out@.len() == i,
            forall|k: int|
                0 <= k < i ==> (#[trigger] out@[k])@ == paths::joined(
                    text::texts(roots@)[k],
                    name@,
                ),
        decreases total - i,
    {
        out.push(paths::join(roots[i].as_str(), name.as_str()));
        i += 1;
    }
    assert(text::texts(out@) =~= likely_paths(repository@, text::texts(roots@)));
    out
}

/// Whether the repository is one of the project's, in capitals or not.
pub open spec fn holds_repository(project: ProjectModel, repository: Seq<char>) -> bool {
    exists|k: int|
        0 <= k < project.github_repositories.len() && text::lower(
            #[trigger] project.github_repositories[k],
        ) == text::lower(repository)
}

/// Whether the repository is one of the project's, in capitals or not.
pub fn is_project_of(project: &ProjectInventoryEntry, repository: &str) -> (found: bool)
    ensures
        found == holds_repository(project@, repository@),
{
    let wanted = text::lower_str(repository);
    let ghost all = project@.github_repositories;
    let total: usize = project.github_repositories.len();
    let mut i: usize = 0;
    while i < total
        invariant
            i <= total == project.github_repositories@.len(),
            all == text::texts(project.github_repositories@),
            all == project@.github_repositories,
            wanted@ == text::lower(repository@),
            forall|k: int| 0 <= k < i ==> text::lower(#[trigger] all[k]) != wanted@,
        decreases total - i,
    {
        let own = text::lower_str(project.github_repositories[i].as_str());
        assert(all[i as int] == project.github_repositories@[i as int]@);
        if text::same(own.as_str(), wanted.as_str()) {
            assert(text::lower(project@.github_repositories[i as int]) == text::lower(repository@));
            return true;
        }
        i += 1;
    }
    false
}

// ---------------------------------------------------------------------------------------------
// Writing the registry
// ---------------------------------------------------------------------------------------------

/// Where a path leads: expanded, and with its steps up and down resolved.
pub open spec fn target_of(
    path: Seq<char>,
    environment: Seq<Variable>,
    current_directory: Seq<char>,
) -> Option<Seq<char>> {
    match config::expanded(path, environment, current_directory) {
        Some(path) => Some(paths::normal(path)),
        None => None,
    }
}

/// What keeps a write from reaching the registry. `canonical` is the registry's path with its
/// links resolved, where there is a registry.
pub open spec fn write_problem(
    requested: Seq<char>,
    registry: Seq<char>,
    canonical: Option<Seq<char>>,
    environment: Seq<Variable>,
    current_directory: Seq<char>,
) -> Option<Seq<char>> {
    match (
        target_of(requested, environment, current_directory),
        target_of(registry, environment, current_directory),
    ) {
        (Some(wanted), Some(own)) => match canonical {
            None => Some("project registry is unavailable: "@ + own),
            Some(resolved) => if wanted == own || wanted == resolved {
                None
            } else {
                Some("write access is limited to the project registry"@)
            },
        },
        _ => Some("HOME is not set"@),
    }
}

fn resolve_target(path: &str, environment: &Vec<Variable>, current_directory: &str) -> (target: Option<
    String,
>)
    ensures
        text::opt_text(target) == target_of(path@, environment@, current_directory@),
{
    match config::expand_path_with_env(path, environment, current_directory) {
        Ok(expanded) => Some(paths::normalize(expanded.as_str())),
        Err(_) => None,
    }
}

/// Whether a write reaches the registry and nothing else.
pub fn validate_project_registry_write(
    requested: &str,
    registry: &str,
    canonical: Option<&str>,
    environment: &Vec<Variable>,
    current_directory: &str,
) -> (result: Result<(), String>)
    ensures
        stated(result) == write_problem(
            requested@,
            registry@,
            text::opt_str(canonical),
            environment@,
            current_directory@,
        ),
{
    let wanted = resolve_target(requested, environment, current_directory);
    let own = resolve_target(registry, environment, current_directory);
    match (wanted, own) {
        (Some(wanted), Some(own)) => match canonical {
            None => {
                let mut message = "project registry is unavailable: ".to_owned();
                message.append(own.as_str());
                Err(message)
            },
            Some(resolved) => if text::same(wanted.as_str(), own.as_str()) || text::same(
                wanted.as_str(),
                resolved,
            ) {
                Ok(())
            } else {
                Err("write access is limited to the project registry".to_owned())
            },
        },
        _ => Err("HOME is not set".to_owned()),
    }
}

/// Whether the registry may be replaced: not where a symbolic link stands at its path.
pub fn check_replacement(symbolic_link: bool) -> (result: Result<(), String>)
    ensures
        stated(result) == (if symbolic_link {
            Some("project registry replacement refuses a symbolic link destination"@)
        } else {
            None
        }),
{
    if symbolic_link {
        Err("project registry replacement refuses a symbolic link destination".to_owned())
    } else {
        Ok(())
    }
}

/// The name of the file that is written before it takes the registry's place.
pub fn temporary_name(process: u32, sequence: u64) -> (name: String)
    ensures
        name@ == ".projects.yaml."@ + text::decimal(process as nat) + "."@ + text::decimal(
            sequence as nat,
        ) + ".tmp"@,
{
    let mut name = ".projects.yaml.".to_owned();
    name.append(text::decimal_of(process as u128).as_str());
    name.append(".");
    name.append(text::decimal_of(sequence as u128).as_str());
    name.append(".tmp");
    name
}

// ---------------------------------------------------------------------------------------------
// Laws
// ---------------------------------------------------------------------------------------------

/// However a registry repeats itself, the inventory lists no path twice.
pub proof fn law_inventory_lists_a_place_once(
    inventory: InventoryModel,
    path: Seq<char>,
    result: Result<ProjectModel, Seq<char>>,
)
    requires
        distinct_places(inventory.projects),
    ensures
        distinct_places(with_inspection(inventory, path, result).projects),
{
}

/// Each path of the registry leaves one trace in the inventory: a project or a diagnostic.
pub proof fn law_every_path_is_accounted_for(
    inventory: InventoryModel,
    path: Seq<char>,
    result: Result<ProjectModel, Seq<char>>,
)
    ensures
        ({
            let after = with_inspection(inventory, path, result);
            after.projects.len() + after.diagnostics.len() == inventory.projects.len()
                + inventory.diagnostics.len() + 1
        }),
{
}

/// A registry is accepted for writing only with a place of its own for each project.
pub proof fn law_accepted_projects_are_distinct(
    projects: Seq<ProjectModel>,
    path: Seq<char>,
    project: ProjectModel,
)
    requires
        distinct_places(projects),
        entry_problem(projects, path, Ok(project)) is None,
    ensures
        distinct_places(projects.push(project)),
{
}

/// A list loses no text when its repetitions are left out, and holds none twice.
pub proof fn law_distinct(list: Seq<Seq<char>>)
    ensures
        distinct(list).no_duplicates(),
        forall|value: Seq<char>| #[trigger] distinct(list).contains(value) <==> list.contains(value),
    decreases list.len(),
{
    if list.len() > 0 {
        let before = list.drop_last();
        let last = list.last();
        law_distinct(before);
        assert forall|value: Seq<char>| #[trigger]
            distinct(list).contains(value) <==> list.contains(value) by {
            assert(list =~= before.push(last));
            if list.contains(value) && value != last {
                let k = choose|k: int| 0 <= k < list.len() && list[k] == value;
                assert(before[k] == value);
            }
            if before.contains(value) {
                let k = choose|k: int| 0 <= k < before.len() && before[k] == value;
                assert(list[k] == value);
            }
            if distinct(before).contains(last) {
            } else {
                let d = distinct(before);
                assert(distinct(list) == d.push(last));
                assert(d.push(last)[d.len() as int] == last);
                if d.contains(value) {
                    let k = choose|k: int| 0 <= k < d.len() && d[k] == value;
                    assert(d.push(last)[k] == value);
                }
                if d.push(last).contains(value) && value != last {
                    let k = choose|k: int| 0 <= k < d.push(last).len() && d.push(last)[k] == value;
                    assert(d[k] == value);
                }
            }
            assert(list[list.len() - 1] == last);
        }
    }
}

/// What is accepted as the paths of a registry are texts that are more than white space, and
/// no more of them than a registry may list.
pub proof fn law_listed_paths_are_paths(items: Seq<Option<Seq<char>>>)
    ensures
        listed_paths(Some(items)) matches Ok(list) ==> {
            &&& list.len() == items.len() <= MAX_PROJECTS
            &&& forall|k: int| 0 <= k < list.len() ==> text::trim(#[trigger] list[k]).len() > 0
        },
{
    lemma_no_non_path(items, 0);
}

proof fn lemma_no_non_path(items: Seq<Option<Seq<char>>>, from: int)
    requires
        0 <= from,
    ensures
        first_non_path(items, from) is None ==> forall|k: int|
            from <= k < items.len() ==> names_path(#[trigger] items[k]),
    decreases items.len() - from,
{
    if from < items.len() {
        lemma_no_non_path(items, from + 1);
    }
}

} // verus!
