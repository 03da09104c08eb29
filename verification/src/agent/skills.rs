//! The skills that the agent may load: which directories hold one, and how they are listed.
use vstd::prelude::*;

use crate::errors::stated;
use crate::paths;
use crate::text;

verus! {

pub const MAX_SKILL_FILE_BYTES: usize = 1_000_000;

/// A skill.
#[derive(Clone, Debug, PartialEq, Eq)]
pub struct Skill {
    pub name: String,
    pub description: String,
    pub disable_model_invocation: bool,
    pub path: String,
}

/// What was found in the directories of skills.
#[derive(Clone, Debug, PartialEq, Eq)]
pub struct SkillValidation {
    pub skill_paths: Vec<String>,
    pub skills: Vec<Skill>,
    pub diagnostics: Vec<String>,
}

/// The head of a skill's file.
#[derive(Clone, Debug)]
pub struct SkillFrontmatter {
    pub name: String,
    pub description: String,
    pub disable_model_invocation: bool,
}

// ---------------------------------------------------------------------------------------------
// Orders
// ---------------------------------------------------------------------------------------------

/// Whether the first list of names comes before the second one or is the same.
pub open spec fn names_le(a: Seq<Seq<char>>, b: Seq<Seq<char>>) -> bool
    decreases a.len(),
{
    if a.len() == 0 {
        true
    } else if b.len() == 0 {
        false
    } else if a[0] == b[0] {
        names_le(a.drop_first(), b.drop_first())
    } else {
        text::text_le(a[0], b[0])
    }
}

/// Whether the first skill comes before the second one or at the same place: by name, and by
/// path where the names are the same.
pub open spec fn skill_le(a: Skill, b: Skill) -> bool {
    if a.name@ == b.name@ {
        names_le(paths::names(a.path@), paths::names(b.path@))
    } else {
        text::text_le(a.name@, b.name@)
    }
}

/// Where a skill goes among the first skills of a list: behind the last that does not come
/// behind it.
pub open spec fn skill_place(list: Seq<Skill>, skill: Skill, n: int) -> int
    decreases n,
{
    if n <= 0 || n > list.len() {
        0
    } else if skill_le(list[n - 1], skill) {
        n
    } else {
        skill_place(list, skill, n - 1)
    }
}

/// The skills in order. Those at the same place keep theirs.
pub open spec fn sorted_skills(list: Seq<Skill>) -> Seq<Skill>
    decreases list.len(),
{
    if list.len() == 0 {
        Seq::empty()
    } else {
        let before = sorted_skills(list.drop_last());
        before.insert(skill_place(before, list.last(), before.len() as int), list.last())
    }
}

fn is_names_le(a: &Vec<String>, b: &Vec<String>) -> (le: bool)
    ensures
        le == names_le(text::texts(a@), text::texts(b@)),
{
    let ghost left = text::texts(a@);
    let ghost right = text::texts(b@);
    let mut i: usize = 0;
    assert(left.skip(0) =~= left && right.skip(0) =~= right);
    while i < a.len()
        invariant
            i <= a@.len(),
            i <= b@.len(),
            left == text::texts(a@),
            right == text::texts(b@),
            names_le(left, right) == names_le(left.skip(i as int), right.skip(i as int)),
        decreases a@.len() - i,
    {
        if i >= b.len() {
            return false;
        }
        assert(left.skip(i as int)[0] == a@[i as int]@);
        assert(right.skip(i as int)[0] == b@[i as int]@);
        assert(left.skip(i as int).drop_first() =~= left.skip(i + 1));
        assert(right.skip(i as int).drop_first() =~= right.skip(i + 1));
        if !text::same(a[i].as_str(), b[i].as_str()) {
            return text::is_text_le(a[i].as_str(), b[i].as_str());
        }
        i += 1;
    }
    true
}

fn is_skill_le(a: &Skill, b: &Skill) -> (le: bool)
    ensures
        le == skill_le(*a, *b),
{
    if text::same(a.name.as_str(), b.name.as_str()) {
        is_names_le(&paths::path_names(a.path.as_str()), &paths::path_names(b.path.as_str()))
    } else {
        text::is_text_le(a.name.as_str(), b.name.as_str())
    }
}

fn insert_skill(list: &mut Vec<Skill>, skill: Skill)
    ensures
        final(list)@ == old(list)@.insert(
            skill_place(old(list)@, skill, old(list)@.len() as int),
            skill,
        ),
{
    let mut i: usize = list.len();
    while i > 0 && !is_skill_le(&list[i - 1], &skill)
        invariant
            i <= list@.len(),
            skill_place(list@, skill, list@.len() as int) == skill_place(list@, skill, i as int),
        decreases i,
    {
        i -= 1;
    }
    list.insert(i, skill);
}

/// Whether the text is the name of a hidden entry.
pub open spec fn hidden(name: Seq<char>) -> bool {
    name.len() > 0 && name[0] == '.'
}

/// Where a text goes among the first texts of a list.
pub open spec fn text_place(list: Seq<Seq<char>>, value: Seq<char>, n: int) -> int
    decreases n,
{
    if n <= 0 || n > list.len() {
        0
    } else if text::text_le(list[n - 1], value) {
        n
    } else {
        text_place(list, value, n - 1)
    }
}

/// The names in order, without hidden ones.
pub open spec fn listed(entries: Seq<Seq<char>>) -> Seq<Seq<char>>
    decreases entries.len(),
{
    if entries.len() == 0 {
        Seq::empty()
    } else {
        let before = listed(entries.drop_last());
        if hidden(entries.last()) {
            before
        } else {
            before.insert(
                text_place(before, entries.last(), before.len() as int),
                entries.last(),
            )
        }
    }
}

/// The entries of a directory in the order in which they are looked at, without hidden ones.
pub fn visible_entries(entries: &Vec<String>) -> (out: Vec<String>)
    ensures
        text::texts(out@) == listed(text::texts(entries@)),
{
    let ghost all = text::texts(entries@);
    let mut out: Vec<String> = Vec::new();
    let mut i: usize = 0;
    assert(all.take(0) =~= Seq::empty());
    assert(text::texts(out@) =~= Seq::empty());
    while i < entries.len()
        invariant
            i <= entries@.len(),
            all == text::texts(entries@),
            text::texts(out@) == listed(all.take(i as int)),
        decreases entries@.len() - i,
    {
        assert(all.take(i + 1).drop_last() =~= all.take(i as int));
        assert(all.take(i + 1).last() == entries@[i as int]@);
        let chars = text::chars_of(entries[i].as_str());
        if !(chars.len() > 0 && chars[0] == '.') {
            let ghost before = out@;
            let mut place: usize = out.len();
            while place > 0 && !text::is_text_le(out[place - 1].as_str(), entries[i].as_str())
                invariant
                    i < entries@.len(),
                    out@ == before,
                    place <= out@.len(),
                    text_place(
                        text::texts(out@),
                        entries@[i as int]@,
                        out@.len() as int,
                    ) == text_place(text::texts(out@), entries@[i as int]@, place as int),
                decreases place,
            {
                place -= 1;
            }
            let name = entries[i].as_str().to_owned();
            out.insert(place, name);
            assert(text::texts(out@) =~= text::texts(before).insert(place as int, name@));
        }
        i += 1;
    }
    assert(all.take(i as int) =~= all);
    out
}

// ---------------------------------------------------------------------------------------------
// The directories of skills
// ---------------------------------------------------------------------------------------------

/// What was found out about an entry of a directory of skills.
#[derive(Debug)]
pub struct CandidateReport {
    pub path: String,
    pub skill: Result<Skill, String>,
}

/// What was found out about a directory of skills: its entries, or why it could not be read.
#[derive(Debug)]
pub struct DirectoryReport {
    pub directory: String,
    pub entries: Result<Vec<CandidateReport>, String>,
}

/// The line on what is wrong with a path.
pub open spec fn diagnostic(path: Seq<char>, message: Seq<char>) -> Seq<char> {
    path + ": "@ + message
}

/// The paths that hold a skill.
pub open spec fn candidate_paths(list: Seq<CandidateReport>) -> Seq<Seq<char>>
    decreases list.len(),
{
    if list.len() == 0 {
        Seq::empty()
    } else {
        let before = candidate_paths(list.drop_last());
        match list.last().skill {
            Ok(_) => before.push(list.last().path@),
            Err(_) => before,
        }
    }
}

/// The skills, in the order in which they were found.
pub open spec fn candidate_skills(list: Seq<CandidateReport>) -> Seq<Skill>
    decreases list.len(),
{
    if list.len() == 0 {
        Seq::empty()
    } else {
        let before = candidate_skills(list.drop_last());
        match list.last().skill {
            Ok(skill) => before.push(skill),
            Err(_) => before,
        }
    }
}

/// What is wrong with the paths that hold none.
pub open spec fn candidate_diagnostics(list: Seq<CandidateReport>) -> Seq<Seq<char>>
    decreases list.len(),
{
    if list.len() == 0 {
        Seq::empty()
    } else {
        let before = candidate_diagnostics(list.drop_last());
        match list.last().skill {
            Ok(_) => before,
            Err(message) => before.push(diagnostic(list.last().path@, message@)),
        }
    }
}

/// The paths that hold a skill, over all directories.
pub open spec fn all_paths(reports: Seq<DirectoryReport>) -> Seq<Seq<char>>
    decreases reports.len(),
{
    if reports.len() == 0 {
        Seq::empty()
    } else {
        all_paths(reports.drop_last()) + (match reports.last().entries {
            Ok(list) => candidate_paths(list@),
            Err(_) => Seq::empty(),
        })
    }
}

/// The skills of all directories, in the order in which they were found.
pub open spec fn all_skills(reports: Seq<DirectoryReport>) -> Seq<Skill>
    decreases reports.len(),
{
    if reports.len() == 0 {
        Seq::empty()
    } else {
        all_skills(reports.drop_last()) + (match reports.last().entries {
            Ok(list) => candidate_skills(list@),
            Err(_) => Seq::empty(),
        })
    }
}

/// What is wrong in the directories.
pub open spec fn all_diagnostics(reports: Seq<DirectoryReport>) -> Seq<Seq<char>>
    decreases reports.len(),
{
    if reports.len() == 0 {
        Seq::empty()
    } else {
        all_diagnostics(reports.drop_last()) + (match reports.last().entries {
            Ok(list) => candidate_diagnostics(list@),
            Err(message) => seq![diagnostic(reports.last().directory@, message@)],
        })
    }
}

fn diagnose(path: &str, message: &str) -> (out: String)
    ensures
        out@ == diagnostic(path@, message@),
{
    let mut out = path.to_owned();
    out.append(": ");
    out.append(message);
    out
}

fn collect_candidates(list: Vec<CandidateReport>, found: &mut SkillValidation)
    ensures
        text::texts(final(found).skill_paths@) == text::texts(old(found).skill_paths@)
            + candidate_paths(list@),
        final(found).skills@ == old(found).skills@ + candidate_skills(list@),
        text::texts(final(found).diagnostics@) == text::texts(old(found).diagnostics@)
            + candidate_diagnostics(list@),
{
    let ghost all = list@;
    let ghost start = *found;
    let ghost mut i: int = 0;
    let mut rest = list;
    assert(all.take(0) =~= Seq::empty());
    assert(all.skip(0) =~= all);
    while rest.len() > 0
        invariant
            0 <= i <= all.len(),
            rest@ == all.skip(i),
            text::texts(found.skill_paths@) =~= text::texts(start.skill_paths@)
                + candidate_paths(all.take(i)),
            found.skills@ =~= start.skills@ + candidate_skills(all.take(i)),
            text::texts(found.diagnostics@) =~= text::texts(start.diagnostics@)
                + candidate_diagnostics(all.take(i)),
        decreases rest@.len(),
    {
        let ghost before = *found;
        assert(all.take(i + 1).drop_last() =~= all.take(i));
        let candidate = rest.remove(0);
        assert(candidate == all.take(i + 1).last());
        assert(rest@ =~= all.skip(i + 1));
        match candidate.skill {
            Ok(skill) => {
                found.skill_paths.push(candidate.path);
                found.skills.push(skill);
                assert(text::texts(found.skill_paths@) =~= text::texts(before.skill_paths@).push(
                    candidate.path@,
                ));
            },
            Err(message) => {
                found.diagnostics.push(diagnose(candidate.path.as_str(), message.as_str()));
                assert(text::texts(found.diagnostics@) =~= text::texts(before.diagnostics@).push(
                    diagnostic(candidate.path@, message@),
                ));
            },
        }
        proof {
            i = i + 1;
        }
    }
    assert(all.take(i) =~= all);
}

/// What was found in the directories of skills. The skills come in order, the rest as it was
/// found.
pub fn collect_skills(reports: Vec<DirectoryReport>) -> (found: SkillValidation)
    ensures
        text::texts(found.skill_paths@) == all_paths(reports@),
        found.skills@ == sorted_skills(all_skills(reports@)),
        text::texts(found.diagnostics@) == all_diagnostics(reports@),
{
    let ghost all = reports@;
    let ghost mut i: int = 0;
    let mut rest = reports;
    let mut found = SkillValidation {
        skill_paths: Vec::new(),
        skills: Vec::new(),
        diagnostics: Vec::new(),
    };
    assert(all.take(0) =~= Seq::empty());
    assert(all.skip(0) =~= all);
    while rest.len() > 0
        invariant
            0 <= i <= all.len(),
            rest@ == all.skip(i),
            text::texts(found.skill_paths@) =~= all_paths(all.take(i)),
            found.skills@ =~= all_skills(all.take(i)),
            text::texts(found.diagnostics@) =~= all_diagnostics(all.take(i)),
        decreases rest@.len(),
    {
        let ghost before = found;
        assert(all.take(i + 1).drop_last() =~= all.take(i));
        let report = rest.remove(0);
        assert(report == all.take(i + 1).last());
        assert(rest@ =~= all.skip(i + 1));
        match report.entries {
            Ok(list) => {
                collect_candidates(list, &mut found);
            },
            Err(message) => {
                found.diagnostics.push(diagnose(report.directory.as_str(), message.as_str()));
                assert(text::texts(found.diagnostics@) =~= text::texts(before.diagnostics@)
                    + seq![diagnostic(report.directory@, message@)]);
            },
        }
        proof {
            i = i + 1;
        }
    }
    assert(all.take(i) =~= all);
    let SkillValidation { skill_paths, skills, diagnostics } = found;
    SkillValidation { skill_paths, skills: sort_skills(skills), diagnostics }
}

fn sort_skills(list: Vec<Skill>) -> (out: Vec<Skill>)
    ensures
        out@ == sorted_skills(list@),
{
    let ghost all = list@;
    let ghost mut i: int = 0;
    let mut rest = list;
    let mut out: Vec<Skill> = Vec::new();
    assert(all.take(0) =~= Seq::empty());
    assert(all.skip(0) =~= all);
    while rest.len() > 0
        invariant
            0 <= i <= all.len(),
            rest@ == all.skip(i),
            out@ =~= sorted_skills(all.take(i)),
        decreases rest@.len(),
    {
        assert(all.take(i + 1).drop_last() =~= all.take(i));
        let skill = rest.remove(0);
        assert(skill == all.take(i + 1).last());
        assert(rest@ =~= all.skip(i + 1));
        insert_skill(&mut out, skill);
        proof {
            i = i + 1;
        }
    }
    assert(all.take(i) =~= all);
    out
}

// ---------------------------------------------------------------------------------------------
// The catalog
// ---------------------------------------------------------------------------------------------

/// How a character is written in XML.
pub open spec fn xml_char(c: char) -> Seq<char> {
    if c == '&' {
        "&amp;"@
    } else if c == '<' {
        "&lt;"@
    } else if c == '>' {
        "&gt;"@
    } else if c == '"' {
        "&quot;"@
    } else if c == '\'' {
        "&apos;"@
    } else {
        seq![c]
    }
}

/// How a text is written in XML.
pub open spec fn xml_text(s: Seq<char>) -> Seq<char>
    decreases s.len(),
{
    if s.len() == 0 {
        Seq::empty()
    } else {
        xml_text(s.drop_last()) + xml_char(s.last())
    }
}

/// How a text is written in XML.
pub fn escape_xml(value: &str) -> (out: String)
    ensures
        out@ == xml_text(value@),
{
    let chars = text::chars_of(value);
    let mut out = String::new();
    let mut i: usize = 0;
    assert(out@ =~= xml_text(chars@.take(0)));
    while i < chars.len()
        invariant
            i <= chars@.len(),
            out@ == xml_text(chars@.take(i as int)),
        decreases chars@.len() - i,
    {
        assert(chars@.take(i + 1).drop_last() =~= chars@.take(i as int));
        let c = chars[i];
        if c == '&' {
            out.append("&amp;");
        } else if c == '<' {
            out.append("&lt;");
        } else if c == '>' {
            out.append("&gt;");
        } else if c == '"' {
            out.append("&quot;");
        } else if c == '\'' {
            out.append("&apos;");
        } else {
            let ghost before = out@;
            out.push(c);
            assert(out@ =~= before + seq![c]);
        }
        i += 1;
    }
    assert(chars@.take(i as int) =~= value@);
    out
}

/// The lines of the catalog on a skill.
pub open spec fn skill_lines(skill: Skill) -> Seq<Seq<char>> {
    seq![
        "  <skill>"@,
        "    <name>"@ + xml_text(skill.name@) + "</name>"@,
        "    <description>"@ + xml_text(skill.description@) + "</description>"@,
        "    <location>"@ + xml_text(skill.path@) + "</location>"@,
        "  </skill>"@,
    ]
}

/// The lines before those on the skills.
pub open spec fn catalog_head() -> Seq<Seq<char>> {
    seq![
        "\n\nThe following skills provide specialized instructions for specific tasks."@,
        "Use the read tool to load a skill's file when the task matches its description."@,
        "When a skill file references a relative path, resolve it against the skill directory (parent of SKILL.md / dirname of the path) and use that absolute path in tool commands."@,
        Seq::empty(),
        "<available_skills>"@,
    ]
}

/// The lines on the skills that the model may load on its own.
pub open spec fn catalog_body(skills: Seq<Skill>) -> Seq<Seq<char>>
    decreases skills.len(),
{
    if skills.len() == 0 {
        Seq::empty()
    } else if skills.last().disable_model_invocation {
        catalog_body(skills.drop_last())
    } else {
        catalog_body(skills.drop_last()) + skill_lines(skills.last())
    }
}

/// The catalog of skills. Empty where the model may load none on its own.
pub open spec fn catalog(skills: Seq<Skill>) -> Seq<char> {
    if catalog_body(skills).len() == 0 {
        Seq::empty()
    } else {
        text::join(
            catalog_head() + catalog_body(skills) + seq!["</available_skills>"@],
            "\n"@,
        )
    }
}

fn tagged(open: &str, value: &str, close: &str) -> (out: String)
    ensures
        out@ == open@ + xml_text(value@) + close@,
{
    let mut out = open.to_owned();
    out.append(escape_xml(value).as_str());
    out.append(close);
    out
}

/// The catalog of skills that stands in the instructions.
pub fn format_skill_catalog(skills: &Vec<Skill>) -> (out: String)
    ensures
        out@ == catalog(skills@),
{
    let mut lines: Vec<String> = Vec::new();
    lines.push(
        "\n\nThe following skills provide specialized instructions for specific tasks.".to_owned(),
    );
    lines.push(
        "Use the read tool to load a skill's file when the task matches its description.".to_owned(),
    );
    lines.push(
        "When a skill file references a relative path, resolve it against the skill directory (parent of SKILL.md / dirname of the path) and use that absolute path in tool commands.".to_owned(),
    );
    lines.push(String::new());
    lines.push("<available_skills>".to_owned());
    let mut any = false;
    let mut i: usize = 0;
    assert(skills@.take(0) =~= Seq::empty());
    assert(text::texts(lines@) =~= catalog_head() + catalog_body(skills@.take(0)));
    while i < skills.len()
        invariant
            i <= skills@.len(),
            text::texts(lines@) == catalog_head() + catalog_body(skills@.take(i as int)),
            any == (catalog_body(skills@.take(i as int)).len() > 0),
        decreases skills@.len() - i,
    {
        assert(skills@.take(i + 1).drop_last() =~= skills@.take(i as int));
        let ghost before = lines@;
        if !skills[i].disable_model_invocation {
            any = true;
            lines.push("  <skill>".to_owned());
            lines.push(tagged("    <name>", skills[i].name.as_str(), "</name>"));
            lines.push(
                tagged("    <description>", skills[i].description.as_str(), "</description>"),
            );
            lines.push(tagged("    <location>", skills[i].path.as_str(), "</location>"));
            lines.push("  </skill>".to_owned());
            assert(text::texts(lines@) =~= text::texts(before) + skill_lines(skills@[i as int]));
            assert(text::texts(lines@) =~= catalog_head() + catalog_body(skills@.take(i + 1)));
        }
        i += 1;
    }
    assert(skills@.take(i as int) =~= skills@);
    if !any {
        return String::new();
    }
    let ghost before = lines@;
    lines.push("</available_skills>".to_owned());
    assert(text::texts(lines@) =~= text::texts(before) + seq!["</available_skills>"@]);
    text::join_strings(&lines, "\n")
}

/// The directory that a skill's relative paths are seen from.
pub fn skill_working_directory(skill_path: &str) -> (out: Option<String>)
    ensures
        text::opt_text(out) == paths::directory_of(skill_path@),
{
    paths::directory(skill_path)
}

// ---------------------------------------------------------------------------------------------
// A skill
// ---------------------------------------------------------------------------------------------

/// What is wrong with the directory of a skill.
pub open spec fn directory_problem(
    canonical: Seq<char>,
    is_directory: bool,
    approved_roots: Seq<Seq<char>>,
    current_directory: Seq<char>,
) -> Option<Seq<char>> {
    if !is_directory {
        Some("skill entry is not a directory"@)
    } else if !paths::within(canonical, approved_roots, current_directory) {
        Some("canonical skill path is outside approved roots"@)
    } else {
        None
    }
}

/// The file of the skill in a directory, given the directory's real path.
pub fn skill_file(
    canonical: &str,
    is_directory: bool,
    approved_roots: &Vec<String>,
    current_directory: &str,
) -> (result: Result<String, String>)
    ensures
        stated(result) == directory_problem(
            canonical@,
            is_directory,
            text::texts(approved_roots@),
            current_directory@,
        ),
        result matches Ok(path) ==> path@ == paths::joined(canonical@, "SKILL.md"@),
{
    if !is_directory {
        return Err("skill entry is not a directory".to_owned());
    }
    if !paths::is_within(canonical, approved_roots, current_directory) {
        return Err("canonical skill path is outside approved roots".to_owned());
    }
    Ok(paths::join(canonical, "SKILL.md"))
}

/// Checks that the file of a skill is there. None where nothing stands at its path, and else
/// whether a plain file does.
pub fn check_skill_file(is_file: Option<bool>) -> (result: Result<(), String>)
    ensures
        stated(result) == (if is_file == Some(true) {
            None
        } else {
            Some("SKILL.md is missing or is not a file"@)
        }),
{
    match is_file {
        Some(true) => Ok(()),
        _ => Err("SKILL.md is missing or is not a file".to_owned()),
    }
}

/// Checks the file of a skill, given its real path, before it is read.
pub fn check_skill_source(
    canonical: &str,
    approved_roots: &Vec<String>,
    current_directory: &str,
    is_file: bool,
    size: u64,
) -> (result: Result<(), String>)
    ensures
        stated(result) == (if !paths::within(
            canonical@,
            text::texts(approved_roots@),
            current_directory@,
        ) {
            Some("canonical skill file is outside approved roots"@)
        } else if !is_file || size > MAX_SKILL_FILE_BYTES {
            Some("skill file is unavailable or exceeds its size limit"@)
        } else {
            None
        }),
{
    if !paths::is_within(canonical, approved_roots, current_directory) {
        return Err("canonical skill file is outside approved roots".to_owned());
    }
    if !is_file || size > MAX_SKILL_FILE_BYTES as u64 {
        return Err("skill file is unavailable or exceeds its size limit".to_owned());
    }
    Ok(())
}

/// What stands behind the opening delimiter of a skill's file.
pub open spec fn opened(content: Seq<char>) -> Option<Seq<char>> {
    if text::starts_with(content, "---\n"@) {
        Some(content.skip(4))
    } else if text::starts_with(content, "---\r\n"@) {
        Some(content.skip(5))
    } else {
        None
    }
}

/// Whether a line may end here.
pub open spec fn line_ends(rest: Seq<char>) -> bool {
    rest.len() == 0 || text::starts_with(rest, "\n"@) || text::starts_with(rest, "\r\n"@)
}

/// The text between the delimiters of a skill's file, or what is wrong with these.
pub open spec fn frontmatter(content: Seq<char>) -> Result<Seq<char>, Seq<char>> {
    match opened(content) {
        None => Err("invalid Agent Skills frontmatter: missing opening delimiter"@),
        Some(rest) => match text::find_from(rest, "\n---"@, 0) {
            None => Err("invalid Agent Skills frontmatter: missing closing delimiter"@),
            Some(end) => if line_ends(rest.skip(end + 4)) {
                Ok(rest.take(end))
            } else {
                Err("invalid Agent Skills frontmatter: malformed closing delimiter"@)
            },
        },
    }
}

/// The text between the delimiters of a skill's file.
pub fn extract_frontmatter(content: &str) -> (result: Result<String, String>)
    ensures
        crate::json::written(result) == frontmatter(content@),
{
    proof {
        reveal_strlit("---\n");
        reveal_strlit("---\r\n");
        reveal_strlit("\n---");
    }
    let rest = match text::strip_prefix_str(content, "---\n") {
        Some(rest) => rest,
        None => match text::strip_prefix_str(content, "---\r\n") {
            Some(rest) => rest,
            None => {
                return Err(
                    "invalid Agent Skills frontmatter: missing opening delimiter".to_owned(),
                );
            },
        },
    };
    let chars = text::chars_of(rest.as_str());
    let total: usize = chars.len();
    let mark = text::chars_of("\n---");
    match text::find_in(&chars, &mark, 0) {
        None => Err("invalid Agent Skills frontmatter: missing closing delimiter".to_owned()),
        Some(end) => {
            proof {
                text::lemma_find(chars@, mark@, 0);
            }
            let after = text::string_of(&chars, end + 4, total);
            assert(after@ =~= rest@.skip(end + 4));
            if !after.as_str().is_empty() && !text::starts_with_str(after.as_str(), "\n")
                && !text::starts_with_str(after.as_str(), "\r\n") {
                return Err(
                    "invalid Agent Skills frontmatter: malformed closing delimiter".to_owned(),
                );
            }
            let out = text::string_of(&chars, 0, end);
            assert(out@ =~= rest@.take(end as int));
            Ok(out)
        },
    }
}

/// The head of a skill's file, as it is written, or what is wrong with the file.
pub open spec fn source_frontmatter(bytes: Seq<u8>) -> Result<Seq<char>, Seq<char>> {
    if bytes.len() > MAX_SKILL_FILE_BYTES {
        Err("skill file exceeds its size limit"@)
    } else if !vstd::utf8::valid_utf8(bytes) {
        Err("skill file is not valid UTF-8"@)
    } else {
        frontmatter(vstd::utf8::decode_utf8(bytes))
    }
}

/// The head of a skill's file, as it is written.
pub fn read_frontmatter(bytes: &Vec<u8>) -> (result: Result<String, String>)
    ensures
        crate::json::written(result) == source_frontmatter(bytes@),
{
    if bytes.len() > MAX_SKILL_FILE_BYTES {
        return Err("skill file exceeds its size limit".to_owned());
    }
    match text::from_utf8(bytes) {
        None => Err("skill file is not valid UTF-8".to_owned()),
        Some(content) => extract_frontmatter(content.as_str()),
    }
}

/// What is wrong with the head of a skill's file.
pub open spec fn head_problem(head: SkillFrontmatter) -> Option<Seq<char>> {
    if text::trim(head.name@).len() == 0 {
        Some("invalid Agent Skills frontmatter: name must not be empty"@)
    } else if text::trim(head.description@).len() == 0 {
        Some("invalid Agent Skills frontmatter: description must not be empty"@)
    } else {
        None
    }
}

/// The skill that the head of its file states.
pub fn accept_skill(head: SkillFrontmatter, path: &str) -> (result: Result<Skill, String>)
    ensures
        stated(result) == head_problem(head),
        result matches Ok(skill) ==> {
            &&& skill.name == head.name
            &&& skill.description == head.description
            &&& skill.disable_model_invocation == head.disable_model_invocation
            &&& skill.path@ == path@
        },
{
    if text::trim_str(head.name.as_str()).as_str().is_empty() {
        return Err("invalid Agent Skills frontmatter: name must not be empty".to_owned());
    }
    if text::trim_str(head.description.as_str()).as_str().is_empty() {
        return Err("invalid Agent Skills frontmatter: description must not be empty".to_owned());
    }
    Ok(
        Skill {
            name: head.name,
            description: head.description,
            disable_model_invocation: head.disable_model_invocation,
            path: path.to_owned(),
        },
    )
}

// ---------------------------------------------------------------------------------------------
// The links below a skill
// ---------------------------------------------------------------------------------------------

/// What stands at a path below a skill.
#[derive(Debug)]
pub enum LinkProbe {
    /// Neither a link nor a directory.
    File,
    /// A directory with these entries.
    Directory(Vec<String>),
    /// A link to nothing.
    Broken,
    /// A link to a place: its real path, whether it is a directory, and whether that holds the
    /// file of a skill.
    Link { target: String, is_directory: bool, holds_skill: bool },
}

/// The walk over everything below a skill, through links too.
#[derive(Debug)]
pub struct LinkWalk {
    pending: Vec<String>,
    visited: Vec<String>,
}

/// What the contracts say of a walk: the paths that are still to be looked at, the next one last,
/// and those that were looked at.
pub struct WalkModel {
    pub pending: Seq<Seq<char>>,
    pub visited: Seq<Seq<char>>,
}

impl View for LinkWalk {
    type V = WalkModel;

    closed spec fn view(&self) -> WalkModel {
        WalkModel {
            pending: text::texts(self.pending@),
            visited: text::texts(self.visited@),
        }
    }
}

/// How many of the last pending paths were looked at already.
pub open spec fn stale(walk: WalkModel, current_directory: Seq<char>) -> nat
    decreases walk.pending.len(),
{
    if walk.pending.len() > 0 && walk.visited.contains(
        paths::joined(current_directory, walk.pending.last()),
    ) {
        1 + stale(
            WalkModel { pending: walk.pending.drop_last(), visited: walk.visited },
            current_directory,
        )
    } else {
        0
    }
}

/// What is wrong with what stands at a path.
pub open spec fn link_problem(
    path: Seq<char>,
    probe: LinkProbe,
    approved_roots: Seq<Seq<char>>,
    current_directory: Seq<char>,
) -> Option<Seq<char>> {
    match probe {
        LinkProbe::Broken => Some(path + ": broken symbolic link"@),
        LinkProbe::Link { target, is_directory, holds_skill } => if !paths::within(
            target@,
            approved_roots,
            current_directory,
        ) {
            Some(path + ": symbolic link target is outside approved roots: "@ + target@)
        } else if is_directory && !holds_skill {
            Some(path + ": linked skill target has no SKILL.md file"@)
        } else {
            None
        },
        _ => None,
    }
}

/// The paths that are looked at because of what stands at a path.
pub open spec fn found_below(path: Seq<char>, probe: LinkProbe) -> Seq<Seq<char>> {
    match probe {
        LinkProbe::Directory(entries) => listed(text::texts(entries@)).map_values(
            |name: Seq<char>| paths::joined(path, name),
        ),
        LinkProbe::Link { target, is_directory: true, .. } => seq![target@],
        _ => Seq::empty(),
    }
}

impl LinkWalk {
    /// A walk from the path of a skill.
    pub fn start(root: &str) -> (walk: Self)
        ensures
            walk@.pending == seq![root@],
            walk@.visited.len() == 0,
    {
        let mut pending: Vec<String> = Vec::new();
        pending.push(root.to_owned());
        let walk = LinkWalk { pending, visited: Vec::new() };
        assert(walk@.pending =~= seq![root@]);
        walk
    }

    /// The next path to look at: the last pending one that was not looked at yet. None where
    /// there is none. So no path is looked at twice.
    pub fn next(&mut self, current_directory: &str) -> (path: Option<String>)
        ensures
            ({
                let left = old(self)@.pending.take(
                    old(self)@.pending.len() - stale(old(self)@, current_directory@),
                );
                match path {
                    Some(path) => {
                        let seen = paths::joined(current_directory@, path@);
                        &&& left.len() > 0
                        &&& path@ == left.last()
                        &&& !old(self)@.visited.contains(seen)
                        &&& final(self)@.pending == left.drop_last()
                        &&& final(self)@.visited == old(self)@.visited.push(seen)
                    },
                    None => left.len() == 0 && final(self)@.pending.len() == 0
                        && final(self)@.visited == old(self)@.visited,
                }
            }),
            old(self)@.visited.no_duplicates() ==> final(self)@.visited.no_duplicates(),
    {
        let ghost start = self@;
        assert(start.pending.take(start.pending.len() as int) =~= start.pending);
        while self.pending.len() > 0
            invariant
                self@.visited == start.visited,
                start == old(self)@,
                self@.pending.len() <= start.pending.len(),
                self@.pending == start.pending.take(self@.pending.len() as int),
                stale(start, current_directory@) == (start.pending.len() - self@.pending.len())
                    + stale(self@, current_directory@),
            decreases self.pending@.len(),
        {
            let ghost before = self@;
            if let Some(path) = self.pending.pop() {
                assert(self@.pending =~= before.pending.drop_last());
                assert(self@ == (WalkModel {
                    pending: before.pending.drop_last(),
                    visited: before.visited,
                }));
                let seen = paths::join(current_directory, path.as_str());
                if !text::list_has(&self.visited, seen.as_str()) {
                    let ghost visited = self.visited@;
                    self.visited.push(seen);
                    assert(text::texts(self.visited@) =~= text::texts(visited).push(seen@));
                    assert(start.pending.take(
                        start.pending.len() - stale(start, current_directory@),
                    ) =~= before.pending);
                    return Some(path);
                }
                assert(self@.pending =~= start.pending.take(self@.pending.len() as int));
            }
        }
        None
    }

    /// Takes in what stands at the path that was looked at.
    pub fn absorb(
        &mut self,
        path: &str,
        probe: LinkProbe,
        approved_roots: &Vec<String>,
        current_directory: &str,
    ) -> (result: Result<(), String>)
        ensures
            stated(result) == link_problem(
                path@,
                probe,
                text::texts(approved_roots@),
                current_directory@,
            ),
            final(self)@.visited == old(self)@.visited,
            final(self)@.pending == (if result is Ok {
                old(self)@.pending + found_below(path@, probe)
            } else {
                old(self)@.pending
            }),
    {
        let ghost start = self@;
        match probe {
            LinkProbe::File => {
                assert(self@.pending =~= start.pending + found_below(path@, probe));
                Ok(())
            },
            LinkProbe::Broken => {
                let mut message = path.to_owned();
                message.append(": broken symbolic link");
                Err(message)
            },
            LinkProbe::Link { target, is_directory, holds_skill } => {
                if !paths::is_within(target.as_str(), approved_roots, current_directory) {
                    let mut message = path.to_owned();
                    message.append(": symbolic link target is outside approved roots: ");
                    message.append(target.as_str());
                    return Err(message);
                }
                if is_directory {
                    if !holds_skill {
                        let mut message = path.to_owned();
                        message.append(": linked skill target has no SKILL.md file");
                        return Err(message);
                    }
                    self.pending.push(target);
                }
                assert(self@.pending =~= start.pending + found_below(path@, probe));
                Ok(())
            },
            LinkProbe::Directory(entries) => {
                let shown = visible_entries(&entries);
                let ghost all = found_below(path@, probe);
                let mut i: usize = 0;
                assert(self@.pending =~= start.pending + all.take(0));
                while i < shown.len()
                    invariant
                        i <= shown@.len() == all.len(),
                        forall|k: int|
                            0 <= k < shown@.len() ==> #[trigger] all[k] == paths::joined(
                                path@,
                                text::texts(shown@)[k],
                            ),
                        self@.visited == start.visited,
                        self@.pending == start.pending + all.take(i as int),
                    decreases shown@.len() - i,
                {
                    let ghost before = self.pending@;
                    let below = paths::join(path, shown[i].as_str());
                    assert(text::texts(shown@)[i as int] == shown@[i as int]@);
                    self.pending.push(below);
                    assert(text::texts(self.pending@) =~= text::texts(before).push(below@));
                    assert(all.take(i + 1) =~= all.take(i as int).push(all[i as int]));
                    assert(self@.pending =~= start.pending + all.take(i + 1));
                    i += 1;
                }
                assert(all.take(i as int) =~= all);
                Ok(())
            },
        }
    }
}

// ---------------------------------------------------------------------------------------------
// Laws
// ---------------------------------------------------------------------------------------------

proof fn lemma_names_order(a: Seq<Seq<char>>, b: Seq<Seq<char>>, c: Seq<Seq<char>>)
    ensures
        names_le(a, b) || names_le(b, a),
        names_le(a, b) && names_le(b, c) ==> names_le(a, c),
    decreases a.len() + b.len() + c.len(),
{
    if a.len() > 0 && b.len() > 0 && c.len() > 0 {
        text::lemma_text_order(a[0], b[0], c[0]);
        text::lemma_text_order(b[0], a[0], c[0]);
        text::lemma_text_order(b[0], c[0], a[0]);
        lemma_names_order(a.drop_first(), b.drop_first(), c.drop_first());
    } else if a.len() > 0 && b.len() > 0 {
        text::lemma_text_order(a[0], b[0], a[0]);
        lemma_names_order(a.drop_first(), b.drop_first(), c);
    }
}

proof fn lemma_skill_order(a: Skill, b: Skill, c: Skill)
    ensures
        skill_le(a, b) || skill_le(b, a),
        skill_le(a, b) && skill_le(b, c) ==> skill_le(a, c),
{
    text::lemma_text_order(a.name@, b.name@, c.name@);
    text::lemma_text_order(b.name@, a.name@, c.name@);
    text::lemma_text_order(b.name@, c.name@, a.name@);
    lemma_names_order(paths::names(a.path@), paths::names(b.path@), paths::names(c.path@));
}

/// Whether no skill comes before one that stands in front of it.
pub open spec fn in_order(list: Seq<Skill>) -> bool {
    forall|i: int, j: int| 0 <= i < j < list.len() ==> skill_le(#[trigger] list[i], #[trigger] list[j])
}

proof fn lemma_skill_place(list: Seq<Skill>, skill: Skill, n: int)
    requires
        in_order(list),
        0 <= n <= list.len(),
        forall|k: int| n <= k < list.len() ==> !skill_le(#[trigger] list[k], skill),
    ensures
        0 <= skill_place(list, skill, n) <= n,
        forall|k: int|
            0 <= k < skill_place(list, skill, n) ==> skill_le(#[trigger] list[k], skill),
        forall|k: int|
            skill_place(list, skill, n) <= k < list.len() ==> !skill_le(#[trigger] list[k], skill),
    decreases n,
{
    if n > 0 {
        if skill_le(list[n - 1], skill) {
            assert forall|k: int| 0 <= k < n implies skill_le(#[trigger] list[k], skill) by {
                if k < n - 1 {
                    lemma_skill_order(list[k], list[n - 1], skill);
                }
            }
        } else {
            lemma_skill_place(list, skill, n - 1);
        }
    }
}

/// The skills of a validation come in order, and they are the skills that were found, each as
/// often as it was found.
pub proof fn law_skills_are_sorted(list: Seq<Skill>)
    ensures
        in_order(sorted_skills(list)),
        sorted_skills(list).to_multiset() == list.to_multiset(),
    decreases list.len(),
{
    broadcast use vstd::seq_lib::group_to_multiset_ensures;

    if list.len() > 0 {
        let before = sorted_skills(list.drop_last());
        let skill = list.last();
        law_skills_are_sorted(list.drop_last());
        lemma_skill_place(before, skill, before.len() as int);
        let place = skill_place(before, skill, before.len() as int);
        let after = before.insert(place, skill);
        assert forall|i: int, j: int| 0 <= i < j < after.len() implies skill_le(
            #[trigger] after[i],
            #[trigger] after[j],
        ) by {
            if i == place {
                lemma_skill_order(skill, before[j - 1], skill);
            } else if j == place {
            } else {
                assert(after[i] == before[if i < place {
                    i
                } else {
                    i - 1
                }]);
                assert(after[j] == before[if j < place {
                    j
                } else {
                    j - 1
                }]);
            }
        }
        assert(after.remove(place) =~= before);
        vstd::seq_lib::to_multiset_remove(after, place);
        assert(after[place] == skill);
        assert(after.to_multiset().count(skill) > 0);
        assert(after.to_multiset() =~= before.to_multiset().insert(skill));
        assert(list =~= list.drop_last().push(skill));
        assert(list.drop_last().push(skill).to_multiset() =~= list.drop_last().to_multiset().insert(
            skill,
        ));
    } else {
        assert(sorted_skills(list) =~= list);
    }
}


/// The skills that the model may load on its own, in order.
pub open spec fn invocable(skills: Seq<Skill>) -> Seq<Skill>
    decreases skills.len(),
{
    if skills.len() == 0 {
        Seq::empty()
    } else if skills.last().disable_model_invocation {
        invocable(skills.drop_last())
    } else {
        invocable(skills.drop_last()).push(skills.last())
    }
}

/// A skill that the model may not load on its own leaves no trace in the catalog: the catalog is
/// that of the others. It is empty if there are no others. If there are, each of them has its
/// five lines, name, description and path escaped, in order behind the lines of the head.
pub proof fn law_catalog_lists_the_invocable(skills: Seq<Skill>)
    ensures
        catalog(skills) == catalog(invocable(skills)),
        catalog_body(skills) == catalog_body(invocable(skills)),
        catalog_body(skills).len() == 5 * invocable(skills).len(),
        (catalog(skills) == Seq::<char>::empty()) == (invocable(skills).len() == 0),
        forall|k: int|
            0 <= k < invocable(skills).len() ==> catalog_body(skills).subrange(5 * k, 5 * k + 5)
                == skill_lines(#[trigger] invocable(skills)[k]),
        forall|k: int|
            0 <= k < invocable(skills).len() ==> !(
            #[trigger] invocable(skills)[k]).disable_model_invocation,
    decreases skills.len(),
{
    if skills.len() > 0 {
        law_catalog_lists_the_invocable(skills.drop_last());
        let before = invocable(skills.drop_last());
        let lines = catalog_body(skills.drop_last());
        if !skills.last().disable_model_invocation {
            let all = before.push(skills.last());
            assert(all.drop_last() =~= before);
            assert(all.last() == skills.last());
            assert forall|k: int| 0 <= k < all.len() implies catalog_body(skills).subrange(
                5 * k,
                5 * k + 5,
            ) == skill_lines(#[trigger] all[k]) by {
                if k < before.len() {
                    assert(all[k] == before[k]);
                    assert(catalog_body(skills).subrange(5 * k, 5 * k + 5) =~= lines.subrange(
                        5 * k,
                        5 * k + 5,
                    ));
                } else {
                    assert(catalog_body(skills).subrange(5 * k, 5 * k + 5) =~= skill_lines(
                        all[k],
                    ));
                }
            }
        }
    }
    if invocable(skills).len() > 0 {
        let lines = catalog_head() + catalog_body(skills) + seq!["</available_skills>"@];
        reveal_strlit("</available_skills>");
        reveal_with_fuel(text::join, 2);
        assert(lines.last() == "</available_skills>"@);
        assert(catalog(skills).len() > 0);
    }
}

} // verus!
