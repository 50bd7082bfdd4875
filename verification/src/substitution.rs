//! The placeholders of a template and the values that replace them.

use vstd::prelude::*;
use vstd::string::*;
use crate::config::Config;
use crate::text::{marked_tokens, pair_views, substitute, substituted};

verus! {

/// The placeholder for the project's name.
pub const PROJECT_NAME_TOKEN: &'static str = "{{PROJECT_NAME}}";

/// The placeholder for the minimum version of the build tool.
pub const CMAKE_VERSION_TOKEN: &'static str = "{{CMAKE_VERSION}}";

/// The placeholder for the language standard.
pub const CPP_STANDARD_TOKEN: &'static str = "{{CPP_STANDARD}}";

/// The pairs that replace the project name alone.
pub open spec fn name_pairs(project_name: Seq<char>) -> Seq<(Seq<char>, Seq<char>)> {
    seq![(PROJECT_NAME_TOKEN@, project_name)]
}

/// The pairs for a project: its name, then the minimum version of the build
/// tool, then the language standard.
pub open spec fn project_pairs(
    project_name: Seq<char>,
    cmake_version: Seq<char>,
    cpp_standard: Seq<char>,
) -> Seq<(Seq<char>, Seq<char>)> {
    seq![
        (PROJECT_NAME_TOKEN@, project_name),
        (CMAKE_VERSION_TOKEN@, cmake_version),
        (CPP_STANDARD_TOKEN@, cpp_standard),
    ]
}

/// Every token of a project's pairs begins with `{{`.
pub proof fn lemma_project_tokens_marked(
    project_name: Seq<char>,
    cmake_version: Seq<char>,
    cpp_standard: Seq<char>,
)
    ensures
        marked_tokens(name_pairs(project_name)),
        marked_tokens(project_pairs(project_name, cmake_version, cpp_standard)),
{
    reveal_strlit("{{PROJECT_NAME}}");
    reveal_strlit("{{CMAKE_VERSION}}");
    reveal_strlit("{{CPP_STANDARD}}");
}

/// Placeholder tokens with their replacement values. A token that has no
/// pair stays in the text as it is.
#[derive(Debug, Clone)]
pub struct SubstitutionMap {
    pairs: Vec<(String, String)>,
}

impl View for SubstitutionMap {
    type V = Seq<(Seq<char>, Seq<char>)>;

    /// The (token, value) pairs.
    closed spec fn view(&self) -> Seq<(Seq<char>, Seq<char>)> {
        pair_views(self.pairs@)
    }
}

impl SubstitutionMap {
    /// The map that replaces the project name alone.
    pub fn for_project_name(project_name: &str) -> (map: SubstitutionMap)
        ensures
            map@ == name_pairs(project_name@),
    {
        let mut pairs: Vec<(String, String)> = Vec::new();
        pairs.push((String::from_str(PROJECT_NAME_TOKEN), String::from_str(project_name)));
        let map = SubstitutionMap { pairs };
        assert(map@ =~= name_pairs(project_name@));
        map
    }

    /// The map for a project called `project_name` with the build settings
    /// of `config`.
    pub fn for_project(project_name: &str, config: &Config) -> (map: SubstitutionMap)
        ensures
            map@ == project_pairs(
                project_name@,
                config.project.cmake_minimum_version@,
                config.project.cpp_standard@,
            ),
    {
        let mut pairs: Vec<(String, String)> = Vec::new();
        pairs.push((String::from_str(PROJECT_NAME_TOKEN), String::from_str(project_name)));
        pairs.push(
            (String::from_str(CMAKE_VERSION_TOKEN), config.project.cmake_minimum_version.clone()),
        );
        pairs.push((String::from_str(CPP_STANDARD_TOKEN), config.project.cpp_standard.clone()));
        let map = SubstitutionMap { pairs };
        assert(map@ =~= project_pairs(
            project_name@,
            config.project.cmake_minimum_version@,
            config.project.cpp_standard@,
        ));
        map
    }

    /// `text` with every token of the map replaced by its value, in one
    /// pass: what is put in is not looked at again.
    pub fn apply_to(&self, text: &str) -> (out: String)
        ensures
            out@ == substituted(text@, self@),
    {
        substitute(text, &self.pairs)
    }
}

} // verus!
