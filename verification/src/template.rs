//! Templates: named sets of files from which a new project is made, where
//! they come from, and what is done with them.

use vstd::prelude::*;
use vstd::string::*;
use crate::config::{templates_root, templates_root_in, user_templates_root};
use crate::error::{ErrorView, ProconError};
use crate::file_map::{all_inside, distinct_paths, has_path, pairs_map, path_at, FileMap};
use crate::loading::{
    lemma_loaded_complete, lemma_loaded_inside, lemma_loaded_keys, load_directory_recursively,
    load_required, loaded, text_file_in, texts, well_named_dir, Gathered,
};
use crate::paths::{join, joined, parent, parent_key};
use crate::plan::{step_views, steps_of, StepView, WritePlan, WriteStep};
use crate::source::SourceDir;
use crate::substitution::{name_pairs, SubstitutionMap};
use crate::text::{
    braces_open_tokens, free_of_tokens, lemma_substituted_free,
    lemma_substituted_idempotent_marked, marked_tokens, plain_values, same_string, same_text,
    substituted,
};

verus! {

/// The source file every template must hold at its root.
pub const MAIN_CPP: &'static str = "main.cpp";

/// The build description every template must hold at its root.
pub const CMAKE_LISTS: &'static str = "CMakeLists.txt";

/// The `main.cpp` of the built-in template `default`.
pub const DEFAULT_MAIN_CPP: &'static str =
    "// {{PROJECT_NAME}}\n#include <bits/stdc++.h>\nusing namespace std;\n\nint main() {\n    ios::sync_with_stdio(false);\n    cin.tie(nullptr);\n\n    return 0;\n}\n";

/// The `CMakeLists.txt` of the built-in template `default`.
pub const DEFAULT_CMAKE: &'static str =
    "cmake_minimum_required(VERSION {{CMAKE_VERSION}})\nproject({{PROJECT_NAME}})\n\nset(CMAKE_CXX_STANDARD {{CPP_STANDARD}})\nset(CMAKE_CXX_STANDARD_REQUIRED ON)\n\nadd_executable({{PROJECT_NAME}} main.cpp)\n";

/// `name` is one of the two files required at a template's root.
pub open spec fn is_required(name: Seq<char>) -> bool {
    name == MAIN_CPP@ || name == CMAKE_LISTS@
}

/// The files of a template made of the two required files alone.
pub open spec fn embedded_pairs(main_cpp: Seq<char>, cmake: Seq<char>) -> Seq<
    (Seq<char>, Seq<char>),
> {
    seq![(MAIN_CPP@, main_cpp), (CMAKE_LISTS@, cmake)]
}

/// The name of the one built-in template.
pub const DEFAULT_TEMPLATE: &'static str = "default";

/// `name` is the name of a built-in template.
pub open spec fn is_builtin(name: Seq<char>) -> bool {
    name == DEFAULT_TEMPLATE@
}

/// The files of the built-in template `default`.
pub open spec fn builtin_pairs() -> Seq<(Seq<char>, Seq<char>)> {
    embedded_pairs(DEFAULT_MAIN_CPP@, DEFAULT_CMAKE@)
}

/// The two required files stand in `embedded_pairs` under distinct paths.
pub proof fn lemma_embedded_pairs(main_cpp: Seq<char>, cmake: Seq<char>)
    ensures
        distinct_paths(embedded_pairs(main_cpp, cmake)),
        has_path(embedded_pairs(main_cpp, cmake), MAIN_CPP@),
        has_path(embedded_pairs(main_cpp, cmake), CMAKE_LISTS@),
{
    let pairs = embedded_pairs(main_cpp, cmake);
    reveal_strlit("main.cpp");
    reveal_strlit("CMakeLists.txt");
    assert(MAIN_CPP@.len() != CMAKE_LISTS@.len());
    assert(path_at(pairs, MAIN_CPP@, 0));
    assert(path_at(pairs, CMAKE_LISTS@, 1));
}

/// `pairs` with the tokens of `subst` replaced in every content. Paths and
/// their order stay as they are.
pub open spec fn applied(
    pairs: Seq<(Seq<char>, Seq<char>)>,
    subst: Seq<(Seq<char>, Seq<char>)>,
) -> Seq<(Seq<char>, Seq<char>)> {
    Seq::new(pairs.len(), |i: int| (pairs[i].0, substituted(pairs[i].1, subst)))
}

/// Substitution changes no path: the substituted files have the paths of
/// the files they were made from, in the same order, and distinct paths stay
/// distinct.
pub proof fn lemma_applied_paths(
    pairs: Seq<(Seq<char>, Seq<char>)>,
    subst: Seq<(Seq<char>, Seq<char>)>,
)
    ensures
        applied(pairs, subst).len() == pairs.len(),
        forall|i: int| 0 <= i < pairs.len() ==> (#[trigger] applied(pairs, subst)[i]).0 == pairs[i].0,
        forall|path: Seq<char>| has_path(applied(pairs, subst), path) <==> has_path(pairs, path),
        distinct_paths(pairs) ==> distinct_paths(applied(pairs, subst)),
{
    let out = applied(pairs, subst);
    assert forall|path: Seq<char>| has_path(out, path) <==> has_path(pairs, path) by {
        if has_path(out, path) {
            let at = choose|at: int| path_at(out, path, at);
            assert(path_at(pairs, path, at));
        }
        if has_path(pairs, path) {
            let at = choose|at: int| path_at(pairs, path, at);
            assert(path_at(out, path, at));
        }
    }
    if distinct_paths(pairs) {
        assert forall|i: int, j: int| 0 <= i < j < out.len() implies (#[trigger] out[i]).0 != (
        #[trigger] out[j]).0 by {
            assert(pairs[i].0 != pairs[j].0);
        }
    }
}

/// Substitution is idempotent on every template whose substituted files
/// hold none of the tokens: applying the same pairs again changes nothing.
///
/// The condition cannot be dropped. A value may complete a token with the
/// text around it: in `{{{{PROJECT_NAME}}_NAME}}` the name `PROJECT` leaves
/// `{{PROJECT_NAME}}`, which a second pass would replace again.
pub proof fn lemma_apply_idempotent(
    pairs: Seq<(Seq<char>, Seq<char>)>,
    subst: Seq<(Seq<char>, Seq<char>)>,
)
    requires
        forall|i: int|
            0 <= i < pairs.len() ==> free_of_tokens(
                #[trigger] substituted(pairs[i].1, subst),
                subst,
            ),
    ensures
        applied(applied(pairs, subst), subst) == applied(pairs, subst),
        pairs_map(applied(applied(pairs, subst), subst)) == pairs_map(applied(pairs, subst)),
{
    let once = applied(pairs, subst);
    let twice = applied(once, subst);
    assert forall|i: int| 0 <= i < pairs.len() implies twice[i] == once[i] by {
        assert(free_of_tokens(substituted(pairs[i].1, subst), subst));
        lemma_substituted_free(substituted(pairs[i].1, subst), subst);
    }
    assert(twice =~= once);
}

/// Substitution is idempotent on every template in whose files each `{{`
/// begins a token of the map, provided every token begins with `{{` and no
/// value holds a `{`: applying the same pairs again changes nothing.
pub proof fn lemma_apply_idempotent_marked(
    pairs: Seq<(Seq<char>, Seq<char>)>,
    subst: Seq<(Seq<char>, Seq<char>)>,
)
    requires
        marked_tokens(subst),
        plain_values(subst),
        forall|i: int| 0 <= i < pairs.len() ==> braces_open_tokens((#[trigger] pairs[i]).1, subst),
    ensures
        applied(applied(pairs, subst), subst) == applied(pairs, subst),
{
    assert forall|i: int| 0 <= i < pairs.len() implies free_of_tokens(
        #[trigger] substituted(pairs[i].1, subst),
        subst,
    ) by {
        assert(braces_open_tokens(pairs[i].1, subst));
        lemma_substituted_idempotent_marked(pairs[i].1, subst);
    }
    lemma_apply_idempotent(pairs, subst);
}

/// A set of files by relative path, from which a project is made.
#[derive(Debug, Clone)]
pub struct Template {
    pub files: FileMap,
}

impl View for Template {
    type V = Map<Seq<char>, Seq<char>>;

    /// The mapping from relative path to content.
    open spec fn view(&self) -> Map<Seq<char>, Seq<char>> {
        self.files@
    }
}

impl Template {
    /// Both required files are present.
    pub open spec fn is_complete(&self) -> bool {
        self@.dom().contains(MAIN_CPP@) && self@.dom().contains(CMAKE_LISTS@)
    }

    /// A template of the two required files with the given contents. The
    /// name plays no part.
    pub fn from_embedded_content(_name: &str, main_cpp_content: &str, cmake_content: &str) -> (template:
        Template)
        ensures
            template.files.pairs() == embedded_pairs(main_cpp_content@, cmake_content@),
            template.is_complete(),
    {
        let mut files = FileMap::new();
        files.insert(String::from_str(MAIN_CPP), String::from_str(main_cpp_content));
        proof {
            let first = seq![(MAIN_CPP@, main_cpp_content@)];
            assert(files.pairs() =~= first) by {
                assert forall|at: int|
                    !path_at(
                        Seq::<(Seq<char>, Seq<char>)>::empty(),
                        MAIN_CPP@,
                        at,
                    ) by {}
            }
            reveal_strlit("main.cpp");
            reveal_strlit("CMakeLists.txt");
            assert(MAIN_CPP@.len() != CMAKE_LISTS@.len());
            assert forall|at: int| !path_at(first, CMAKE_LISTS@, at) by {}
        }
        files.insert(String::from_str(CMAKE_LISTS), String::from_str(cmake_content));
        assert(files.pairs() =~= embedded_pairs(main_cpp_content@, cmake_content@));
        Template { files }
    }

    /// The built-in template called `template_name`. The only one is
    /// `default`; any other name is not found.
    pub fn from_builtin(template_name: &str) -> (outcome: Result<Template, ProconError>)
        ensures
            match outcome {
                Ok(template) => is_builtin(template_name@) && template.files.pairs()
                    == builtin_pairs() && template.is_complete(),
                Err(error) => !is_builtin(template_name@) && error@ == ErrorView::TemplateNotFound(
                    template_name@,
                ),
            },
    {
        if same_text(template_name, DEFAULT_TEMPLATE) {
            Ok(Template::from_embedded_content(DEFAULT_TEMPLATE, DEFAULT_MAIN_CPP, DEFAULT_CMAKE))
        } else {
            Err(ProconError::TemplateNotFound(String::from_str(template_name)))
        }
    }

    /// Loads the template found in the directory `dir`, and says which files
    /// were passed over because they could not be read as text.
    pub fn load_with_report(dir: &SourceDir) -> (outcome: Result<Loaded, ProconError>)
        ensures
            match loaded(*dir) {
                Ok(gathered) => outcome matches Ok(found) && found.template.files.pairs()
                    == gathered.files && texts(found.skipped@) == gathered.skipped
                    && found.template.is_complete(),
                Err(error) => outcome matches Err(found) && found@ == error,
            },
            outcome matches Ok(found) ==> forall|key: Seq<char>|
                #[trigger] found.template@.dom().contains(key) <==> is_required(key)
                    || text_file_in(*dir, key),
            well_named_dir(*dir) ==> (outcome matches Ok(found) ==> all_inside(
                found.template.files.pairs(),
            )),
    {
        proof {
            lemma_loaded_complete(*dir);
            lemma_loaded_keys(*dir);
            if well_named_dir(*dir) {
                lemma_loaded_inside(*dir);
            }
            if let Ok(gathered) = loaded(*dir) {
                assert forall|key: Seq<char>| #[trigger]
                    pairs_map(gathered.files).dom().contains(key) <==> has_path(
                        gathered.files,
                        key,
                    ) by {}
            }
        }
        match dir {
            SourceDir::Unreadable(reason) => Err(ProconError::Io(reason.clone())),
            SourceDir::Listing(entries) => {
                let main_cpp = match load_required(entries, MAIN_CPP) {
                    Ok(text) => text,
                    Err(error) => {
                        return Err(error);
                    },
                };
                let cmake = match load_required(entries, CMAKE_LISTS) {
                    Ok(text) => text,
                    Err(error) => {
                        return Err(error);
                    },
                };
                let mut template = Template::from_embedded_content(
                    "",
                    main_cpp.as_str(),
                    cmake.as_str(),
                );
                let mut skipped: Vec<String> = Vec::new();
                proof {
                    reveal_strlit("");
                    assert(""@ =~= Seq::<char>::empty());
                    assert(texts(skipped@) =~= Seq::<Seq<char>>::empty());
                }
                match load_directory_recursively(entries, "", &mut template.files, &mut skipped) {
                    Ok(_) => Ok(Loaded { template, skipped }),
                    Err(error) => Err(error),
                }
            },
        }
    }

    /// Loads the template found in the directory `dir`.
    ///
    /// Both required files must stand at the root and be readable as text.
    /// Every other file is stored under its path relative to the root; files
    /// that cannot be read as text are left out. The keys are those of the
    /// files with text, whatever the order of the listing; where every entry
    /// has a proper name, every key lies strictly inside the root.
    pub fn load_from_path(dir: &SourceDir) -> (outcome: Result<Template, ProconError>)
        ensures
            match loaded(*dir) {
                Ok(gathered) => outcome matches Ok(template) && template.files.pairs()
                    == gathered.files && template.is_complete(),
                Err(error) => outcome matches Err(found) && found@ == error,
            },
            outcome matches Ok(template) ==> forall|key: Seq<char>|
                #[trigger] template@.dom().contains(key) <==> is_required(key) || text_file_in(
                    *dir,
                    key,
                ),
            well_named_dir(*dir) ==> (outcome matches Ok(template) ==> all_inside(
                template.files.pairs(),
            )),
    {
        match Template::load_with_report(dir) {
            Ok(found) => Ok(found.template),
            Err(error) => Err(error),
        }
    }

    /// The template with the tokens of `map` replaced in every file.
    pub fn apply(&self, map: &SubstitutionMap) -> (out: Template)
        ensures
            out.files.pairs() == applied(self.files.pairs(), map@),
            out@.dom() == self@.dom(),
    {
        proof {
            lemma_applied_paths(self.files.pairs(), map@);
            assert(pairs_map(applied(self.files.pairs(), map@)).dom() =~= pairs_map(
                self.files.pairs(),
            ).dom());
        }
        let mut files = FileMap::new();
        let count = self.files.len();
        let ghost pairs = self.files.pairs();
        let mut i: usize = 0;
        assert(applied(pairs, map@).take(0) =~= files.pairs());
        while i < count
            invariant
                i <= count,
                count == pairs.len(),
                pairs == self.files.pairs(),
                distinct_paths(pairs),
                files.pairs() == applied(pairs, map@).take(i as int),
            decreases count - i,
        {
            match self.files.entry(i) {
                Some((path, content)) => {
                    let ghost before = files.pairs();
                    proof {
                        assert forall|at: int| !path_at(before, path@, at) by {
                            if path_at(before, path@, at) {
                                assert(pairs[at].0 != pairs[i as int].0);
                            }
                        }
                        assert(!has_path(before, path@));
                    }
                    files.insert(path.clone(), map.apply_to(content.as_str()));
                    assert(files.pairs() =~= applied(pairs, map@).take(i + 1));
                },
                None => {},
            }
            i += 1;
        }
        assert(applied(pairs, map@).take(count as int) =~= applied(pairs, map@));
        Template { files }
    }

    /// The template with the project-name token replaced by `project_name`
    /// in every file.
    pub fn apply_variables(&self, project_name: &str) -> (out: Template)
        ensures
            out.files.pairs() == applied(self.files.pairs(), name_pairs(project_name@)),
            out@.dom() == self@.dom(),
    {
        let map = SubstitutionMap::for_project_name(project_name);
        self.apply(&map)
    }

    /// The plan that puts this template at `dest_dir`, which must be free:
    /// where something stands there already, nothing is planned and the
    /// error names the destination.
    pub fn copy_to(&self, dest_dir: &str, dest_exists: bool) -> (outcome: Result<
        WritePlan,
        ProconError,
    >)
        ensures
            match outcome {
                Ok(plan) => !dest_exists && plan.root@ == dest_dir@ && step_views(plan.steps@)
                    == steps_of(self.files.pairs()),
                Err(error) => dest_exists && error@ == ErrorView::ProjectExists(dest_dir@),
            },
    {
        if dest_exists {
            Err(ProconError::ProjectExists(String::from_str(dest_dir)))
        } else {
            Ok(self.write_plan(dest_dir))
        }
    }

    /// The plan that writes this template's files below `dest_dir`.
    fn write_plan(&self, dest_dir: &str) -> (plan: WritePlan)
        ensures
            plan.root@ == dest_dir@,
            step_views(plan.steps@) == steps_of(self.files.pairs()),
    {
        let mut steps: Vec<WriteStep> = Vec::new();
        steps.push(WriteStep::CreateDir(String::new()));
        let count = self.files.len();
        let ghost pairs = self.files.pairs();
        let mut i: usize = 0;
        assert(pairs.take(0) =~= Seq::<(Seq<char>, Seq<char>)>::empty());
        assert(step_views(steps@) =~= steps_of(pairs.take(0)));
        while i < count
            invariant
                i <= count,
                count == pairs.len(),
                pairs == self.files.pairs(),
                step_views(steps@) == steps_of(pairs.take(i as int)),
            decreases count - i,
        {
            match self.files.entry(i) {
                Some((path, content)) => {
                    let ghost before = step_views(steps@);
                    proof {
                        let next = pairs.take(i + 1);
                        assert(next.drop_last() =~= pairs.take(i as int));
                        assert(next.last() == pairs[i as int]);
                    }
                    steps.push(WriteStep::CreateDir(parent(path.as_str())));
                    steps.push(WriteStep::WriteFile(path.clone(), content.clone()));
                    assert(step_views(steps@) =~= before.push(
                        StepView::CreateDir(parent_key(path@)),
                    ).push(StepView::WriteFile(path@, content@)));
                },
                None => {},
            }
            i += 1;
        }
        assert(pairs.take(count as int) =~= pairs);
        WritePlan { root: String::from_str(dest_dir), steps }
    }
}

/// A loaded template with the keys of the files that were passed over.
#[derive(Debug, Clone)]
pub struct Loaded {
    pub template: Template,
    pub skipped: Vec<String>,
}

/// Where a template's files come from.
#[derive(Debug, Clone, PartialEq, Eq)]
pub enum TemplateSource {
    /// The built-in template of this name.
    EmbeddedBuiltin(String),
    /// The user's template directory at this path.
    UserDirectory(String),
}

/// The mathematical value of a [`TemplateSource`].
pub enum SourceView {
    EmbeddedBuiltin(Seq<char>),
    UserDirectory(Seq<char>),
}

impl View for TemplateSource {
    type V = SourceView;

    open spec fn view(&self) -> SourceView {
        match *self {
            TemplateSource::EmbeddedBuiltin(name) => SourceView::EmbeddedBuiltin(name@),
            TemplateSource::UserDirectory(path) => SourceView::UserDirectory(path@),
        }
    }
}

/// A template directory of the user: its name, where it lies, and what was
/// found in it.
#[derive(Debug)]
pub struct UserTemplate {
    pub name: String,
    pub path: String,
    pub dir: SourceDir,
}

/// The first position at or after `from` of a user template called `name`.
pub open spec fn user_named(users: Seq<UserTemplate>, name: Seq<char>, from: int) -> Option<int>
    decreases users.len() - from,
{
    if from < 0 || from >= users.len() {
        None
    } else if users[from].name@ == name {
        Some(from)
    } else {
        user_named(users, name, from + 1)
    }
}

/// The source that `name` resolves to: the user's template of that name
/// where there is one, else the built-in of that name, else nothing.
pub open spec fn resolved(users: Seq<UserTemplate>, name: Seq<char>) -> Result<
    SourceView,
    ErrorView,
> {
    match user_named(users, name, 0) {
        Some(at) => Ok(SourceView::UserDirectory(users[at].path@)),
        None => if is_builtin(name) {
            Ok(SourceView::EmbeddedBuiltin(name))
        } else {
            Err(ErrorView::TemplateNotFound(name))
        },
    }
}

/// The files of a load, or its error.
pub open spec fn files_of(outcome: Result<Gathered, ErrorView>) -> Result<
    Seq<(Seq<char>, Seq<char>)>,
    ErrorView,
> {
    match outcome {
        Ok(gathered) => Ok(gathered.files),
        Err(error) => Err(error),
    }
}

/// The files of the template that `name` resolves to. A user's template is
/// loaded from its directory, and what goes wrong there is the result: the
/// built-in of the same name is not tried.
pub open spec fn template_files(users: Seq<UserTemplate>, name: Seq<char>) -> Result<
    Seq<(Seq<char>, Seq<char>)>,
    ErrorView,
> {
    match user_named(users, name, 0) {
        Some(at) => files_of(loaded(users[at].dir)),
        None => if is_builtin(name) {
            Ok(builtin_pairs())
        } else {
            Err(ErrorView::TemplateNotFound(name))
        },
    }
}

/// A template of the user always comes before the built-in of the same name:
/// the name resolves to the user's directory, and the files, or the error,
/// are those of that directory, whether or not the name is a built-in one
/// and whether or not the directory holds a usable template.
pub proof fn lemma_user_template_shadows_builtin(users: Seq<UserTemplate>, name: Seq<char>)
    requires
        user_named(users, name, 0) is Some,
    ensures
        resolved(users, name) == Ok::<SourceView, ErrorView>(
            SourceView::UserDirectory(users[user_named(users, name, 0)->0].path@),
        ),
        template_files(users, name) == files_of(loaded(users[user_named(users, name, 0)->0].dir)),
        is_builtin(name) && loaded(users[user_named(users, name, 0)->0].dir) is Err
            ==> template_files(users, name) is Err,
{
}

/// The templates that can be used: those of the user that were found on
/// disk, and the built-in ones.
#[derive(Debug)]
pub struct TemplateLoader {
    pub user_templates: Vec<UserTemplate>,
}

impl TemplateLoader {
    /// A loader that knows the built-in templates only.
    pub fn new() -> (loader: TemplateLoader)
        ensures
            loader.user_templates@ == Seq::<UserTemplate>::empty(),
    {
        TemplateLoader { user_templates: Vec::new() }
    }

    /// Where the template called `name` of a user lies whose configuration
    /// directory is `config_dir`.
    pub fn user_template_path_in(config_dir: &str, name: &str) -> (path: String)
        ensures
            path@ == joined(templates_root(config_dir@), name@),
    {
        let root = templates_root_in(config_dir);
        join(root.as_str(), name)
    }

    /// Where the user's template called `name` lies if it exists: under the
    /// user's configuration directory. `None` where the user has no
    /// configuration directory.
    pub fn user_template_path(name: &str) -> (path: Option<String>)
        ensures
            path matches Some(text) ==> exists|config_dir: Seq<char>|
                text@ == joined(templates_root(config_dir), name@),
    {
        match user_templates_root() {
            Some(root) => Some(join(root.as_str(), name)),
            None => None,
        }
    }

    /// Makes a template of the user known to the loader. Of two with the
    /// same name the one registered first is used.
    pub fn register(&mut self, template: UserTemplate)
        ensures
            final(self).user_templates@ == old(self).user_templates@.push(template),
    {
        self.user_templates.push(template);
    }

    /// Where the user's template called `name` stands in the loader.
    fn find_user(&self, name: &str) -> (found: Option<usize>)
        ensures
            match found {
                Some(at) => user_named(self.user_templates@, name@, 0) == Some(at as int) && at
                    < self.user_templates@.len(),
                None => user_named(self.user_templates@, name@, 0) is None,
            },
    {
        let wanted = String::from_str(name);
        let mut i: usize = 0;
        while i < self.user_templates.len()
            invariant
                i <= self.user_templates.len(),
                wanted@ == name@,
                user_named(self.user_templates@, name@, 0) == user_named(
                    self.user_templates@,
                    name@,
                    i as int,
                ),
            decreases self.user_templates.len() - i,
        {
            if same_string(&self.user_templates[i].name, &wanted) {
                return Some(i);
            }
            i += 1;
        }
        None
    }

    /// The source of the template called `name`: the user's directory of
    /// that name comes first, then the built-in of that name.
    pub fn find_template(&self, name: &str) -> (outcome: Result<TemplateSource, ProconError>)
        ensures
            match outcome {
                Ok(source) => resolved(self.user_templates@, name@) == Ok::<SourceView, ErrorView>(
                    source@,
                ),
                Err(error) => resolved(self.user_templates@, name@) == Err::<SourceView, ErrorView>(
                    error@,
                ),
            },
    {
        match self.find_user(name) {
            Some(at) => Ok(TemplateSource::UserDirectory(self.user_templates[at].path.clone())),
            None => {
                if same_text(name, DEFAULT_TEMPLATE) {
                    Ok(TemplateSource::EmbeddedBuiltin(String::from_str(name)))
                } else {
                    Err(ProconError::TemplateNotFound(String::from_str(name)))
                }
            },
        }
    }

    /// The template called `name`, loaded from the source it resolves to.
    pub fn load(&self, name: &str) -> (outcome: Result<Template, ProconError>)
        ensures
            match outcome {
                Ok(template) => template_files(self.user_templates@, name@) == Ok::<
                    Seq<(Seq<char>, Seq<char>)>,
                    ErrorView,
                >(template.files.pairs()),
                Err(error) => template_files(self.user_templates@, name@) == Err::<
                    Seq<(Seq<char>, Seq<char>)>,
                    ErrorView,
                >(error@),
            },
    {
        match self.find_user(name) {
            Some(at) => Template::load_from_path(&self.user_templates[at].dir),
            None => Template::from_builtin(name),
        }
    }
}

} // verus!
