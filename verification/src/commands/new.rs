//! Creating a new project from a template.

use vstd::prelude::*;
use vstd::string::*;
use crate::config::Config;
use crate::error::{ErrorView, ProconError};
use crate::paths::{join, joined};
use crate::plan::{step_views, steps_of, StepView, WritePlan};
use crate::substitution::{project_pairs, SubstitutionMap};
use crate::template::{applied, template_files, Template, TemplateLoader, UserTemplate};

verus! {

/// What the user asked for: the project's name, the template's name, and the
/// directory in which the project is to be created.
#[derive(Debug, Clone)]
pub struct NewCommandArgs {
    pub name: String,
    pub template: String,
    pub path: Option<String>,
}

/// What the caller found before the command runs.
#[derive(Debug)]
pub struct Workspace {
    /// The current directory, or why it could not be determined.
    pub current_dir: Result<String, String>,
    /// Whether anything stands at the project path already.
    pub destination_exists: bool,
    /// The templates that can be used.
    pub templates: TemplateLoader,
}

/// The directory in which the project is created: the one asked for, else
/// the current one.
pub open spec fn base_dir(path: Option<String>, current_dir: Result<String, String>) -> Result<
    Seq<char>,
    ErrorView,
> {
    match path {
        Some(base) => Ok(base@),
        None => match current_dir {
            Ok(dir) => Ok(dir@),
            Err(reason) => Err(ErrorView::Io(reason@)),
        },
    }
}

/// The value of a [`WritePlan`]: its root and its steps.
pub struct PlanView {
    pub root: Seq<char>,
    pub steps: Seq<StepView>,
}

/// What creating a project gives: the plan that writes the substituted
/// template below the project path, or the first thing that stands in the
/// way. That the base directory is unknown comes first, then that the
/// destination exists, then what went wrong with the template.
pub open spec fn created(
    name: Seq<char>,
    template: Seq<char>,
    path: Option<String>,
    cmake_version: Seq<char>,
    cpp_standard: Seq<char>,
    current_dir: Result<String, String>,
    destination_exists: bool,
    users: Seq<UserTemplate>,
) -> Result<PlanView, ErrorView> {
    match base_dir(path, current_dir) {
        Err(error) => Err(error),
        Ok(base) => if destination_exists {
            Err(ErrorView::ProjectExists(name))
        } else {
            match template_files(users, template) {
                Err(error) => Err(error),
                Ok(files) => Ok(
                    PlanView {
                        root: joined(base, name),
                        steps: steps_of(
                            applied(files, project_pairs(name, cmake_version, cpp_standard)),
                        ),
                    },
                ),
            }
        },
    }
}

/// A destination that exists is refused, whatever the template: with a
/// known base directory the result is `ProjectExists` with the project's
/// name, so creating the same project a second time fails.
pub proof fn lemma_existing_destination_refused(
    name: Seq<char>,
    template: Seq<char>,
    path: Option<String>,
    cmake_version: Seq<char>,
    cpp_standard: Seq<char>,
    current_dir: Result<String, String>,
    users: Seq<UserTemplate>,
)
    requires
        base_dir(path, current_dir) is Ok,
    ensures
        created(name, template, path, cmake_version, cpp_standard, current_dir, true, users)
            == Err::<PlanView, ErrorView>(ErrorView::ProjectExists(name)),
{
}

/// The command that creates a new project.
#[derive(Debug)]
pub struct NewCommand;

impl NewCommand {
    /// The path of the project: its name under the directory asked for, or
    /// under the current directory where none was asked for.
    pub fn project_path(args: &NewCommandArgs, current_dir: &Result<String, String>) -> (outcome:
        Result<String, ProconError>)
        ensures
            match base_dir(args.path, *current_dir) {
                Ok(base) => outcome matches Ok(path) && path@ == joined(base, args.name@),
                Err(error) => outcome matches Err(found) && found@ == error,
            },
    {
        match &args.path {
            Some(base) => Ok(join(base.as_str(), args.name.as_str())),
            None => match current_dir {
                Ok(dir) => Ok(join(dir.as_str(), args.name.as_str())),
                Err(reason) => Err(ProconError::Io(reason.clone())),
            },
        }
    }

    /// The template called `template_name`: the user's where there is one
    /// of that name, else the built-in one.
    pub fn load_template(template_name: &str, loader: &TemplateLoader) -> (outcome: Result<
        Template,
        ProconError,
    >)
        ensures
            match outcome {
                Ok(template) => template_files(loader.user_templates@, template_name@) == Ok::<
                    Seq<(Seq<char>, Seq<char>)>,
                    ErrorView,
                >(template.files.pairs()),
                Err(error) => template_files(loader.user_templates@, template_name@) == Err::<
                    Seq<(Seq<char>, Seq<char>)>,
                    ErrorView,
                >(error@),
            },
    {
        loader.load(template_name)
    }

    /// The template with the project's name and the build settings of
    /// `config` in the place of their tokens.
    pub fn process_template_variables(template: Template, project_name: &str, config: &Config) -> (out:
        Template)
        ensures
            out.files.pairs() == applied(
                template.files.pairs(),
                project_pairs(
                    project_name@,
                    config.project.cmake_minimum_version@,
                    config.project.cpp_standard@,
                ),
            ),
            out@.dom() == template@.dom(),
    {
        let map = SubstitutionMap::for_project(project_name, config);
        template.apply(&map)
    }

    /// Plans the new project with the build settings of `config`.
    ///
    /// Nothing is planned where the destination exists already.
    pub fn create_project(args: NewCommandArgs, config: &Config, workspace: &Workspace) -> (outcome:
        Result<WritePlan, ProconError>)
        ensures
            match created(
                args.name@,
                args.template@,
                args.path,
                config.project.cmake_minimum_version@,
                config.project.cpp_standard@,
                workspace.current_dir,
                workspace.destination_exists,
                workspace.templates.user_templates@,
            ) {
                Ok(plan) => outcome matches Ok(found) && found.root@ == plan.root && step_views(
                    found.steps@,
                ) == plan.steps,
                Err(error) => outcome matches Err(found) && found@ == error,
            },
    {
        let project_path = match NewCommand::project_path(&args, &workspace.current_dir) {
            Ok(path) => path,
            Err(error) => {
                return Err(error);
            },
        };
        if workspace.destination_exists {
            return Err(ProconError::ProjectExists(args.name));
        }
        let template = match NewCommand::load_template(
            args.template.as_str(),
            &workspace.templates,
        ) {
            Ok(template) => template,
            Err(error) => {
                return Err(error);
            },
        };
        let processed = NewCommand::process_template_variables(
            template,
            args.name.as_str(),
            config,
        );
        processed.copy_to(project_path.as_str(), workspace.destination_exists)
    }

    /// Plans the new project with the effective configuration.
    pub fn execute(args: NewCommandArgs, workspace: &Workspace) -> (outcome: Result<
        WritePlan,
        ProconError,
    >)
        ensures
            match created(
                args.name@,
                args.template@,
                args.path,
                "3.16"@,
                "17"@,
                workspace.current_dir,
                workspace.destination_exists,
                workspace.templates.user_templates@,
            ) {
                Ok(plan) => outcome matches Ok(found) && found.root@ == plan.root && step_views(
                    found.steps@,
                ) == plan.steps,
                Err(error) => outcome matches Err(found) && found@ == error,
            },
    {
        let config = match Config::load() {
            Ok(config) => config,
            Err(_) => Config::default(),
        };
        NewCommand::create_project(args, &config, workspace)
    }
}

} // verus!
