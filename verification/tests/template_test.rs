use procon_rs::error::ProconError;
use procon_rs::file_map::FileMap;
use procon_rs::loading::load_directory_recursively;
use procon_rs::plan::{Materializer, Phase, WritePlan, WriteStep};
use procon_rs::source::{FileContent, SourceDir, SourceEntry};
use procon_rs::substitution::SubstitutionMap;
use procon_rs::template::{
    Template, TemplateLoader, TemplateSource, UserTemplate, DEFAULT_CMAKE, DEFAULT_MAIN_CPP,
};
use std::collections::{BTreeMap, BTreeSet};

fn file(name: &str, text: &str) -> SourceEntry {
    SourceEntry::File { name: name.to_string(), content: FileContent::Text(text.to_string()) }
}

fn binary(name: &str) -> SourceEntry {
    SourceEntry::File {
        name: name.to_string(),
        content: FileContent::Unreadable("stream did not contain valid UTF-8".to_string()),
    }
}

fn dir(name: &str, entries: Vec<SourceEntry>) -> SourceEntry {
    SourceEntry::Directory { name: name.to_string(), dir: SourceDir::Listing(entries) }
}

fn keys(template: &Template) -> Vec<String> {
    let mut found = Vec::new();
    let mut at = 0;
    while let Some((path, _)) = template.files.entry(at) {
        found.push(path.clone());
        at += 1;
    }
    found
}

/// A directory tree in memory on which a plan can be carried out.
struct Disk {
    dirs: BTreeSet<String>,
    files: BTreeMap<String, String>,
}

fn under(root: &str, relative: &str) -> String {
    if relative.is_empty() {
        root.to_string()
    } else {
        format!("{}/{}", root, relative)
    }
}

impl Disk {
    fn new() -> Disk {
        Disk { dirs: BTreeSet::new(), files: BTreeMap::new() }
    }

    fn perform(&mut self, root: &str, step: &WriteStep) -> Result<(), String> {
        match step {
            WriteStep::CreateDir(relative) => {
                let path = under(root, relative);
                let mut ends: Vec<usize> = path
                    .char_indices()
                    .filter(|(at, ch)| *ch == '/' && *at > 0)
                    .map(|(at, _)| at)
                    .collect();
                ends.push(path.len());
                for end in ends {
                    let ancestor = path[..end].to_string();
                    if self.files.contains_key(&ancestor) {
                        return Err(format!("{}: not a directory", ancestor));
                    }
                    self.dirs.insert(ancestor);
                }
                Ok(())
            }
            WriteStep::WriteFile(relative, content) => {
                let path = under(root, relative);
                let parent = match path.rfind('/') {
                    Some(cut) => path[..cut].to_string(),
                    None => String::new(),
                };
                if !parent.is_empty() && !self.dirs.contains(&parent) {
                    return Err(format!("{}: no such directory", parent));
                }
                if self.dirs.contains(&path) {
                    return Err(format!("{}: is a directory", path));
                }
                self.files.insert(path, content.clone());
                Ok(())
            }
        }
    }

    fn carry_out(&mut self, plan: &WritePlan) -> Result<(), ProconError> {
        let mut cursor = Materializer::new(plan.clone());
        loop {
            let step = match cursor.next_step() {
                Some(step) => step.clone(),
                None => break,
            };
            let outcome = self.perform(&plan.root, &step);
            cursor.record(outcome);
        }
        cursor.outcome().unwrap()
    }

    fn is_dir(&self, path: &str) -> bool {
        self.dirs.contains(path)
    }

    fn is_present(&self, path: &str) -> bool {
        self.dirs.contains(path) || self.files.contains_key(path)
    }

    fn read_to_string(&self, path: &str) -> Option<String> {
        self.files.get(path).cloned()
    }

    /// The listing of `path` as a caller would hand it to the library.
    fn listing(&self, path: &str) -> SourceDir {
        let mut entries = Vec::new();
        let prefix = format!("{}/", path);
        for dir in &self.dirs {
            if let Some(name) = dir.strip_prefix(&prefix) {
                if !name.contains('/') {
                    entries.push(SourceEntry::Directory {
                        name: name.to_string(),
                        dir: self.listing(dir),
                    });
                }
            }
        }
        for (file, text) in &self.files {
            if let Some(name) = file.strip_prefix(&prefix) {
                if !name.contains('/') {
                    entries.push(SourceEntry::File {
                        name: name.to_string(),
                        content: FileContent::Text(text.clone()),
                    });
                }
            }
        }
        SourceDir::Listing(entries)
    }
}

#[test]
fn test_template_loader_find_builtin_template() {
    let loader = TemplateLoader::new();

    let template_path = loader.find_template("default");

    assert!(template_path.is_ok());
}

#[test]
fn test_template_loader_find_nonexistent_template() {
    let loader = TemplateLoader::new();

    let result = loader.find_template("nonexistent");

    assert!(result.is_err());

    if let Err(e) = result {
        assert!(e.message().contains("Template 'nonexistent' not found"));
    }
}

#[test]
fn test_template_load_from_path() {
    let template_dir = SourceDir::Listing(vec![
        file("main.cpp", "#include <iostream>\nint main() { return 0; }"),
        file("CMakeLists.txt", "cmake_minimum_required(VERSION {{CMAKE_VERSION}})"),
    ]);

    let template = Template::load_from_path(&template_dir).unwrap();

    assert!(template.files.contains_key("main.cpp"));
    assert!(template.files.contains_key("CMakeLists.txt"));
}

#[test]
fn test_template_variable_substitution() {
    let template_dir = SourceDir::Listing(vec![
        file("main.cpp", "// Project: {{PROJECT_NAME}}\nint main() { return 0; }"),
        file("CMakeLists.txt", "project({{PROJECT_NAME}})"),
    ]);
    let template = Template::load_from_path(&template_dir).unwrap();

    let processed = template.apply_variables("test_project");

    assert!(processed.files.get("main.cpp").unwrap().contains("// Project: test_project"));
}

#[test]
fn test_template_required_files() {
    let template_dir = SourceDir::Listing(vec![file("main.cpp", "int main() { return 0; }")]);

    let result = Template::load_from_path(&template_dir);

    assert!(result.is_err());

    if let Err(e) = result {
        assert!(e.message().contains("CMakeLists.txt"));
    }
}

#[test]
fn test_template_copy_to_destination() {
    let template_dir = SourceDir::Listing(vec![
        file("main.cpp", "// {{PROJECT_NAME}}\nint main() { return 0; }"),
        file("CMakeLists.txt", "project({{PROJECT_NAME}})"),
    ]);
    let template = Template::load_from_path(&template_dir).unwrap();
    let processed = template.apply_variables("my_project");

    let mut disk = Disk::new();
    let plan = processed.copy_to("/tmp/work/output", false).unwrap();
    disk.carry_out(&plan).unwrap();

    assert!(disk.is_present("/tmp/work/output/main.cpp"));
    assert!(disk.is_present("/tmp/work/output/CMakeLists.txt"));

    let main_content = disk.read_to_string("/tmp/work/output/main.cpp").unwrap();
    let cmake_content = disk.read_to_string("/tmp/work/output/CMakeLists.txt").unwrap();
    assert!(main_content.contains("// my_project"));
    assert!(cmake_content.contains("project(my_project)"));
}

#[test]
fn test_template_dynamic_file_detection() {
    let template_dir = SourceDir::Listing(vec![
        file("main.cpp", "#include <iostream>\nint main() { return 0; }"),
        file("CMakeLists.txt", "project({{PROJECT_NAME}})"),
        file("README.md", "# {{PROJECT_NAME}}\n\nProject description"),
        file("config.json", r#"{"project": "{{PROJECT_NAME}}"}"#),
        file("Makefile", "all:\n\techo Building {{PROJECT_NAME}}"),
    ]);

    let template = Template::load_from_path(&template_dir).unwrap();

    assert!(template.files.contains_key("main.cpp"));
    assert!(template.files.contains_key("CMakeLists.txt"));
    assert!(template.files.contains_key("README.md"));
    assert!(template.files.contains_key("config.json"));
    assert!(template.files.contains_key("Makefile"));

    assert!(template.files.get("README.md").unwrap().contains("{{PROJECT_NAME}}"));
    assert!(template.files.get("config.json").unwrap().contains("{{PROJECT_NAME}}"));
    assert!(template.files.get("Makefile").unwrap().contains("{{PROJECT_NAME}}"));
}

#[test]
fn test_template_subdirectory_handling() {
    let template_dir = SourceDir::Listing(vec![
        file("main.cpp", "#include \"lib/utils.hpp\"\nint main() { return 0; }"),
        file("CMakeLists.txt", "project({{PROJECT_NAME}})"),
        dir("lib", vec![file("utils.hpp", "// {{PROJECT_NAME}} utilities\n#pragma once")]),
        dir("include", vec![file("header.h", "// Header for {{PROJECT_NAME}}")]),
        dir("tests", vec![file("test_main.cpp", "// Tests for {{PROJECT_NAME}}")]),
    ]);

    let template = Template::load_from_path(&template_dir).unwrap();

    assert!(template.files.contains_key("main.cpp"));
    assert!(template.files.contains_key("CMakeLists.txt"));
    assert!(template.files.contains_key("lib/utils.hpp"));
    assert!(template.files.contains_key("include/header.h"));
    assert!(template.files.contains_key("tests/test_main.cpp"));

    assert!(template.files.get("lib/utils.hpp").unwrap().contains("{{PROJECT_NAME}}"));
    assert!(template.files.get("include/header.h").unwrap().contains("{{PROJECT_NAME}}"));
    assert!(template.files.get("tests/test_main.cpp").unwrap().contains("{{PROJECT_NAME}}"));
}

#[test]
fn test_template_copy_with_subdirectories() {
    let template_dir = SourceDir::Listing(vec![
        file("main.cpp", "int main() { return 0; }"),
        file("CMakeLists.txt", "project({{PROJECT_NAME}})"),
        dir("src", vec![file("helper.cpp", "// Helper for {{PROJECT_NAME}}")]),
    ]);
    let template = Template::load_from_path(&template_dir).unwrap();
    let processed = template.apply_variables("test_project");

    let mut disk = Disk::new();
    let plan = processed.copy_to("/tmp/work/output", false).unwrap();
    disk.carry_out(&plan).unwrap();

    assert!(disk.is_present("/tmp/work/output/main.cpp"));
    assert!(disk.is_present("/tmp/work/output/CMakeLists.txt"));
    assert!(disk.is_dir("/tmp/work/output/src"));
    assert!(disk.is_present("/tmp/work/output/src/helper.cpp"));

    let helper_content = disk.read_to_string("/tmp/work/output/src/helper.cpp").unwrap();
    assert!(helper_content.contains("// Helper for test_project"));
}

#[test]
fn test_load_key_set_is_exact() {
    let template_dir = SourceDir::Listing(vec![
        file("main.cpp", "int main() {}"),
        file("CMakeLists.txt", "project(x)"),
        dir("lib", vec![file("utils.hpp", "#pragma once")]),
    ]);

    let template = Template::load_from_path(&template_dir).unwrap();

    assert_eq!(keys(&template), vec!["main.cpp", "CMakeLists.txt", "lib/utils.hpp"]);
    assert_eq!(template.files.len(), 3);
    assert_eq!(template.files.get("main.cpp").unwrap(), "int main() {}");
    assert_eq!(template.files.get("CMakeLists.txt").unwrap(), "project(x)");
    assert_eq!(template.files.get("lib/utils.hpp").unwrap(), "#pragma once");
    assert_eq!(template.files.get("utils.hpp"), None);
    assert_eq!(template.files.get("lib"), None);
}

#[test]
fn test_load_required_files_come_first_whatever_the_listing_order() {
    let template_dir = SourceDir::Listing(vec![
        file("README.md", "readme"),
        dir("a", vec![dir("b", vec![file("c.txt", "deep")])]),
        file("CMakeLists.txt", "cmake"),
        file("main.cpp", "main"),
    ]);

    let template = Template::load_from_path(&template_dir).unwrap();

    assert_eq!(keys(&template), vec!["main.cpp", "CMakeLists.txt", "README.md", "a/b/c.txt"]);
    assert_eq!(template.files.get("a/b/c.txt").unwrap(), "deep");
}

#[test]
fn test_load_missing_main_cpp_names_it() {
    let template_dir = SourceDir::Listing(vec![file("CMakeLists.txt", "project(x)")]);

    let result = Template::load_from_path(&template_dir);

    assert_eq!(
        result.err(),
        Some(ProconError::TemplateNotFound("main.cpp not found in template".to_string()))
    );
}

#[test]
fn test_load_missing_cmake_lists_names_it() {
    let template_dir = SourceDir::Listing(vec![file("main.cpp", "int main() {}")]);

    let result = Template::load_from_path(&template_dir);

    assert_eq!(
        result.as_ref().err(),
        Some(&ProconError::TemplateNotFound("CMakeLists.txt not found in template".to_string()))
    );
    assert_eq!(
        result.err().unwrap().message(),
        "Template 'CMakeLists.txt not found in template' not found"
    );
}

#[test]
fn test_load_empty_directory_reports_main_cpp_first() {
    let result = Template::load_from_path(&SourceDir::Listing(vec![]));

    assert_eq!(
        result.err(),
        Some(ProconError::TemplateNotFound("main.cpp not found in template".to_string()))
    );
}

#[test]
fn test_load_required_file_in_a_subdirectory_does_not_count() {
    let template_dir = SourceDir::Listing(vec![
        file("main.cpp", "int main() {}"),
        dir("build", vec![file("CMakeLists.txt", "nested")]),
    ]);

    let result = Template::load_from_path(&template_dir);

    assert_eq!(
        result.err(),
        Some(ProconError::TemplateNotFound("CMakeLists.txt not found in template".to_string()))
    );
}

#[test]
fn test_load_keeps_required_names_below_the_root() {
    let template_dir = SourceDir::Listing(vec![
        file("main.cpp", "root main"),
        file("CMakeLists.txt", "root cmake"),
        dir("sub", vec![file("main.cpp", "nested main"), file("CMakeLists.txt", "nested cmake")]),
    ]);

    let template = Template::load_from_path(&template_dir).unwrap();

    assert_eq!(
        keys(&template),
        vec!["main.cpp", "CMakeLists.txt", "sub/main.cpp", "sub/CMakeLists.txt"]
    );
    assert_eq!(template.files.get("main.cpp").unwrap(), "root main");
    assert_eq!(template.files.get("sub/main.cpp").unwrap(), "nested main");
}

#[test]
fn test_load_skips_files_without_text_and_reports_them() {
    let template_dir = SourceDir::Listing(vec![
        file("main.cpp", "int main() {}"),
        file("CMakeLists.txt", "project(x)"),
        binary("logo.png"),
        dir("assets", vec![binary("font.ttf"), file("notes.txt", "notes")]),
    ]);

    let loaded = Template::load_with_report(&template_dir).unwrap();

    assert_eq!(keys(&loaded.template), vec!["main.cpp", "CMakeLists.txt", "assets/notes.txt"]);
    assert_eq!(loaded.skipped, vec!["logo.png", "assets/font.ttf"]);

    let template = Template::load_from_path(&template_dir).unwrap();
    assert!(!template.files.contains_key("logo.png"));
    assert!(!template.files.contains_key("assets/font.ttf"));
}

#[test]
fn test_load_unreadable_required_file_is_an_io_error() {
    let template_dir = SourceDir::Listing(vec![
        SourceEntry::File {
            name: "main.cpp".to_string(),
            content: FileContent::Unreadable("permission denied".to_string()),
        },
        file("CMakeLists.txt", "project(x)"),
    ]);

    let result = Template::load_from_path(&template_dir);

    assert_eq!(result.err(), Some(ProconError::Io("permission denied".to_string())));
}

#[test]
fn test_load_required_name_taken_by_a_directory_is_an_io_error() {
    let template_dir = SourceDir::Listing(vec![
        file("main.cpp", "int main() {}"),
        dir("CMakeLists.txt", vec![]),
    ]);

    let result = Template::load_from_path(&template_dir);

    assert_eq!(
        result.err(),
        Some(ProconError::Io("CMakeLists.txt is not a regular file".to_string()))
    );
}

#[test]
fn test_load_unreadable_directory_is_an_io_error() {
    let unreadable_root = SourceDir::Unreadable("permission denied (os error 13)".to_string());
    assert_eq!(
        Template::load_from_path(&unreadable_root).err(),
        Some(ProconError::Io("permission denied (os error 13)".to_string()))
    );

    let unreadable_below = SourceDir::Listing(vec![
        file("main.cpp", "int main() {}"),
        file("CMakeLists.txt", "project(x)"),
        SourceEntry::Directory {
            name: "secret".to_string(),
            dir: SourceDir::Unreadable("secret: permission denied".to_string()),
        },
        file("after.txt", "never reached"),
    ]);
    assert_eq!(
        Template::load_from_path(&unreadable_below).err(),
        Some(ProconError::Io("secret: permission denied".to_string()))
    );
}

#[test]
fn test_load_broken_listing_is_an_io_error() {
    let template_dir = SourceDir::Listing(vec![
        file("main.cpp", "int main() {}"),
        file("CMakeLists.txt", "project(x)"),
        dir("lib", vec![file("a.hpp", "a"), SourceEntry::Broken { reason: "stale handle".to_string() }]),
        SourceEntry::Broken { reason: "later failure".to_string() },
    ]);

    let result = Template::load_from_path(&template_dir);

    assert_eq!(result.err(), Some(ProconError::Io("stale handle".to_string())));
}

#[test]
fn test_load_missing_required_file_comes_before_walk_errors() {
    let template_dir = SourceDir::Listing(vec![
        SourceEntry::Broken { reason: "listing failed".to_string() },
        file("main.cpp", "int main() {}"),
    ]);

    let result = Template::load_from_path(&template_dir);

    assert_eq!(
        result.err(),
        Some(ProconError::TemplateNotFound("CMakeLists.txt not found in template".to_string()))
    );
}

#[test]
fn test_load_ignores_what_is_neither_file_nor_directory() {
    let template_dir = SourceDir::Listing(vec![
        file("main.cpp", "int main() {}"),
        file("CMakeLists.txt", "project(x)"),
        SourceEntry::Other { name: "socket".to_string() },
    ]);

    let loaded = Template::load_with_report(&template_dir).unwrap();

    assert_eq!(keys(&loaded.template), vec!["main.cpp", "CMakeLists.txt"]);
    assert!(loaded.skipped.is_empty());
}

#[test]
fn test_load_same_key_twice_keeps_the_later_text_in_the_first_place() {
    let template_dir = SourceDir::Listing(vec![
        file("main.cpp", "int main() {}"),
        file("CMakeLists.txt", "project(x)"),
        file("notes.txt", "first"),
        file("other.txt", "other"),
        file("notes.txt", "second"),
    ]);

    let template = Template::load_from_path(&template_dir).unwrap();

    assert_eq!(keys(&template), vec!["main.cpp", "CMakeLists.txt", "notes.txt", "other.txt"]);
    assert_eq!(template.files.get("notes.txt").unwrap(), "second");
}

#[test]
fn test_from_embedded_content_holds_the_two_files() {
    let main_cpp = "#include <iostream>\nint main() { return 0; }";
    let cmake = "project({{PROJECT_NAME}})";

    let template = Template::from_embedded_content("default", main_cpp, cmake);

    assert_eq!(keys(&template), vec!["main.cpp", "CMakeLists.txt"]);
    assert_eq!(template.files.get("main.cpp").unwrap(), main_cpp);
    assert_eq!(template.files.get("CMakeLists.txt").unwrap(), cmake);
}

#[test]
fn test_from_builtin_default() {
    let template = Template::from_builtin("default").unwrap();

    assert_eq!(keys(&template), vec!["main.cpp", "CMakeLists.txt"]);
    assert_eq!(template.files.get("main.cpp").unwrap(), DEFAULT_MAIN_CPP);
    assert_eq!(template.files.get("CMakeLists.txt").unwrap(), DEFAULT_CMAKE);
    assert!(DEFAULT_MAIN_CPP.contains("{{PROJECT_NAME}}"));
    assert!(DEFAULT_CMAKE.contains("project({{PROJECT_NAME}})"));
    assert!(DEFAULT_CMAKE.contains("add_executable({{PROJECT_NAME}}"));
    assert!(DEFAULT_CMAKE.contains("VERSION {{CMAKE_VERSION}}"));
    assert!(DEFAULT_CMAKE.contains("{{CPP_STANDARD}}"));
}

#[test]
fn test_from_builtin_unknown_name() {
    assert_eq!(
        Template::from_builtin("advanced").err(),
        Some(ProconError::TemplateNotFound("advanced".to_string()))
    );
    assert_eq!(
        Template::from_builtin("").err(),
        Some(ProconError::TemplateNotFound(String::new()))
    );
    assert_eq!(
        Template::from_builtin("Default").err(),
        Some(ProconError::TemplateNotFound("Default".to_string()))
    );
}

#[test]
fn test_find_template_prefers_the_user_directory() {
    let mut loader = TemplateLoader::new();
    loader.register(UserTemplate {
        name: "default".to_string(),
        path: "/home/alice/.config/procon_rs/templates/default".to_string(),
        dir: SourceDir::Listing(vec![]),
    });

    assert_eq!(
        loader.find_template("default"),
        Ok(TemplateSource::UserDirectory(
            "/home/alice/.config/procon_rs/templates/default".to_string()
        ))
    );
    assert_eq!(
        TemplateLoader::new().find_template("default"),
        Ok(TemplateSource::EmbeddedBuiltin("default".to_string()))
    );
    assert_eq!(
        loader.find_template("other"),
        Err(ProconError::TemplateNotFound("other".to_string()))
    );
}

#[test]
fn test_invalid_user_template_does_not_fall_back_to_the_builtin() {
    let mut loader = TemplateLoader::new();
    loader.register(UserTemplate {
        name: "default".to_string(),
        path: "/home/alice/.config/procon_rs/templates/default".to_string(),
        dir: SourceDir::Listing(vec![file("main.cpp", "int main() {}")]),
    });

    let result = loader.load("default");

    assert_eq!(
        result.err(),
        Some(ProconError::TemplateNotFound("CMakeLists.txt not found in template".to_string()))
    );
    assert!(TemplateLoader::new().load("default").is_ok());
}

#[test]
fn test_first_registered_user_template_wins() {
    let mut loader = TemplateLoader::new();
    loader.register(UserTemplate {
        name: "mine".to_string(),
        path: "/first/mine".to_string(),
        dir: SourceDir::Listing(vec![file("main.cpp", "first"), file("CMakeLists.txt", "c")]),
    });
    loader.register(UserTemplate {
        name: "mine".to_string(),
        path: "/second/mine".to_string(),
        dir: SourceDir::Listing(vec![file("main.cpp", "second"), file("CMakeLists.txt", "c")]),
    });

    assert_eq!(
        loader.find_template("mine"),
        Ok(TemplateSource::UserDirectory("/first/mine".to_string()))
    );
    assert_eq!(loader.load("mine").unwrap().files.get("main.cpp").unwrap(), "first");
}

#[test]
fn test_user_template_path_in() {
    assert_eq!(
        TemplateLoader::user_template_path_in("/home/alice/.config", "fast_io"),
        "/home/alice/.config/procon_rs/templates/fast_io"
    );
    assert_eq!(
        TemplateLoader::user_template_path_in("/home/alice/.config/", "/elsewhere"),
        "/elsewhere"
    );
}

#[test]
fn test_user_template_path_lies_under_the_templates_root() {
    if let Some(path) = TemplateLoader::user_template_path("fast_io") {
        assert!(path.ends_with("procon_rs/templates/fast_io"));
    }
}

#[test]
fn test_apply_variables_leaves_other_tokens() {
    let template = Template::from_builtin("default").unwrap();

    let processed = template.apply_variables("demo");

    let cmake = processed.files.get("CMakeLists.txt").unwrap();
    assert_eq!(
        cmake,
        "cmake_minimum_required(VERSION {{CMAKE_VERSION}})\nproject(demo)\n\nset(CMAKE_CXX_STANDARD {{CPP_STANDARD}})\nset(CMAKE_CXX_STANDARD_REQUIRED ON)\n\nadd_executable(demo main.cpp)\n"
    );
    assert_eq!(keys(&processed), vec!["main.cpp", "CMakeLists.txt"]);
}

#[test]
fn test_apply_twice_is_the_same_as_once() {
    let template = Template::from_builtin("default").unwrap();
    let map = SubstitutionMap::for_project_name("demo");

    let once = template.apply(&map);
    let twice = once.apply(&map);

    assert_eq!(keys(&twice), keys(&once));
    assert_eq!(twice.files.get("main.cpp"), once.files.get("main.cpp"));
    assert_eq!(twice.files.get("CMakeLists.txt"), once.files.get("CMakeLists.txt"));
}

#[test]
fn test_apply_twice_differs_where_a_value_completes_a_token() {
    let template = Template::from_embedded_content("t", "{{{{PROJECT_NAME}}_NAME}}", "");
    let map = SubstitutionMap::for_project_name("PROJECT");

    let once = template.apply(&map);
    let twice = once.apply(&map);

    assert_eq!(once.files.get("main.cpp").unwrap(), "{{PROJECT_NAME}}");
    assert_eq!(twice.files.get("main.cpp").unwrap(), "PROJECT");
}

#[test]
fn test_copy_to_gives_the_steps_in_order() {
    let template_dir = SourceDir::Listing(vec![
        file("main.cpp", "m"),
        file("CMakeLists.txt", "c"),
        dir("src", vec![dir("helpers", vec![file("math.cpp", "x")])]),
    ]);
    let template = Template::load_from_path(&template_dir).unwrap();

    let plan = template.copy_to("my_project", false).unwrap();

    assert_eq!(plan.root, "my_project");
    assert_eq!(
        plan.steps,
        vec![
            WriteStep::CreateDir(String::new()),
            WriteStep::CreateDir(String::new()),
            WriteStep::WriteFile("main.cpp".to_string(), "m".to_string()),
            WriteStep::CreateDir(String::new()),
            WriteStep::WriteFile("CMakeLists.txt".to_string(), "c".to_string()),
            WriteStep::CreateDir("src/helpers".to_string()),
            WriteStep::WriteFile("src/helpers/math.cpp".to_string(), "x".to_string()),
        ]
    );
}

#[test]
fn test_copy_then_load_gives_the_same_files() {
    let template_dir = SourceDir::Listing(vec![
        file("main.cpp", "int main() {}"),
        file("CMakeLists.txt", "project(x)"),
        file(".gitignore", "build/\n"),
        dir("lib", vec![file("utils.hpp", "#pragma once"), dir("detail", vec![file("x.hpp", "x")])]),
    ]);
    let template = Template::load_from_path(&template_dir).unwrap();

    let mut disk = Disk::new();
    disk.carry_out(&template.copy_to("/work/out", false).unwrap()).unwrap();
    let read_back = Template::load_from_path(&disk.listing("/work/out")).unwrap();

    assert_eq!(read_back.files.len(), template.files.len());
    for key in keys(&template) {
        assert_eq!(read_back.files.get(&key), template.files.get(&key));
    }
    assert_eq!(disk.files.len(), 5);
}

#[test]
fn test_materializer_stops_at_the_first_failure() {
    let template = Template::from_embedded_content("t", "m", "c");
    let plan = template.copy_to("/work/out", false).unwrap();
    let mut cursor = Materializer::new(plan);

    assert_eq!(cursor.phase(), Phase::DestinationChecked);
    assert_eq!(cursor.outcome(), None);
    assert_eq!(cursor.next_step(), Some(&WriteStep::CreateDir(String::new())));
    cursor.record(Ok(()));
    assert_eq!(cursor.phase(), Phase::DirectoryCreated);
    assert_eq!(cursor.next_step(), Some(&WriteStep::CreateDir(String::new())));
    cursor.record(Ok(()));
    assert_eq!(
        cursor.next_step(),
        Some(&WriteStep::WriteFile("main.cpp".to_string(), "m".to_string()))
    );
    cursor.record(Ok(()));
    assert_eq!(cursor.phase(), Phase::FileWritten);
    cursor.record(Ok(()));
    assert_eq!(
        cursor.next_step(),
        Some(&WriteStep::WriteFile("CMakeLists.txt".to_string(), "c".to_string()))
    );
    cursor.record(Err("disk full".to_string()));

    assert_eq!(cursor.phase(), Phase::Failed);
    assert_eq!(cursor.next_step(), None);
    assert_eq!(cursor.outcome(), Some(Err(ProconError::Io("disk full".to_string()))));
    cursor.record(Ok(()));
    assert_eq!(cursor.phase(), Phase::Failed);
    assert_eq!(cursor.outcome(), Some(Err(ProconError::Io("disk full".to_string()))));
}

#[test]
fn test_materializer_runs_to_the_end() {
    let template = Template::from_embedded_content("t", "m", "c");
    let mut cursor = Materializer::new(template.copy_to("out", false).unwrap());
    let mut carried_out = 0;

    while cursor.next_step().is_some() {
        cursor.record(Ok(()));
        carried_out += 1;
    }

    assert_eq!(carried_out, 5);
    assert_eq!(cursor.root_dir(), "out");
    assert_eq!(cursor.phase(), Phase::Done);
    assert_eq!(cursor.outcome(), Some(Ok(())));
    cursor.record(Err("late".to_string()));
    assert_eq!(cursor.outcome(), Some(Ok(())));
}

#[test]
fn test_failed_write_leaves_earlier_files_in_place() {
    let template_dir = SourceDir::Listing(vec![
        file("main.cpp", "m"),
        file("CMakeLists.txt", "c"),
        dir("main.cpp", vec![file("inner.txt", "i")]),
    ]);
    let template = Template::load_from_path(&template_dir).unwrap();

    let mut disk = Disk::new();
    let result = disk.carry_out(&template.copy_to("/work/out", false).unwrap());

    assert!(matches!(result, Err(ProconError::Io(_))));
    assert_eq!(disk.read_to_string("/work/out/main.cpp"), Some("m".to_string()));
    assert_eq!(disk.read_to_string("/work/out/CMakeLists.txt"), Some("c".to_string()));
    assert!(!disk.is_present("/work/out/main.cpp/inner.txt"));
}

#[test]
fn test_copy_to_an_existing_destination_plans_nothing() {
    let template = Template::from_embedded_content("t", "m", "c");

    let result = template.copy_to("/work/out", true);

    assert_eq!(result, Err(ProconError::ProjectExists("/work/out".to_string())));
    assert_eq!(
        result.err().unwrap().message(),
        "Project '/work/out' already exists"
    );
}

#[test]
fn test_failed_walk_keeps_what_was_gathered() {
    let mut files = FileMap::new();
    files.insert("kept.txt".to_string(), "before".to_string());
    let mut skipped = vec!["old.bin".to_string()];
    let entries = vec![
        file("a.txt", "a"),
        binary("b.bin"),
        dir("sub", vec![file("c.txt", "c"), SourceEntry::Broken { reason: "gone".to_string() }]),
        file("never.txt", "never"),
    ];

    let result = load_directory_recursively(&entries, "top", &mut files, &mut skipped);

    assert_eq!(result, Err(ProconError::Io("gone".to_string())));
    assert_eq!(files.len(), 3);
    assert_eq!(files.get("kept.txt"), Some(&"before".to_string()));
    assert_eq!(files.get("top/a.txt"), Some(&"a".to_string()));
    assert_eq!(files.get("top/sub/c.txt"), Some(&"c".to_string()));
    assert_eq!(files.get("top/never.txt"), None);
    assert_eq!(skipped, vec!["old.bin", "top/b.bin"]);
}

#[test]
fn test_failed_walk_at_the_first_entry_changes_nothing() {
    let mut files = FileMap::new();
    files.insert("kept.txt".to_string(), "before".to_string());
    let mut skipped = Vec::new();
    let entries = vec![
        SourceEntry::Directory {
            name: "locked".to_string(),
            dir: SourceDir::Unreadable("permission denied".to_string()),
        },
        file("a.txt", "a"),
    ];

    let result = load_directory_recursively(&entries, "", &mut files, &mut skipped);

    assert_eq!(result, Err(ProconError::Io("permission denied".to_string())));
    assert_eq!(files.len(), 1);
    assert_eq!(files.get("kept.txt"), Some(&"before".to_string()));
    assert!(skipped.is_empty());
}

#[test]
fn test_load_keys_do_not_depend_on_the_listing_order() {
    let one = SourceDir::Listing(vec![
        file("main.cpp", "m"),
        file("CMakeLists.txt", "c"),
        file("a.txt", "a"),
        dir("lib", vec![file("x.hpp", "x"), file("y.hpp", "y")]),
    ]);
    let other = SourceDir::Listing(vec![
        dir("lib", vec![file("y.hpp", "y"), file("x.hpp", "x")]),
        file("a.txt", "a"),
        file("CMakeLists.txt", "c"),
        file("main.cpp", "m"),
    ]);

    let first = Template::load_from_path(&one).unwrap();
    let second = Template::load_from_path(&other).unwrap();

    let mut first_keys = keys(&first);
    let mut second_keys = keys(&second);
    first_keys.sort();
    second_keys.sort();
    assert_eq!(first_keys, second_keys);
    assert_eq!(first_keys, vec!["CMakeLists.txt", "a.txt", "lib/x.hpp", "lib/y.hpp", "main.cpp"]);
    for key in first_keys {
        assert_eq!(first.files.get(&key), second.files.get(&key));
    }
}

#[test]
fn test_load_with_an_improper_name_gives_a_key_outside_the_root() {
    let template_dir = SourceDir::Listing(vec![
        file("main.cpp", "m"),
        file("CMakeLists.txt", "c"),
        dir("..", vec![file("escape.txt", "e")]),
    ]);

    let template = Template::load_from_path(&template_dir).unwrap();

    assert!(template.files.contains_key("../escape.txt"));
}
