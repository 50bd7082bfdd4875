use procon_rs::config::Config;
use procon_rs::substitution::{
    SubstitutionMap, CMAKE_VERSION_TOKEN, CPP_STANDARD_TOKEN, PROJECT_NAME_TOKEN,
};
use procon_rs::text::{matches_at, same_text, substitute, to_chars};

fn replace_all(text: &str, token: &str, value: &str) -> String {
    substitute(text, &vec![(token.to_string(), value.to_string())])
}

fn pairs(list: &[(&str, &str)]) -> Vec<(String, String)> {
    list.iter().map(|(token, value)| (token.to_string(), value.to_string())).collect()
}

#[test]
fn test_replace_all_replaces_every_occurrence() {
    assert_eq!(replace_all("x{{A}}y{{A}}", "{{A}}", "bc"), "xbcybc");
    assert_eq!(replace_all("{{A}}", "{{A}}", ""), "");
    assert_eq!(replace_all("{{A}}{{A}}{{A}}", "{{A}}", "-"), "---");
    assert_eq!(replace_all("no tokens here", "{{A}}", "x"), "no tokens here");
    assert_eq!(replace_all("", "{{A}}", "x"), "");
}

#[test]
fn test_replace_all_takes_matches_from_the_left_without_overlap() {
    assert_eq!(replace_all("aaa", "aa", "b"), "ba");
    assert_eq!(replace_all("aaaa", "aa", "b"), "bb");
    assert_eq!(replace_all("abababa", "aba", "X"), "XbX");
}

#[test]
fn test_replace_all_does_not_scan_what_it_put_in() {
    assert_eq!(replace_all("ab", "a", "aa"), "aab");
    assert_eq!(replace_all("{{A}}", "{{A}}", "{{A}}{{A}}"), "{{A}}{{A}}");
}

#[test]
fn test_replace_all_is_the_same_as_str_replace() {
    let texts = ["", "a", "{{X}}", "a{{X}}b{{X}}", "{{{X}}}", "{{X}{{X}}", "ééé{{X}}日本", "xx"];
    let tokens = ["{{X}}", "x", "é", "{{", "日本"];
    let values = ["", "v", "{{X}}", "ü"];
    for text in texts {
        for token in tokens {
            for value in values {
                assert_eq!(replace_all(text, token, value), text.replace(token, value));
            }
        }
    }
}

#[test]
fn test_replace_all_with_an_empty_token_changes_nothing() {
    assert_eq!(replace_all("abc", "", "-"), "abc");
    assert_eq!(replace_all("", "", "-"), "");
}

#[test]
fn test_replace_all_token_longer_than_text() {
    assert_eq!(replace_all("{{A", "{{A}}", "x"), "{{A");
}

#[test]
fn test_to_chars_and_matches_at() {
    let text = to_chars("aé{{A}}");
    let token = to_chars("{{A}}");

    assert_eq!(text, vec!['a', 'é', '{', '{', 'A', '}', '}']);
    assert!(matches_at(&text, &token, 2));
    assert!(!matches_at(&text, &token, 1));
    assert!(!matches_at(&text, &token, 3));
    assert!(!matches_at(&text, &token, 7));
    assert!(!matches_at(&text, &token, usize::MAX));
    assert!(matches_at(&text, &to_chars(""), 7));
    assert!(!matches_at(&text, &to_chars(""), 8));
}

#[test]
fn test_same_text() {
    assert!(same_text("main.cpp", "main.cpp"));
    assert!(!same_text("main.cpp", "Main.cpp"));
    assert!(!same_text("main.cpp", "main.cpp "));
    assert!(same_text("", ""));
}

#[test]
fn test_tokens() {
    assert_eq!(PROJECT_NAME_TOKEN, "{{PROJECT_NAME}}");
    assert_eq!(CMAKE_VERSION_TOKEN, "{{CMAKE_VERSION}}");
    assert_eq!(CPP_STANDARD_TOKEN, "{{CPP_STANDARD}}");
}

#[test]
fn test_substitution_for_project_name_leaves_other_tokens() {
    let map = SubstitutionMap::for_project_name("demo");

    assert_eq!(
        map.apply_to("{{PROJECT_NAME}} {{CMAKE_VERSION}} {{CPP_STANDARD}} {{OTHER}}"),
        "demo {{CMAKE_VERSION}} {{CPP_STANDARD}} {{OTHER}}"
    );
}

#[test]
fn test_substitution_for_project() {
    let mut config = Config::default_in(None);
    config.set("project.cpp_standard", "20").unwrap();
    config.set("project.cmake_minimum_version", "3.20").unwrap();
    let map = SubstitutionMap::for_project("demo", &config);

    assert_eq!(
        map.apply_to("{{PROJECT_NAME}}/{{CMAKE_VERSION}}/{{CPP_STANDARD}}/{{PROJECT_NAME}}"),
        "demo/3.20/20/demo"
    );
    assert_eq!(map.apply_to("{{project_name}} {PROJECT_NAME}"), "{{project_name}} {PROJECT_NAME}");
}

#[test]
fn test_substitution_does_not_look_at_what_it_put_in() {
    let mut config = Config::default_in(None);
    config.set("project.cmake_minimum_version", "<{{CPP_STANDARD}}>").unwrap();
    config.set("project.cpp_standard", "23").unwrap();
    let map = SubstitutionMap::for_project("{{CMAKE_VERSION}}", &config);

    assert_eq!(map.apply_to("{{PROJECT_NAME}}"), "{{CMAKE_VERSION}}");
    assert_eq!(map.apply_to("{{CMAKE_VERSION}}"), "<{{CPP_STANDARD}}>");
    assert_eq!(map.apply_to("{{CPP_STANDARD}}"), "23");
    assert_eq!(
        map.apply_to("{{CPP_STANDARD}}{{PROJECT_NAME}}{{CMAKE_VERSION}}"),
        "23{{CMAKE_VERSION}}<{{CPP_STANDARD}}>"
    );
}

#[test]
fn test_substitution_of_a_name_that_is_a_token() {
    let mut config = Config::default_in(None);
    config.set("project.cpp_standard", "20").unwrap();
    config.set("project.cmake_minimum_version", "3.20").unwrap();
    let map = SubstitutionMap::for_project("{{CPP_STANDARD}}", &config);

    assert_eq!(map.apply_to("{{PROJECT_NAME}}"), "{{CPP_STANDARD}}");
}

#[test]
fn test_substitute_takes_the_first_pair_where_two_tokens_stand() {
    let both = pairs(&[("{{A}}", "short"), ("{{A}}B", "long")]);
    let other = pairs(&[("{{A}}B", "long"), ("{{A}}", "short")]);

    assert_eq!(substitute("{{A}}B", &both), "shortB");
    assert_eq!(substitute("{{A}}B {{A}}", &other), "long short");
}

#[test]
fn test_substitute_with_several_pairs() {
    let map = pairs(&[("{{A}}", "{{B}}"), ("{{B}}", "{{A}}"), ("", "never"), ("x", "")]);

    assert_eq!(substitute("{{A}}x{{B}}x{{C}}", &map), "{{B}}{{A}}{{C}}");
    assert_eq!(substitute("", &map), "");
    assert_eq!(substitute("{{A}", &map), "{{A}");
    assert_eq!(substitute("abc", &Vec::new()), "abc");
}

#[test]
fn test_substitution_twice_is_once_where_no_token_is_left() {
    let config = Config::default_in(None);
    let map = SubstitutionMap::for_project("demo", &config);
    let text = "project({{PROJECT_NAME}}) std={{CPP_STANDARD}} cmake={{CMAKE_VERSION}}";

    let once = map.apply_to(text);
    let twice = map.apply_to(&once);

    assert_eq!(once, "project(demo) std=17 cmake=3.16");
    assert_eq!(twice, once);
}

