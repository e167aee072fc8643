use rotten::env::Env;
use rotten::path::{adjoin, collapse_root, join_parts, parse_path, same_path, split_path, ResolveError};

fn env_of(pairs: &[(&str, &str)]) -> Env {
    let mut env = Env::new();
    for (name, value) in pairs {
        env.set(name.to_string(), value.to_string());
    }
    env
}

fn strings(items: &[&str]) -> Vec<String> {
    items.iter().map(|s| s.to_string()).collect()
}

#[test]
fn components_of_an_absolute_path_start_at_the_root() {
    assert_eq!(split_path("/a/b"), strings(&["/", "a", "b"]));
}

#[test]
fn empty_and_dot_pieces_are_dropped() {
    assert_eq!(split_path("a//b/./c/"), strings(&["a", "b", "c"]));
    assert_eq!(split_path("/./a"), strings(&["/", "a"]));
    assert_eq!(split_path("a/."), strings(&["a"]));
}

#[test]
fn a_leading_dot_is_kept() {
    assert_eq!(split_path("./a"), strings(&[".", "a"]));
    assert_eq!(split_path("."), strings(&["."]));
    assert_eq!(split_path(".a"), strings(&[".a"]));
    assert_eq!(split_path(".//a"), strings(&[".", "a"]));
}

#[test]
fn the_empty_path_has_no_components() {
    assert_eq!(split_path(""), Vec::<String>::new());
    assert_eq!(split_path("//"), strings(&["/"]));
}

#[test]
fn parent_components_are_kept() {
    assert_eq!(split_path("../a/.."), strings(&["..", "a", ".."]));
}

#[test]
fn tilde_becomes_the_home_directory() {
    let env = env_of(&[("HOME", "/home/u")]);
    assert_eq!(parse_path("~/.config/nvim", &env), Ok("/home/u/.config/nvim".to_string()));
    assert_eq!(parse_path("~", &env), Ok("/home/u".to_string()));
}

#[test]
fn a_variable_becomes_its_value() {
    let env = env_of(&[("HOME", "/home/u"), ("XDG", "/cfg")]);
    assert_eq!(parse_path("$HOME/.config/nvim", &env), Ok("/home/u/.config/nvim".to_string()));
    assert_eq!(parse_path("$XDG/nvim/$XDG", &env), Ok("/cfg/nvim//cfg".to_string()));
}

#[test]
fn an_absolute_path_stays_as_it_is() {
    let env = Env::new();
    assert_eq!(parse_path("/etc/hosts", &env), Ok("/etc/hosts".to_string()));
    assert_eq!(parse_path("/", &env), Ok("/".to_string()));
    assert_eq!(parse_path("", &env), Ok("".to_string()));
    assert_eq!(parse_path("a/b", &env), Ok("a/b".to_string()));
}

#[test]
fn a_placeholder_below_the_root_leaves_one_separator() {
    let env = env_of(&[("HOME", "/home/u")]);
    assert_eq!(parse_path("/~/x", &env), Ok("/home/u/x".to_string()));
    assert_eq!(parse_path("/$HOME", &env), Ok("/home/u".to_string()));
}

#[test]
fn a_tilde_inside_a_name_is_no_placeholder() {
    let env = env_of(&[("HOME", "/home/u")]);
    assert_eq!(parse_path("a~/~b", &env), Ok("a~/~b".to_string()));
    assert_eq!(parse_path("a$HOME", &env), Ok("a$HOME".to_string()));
}

#[test]
fn an_unset_variable_is_named() {
    let env = env_of(&[("HOME", "/home/u")]);
    assert_eq!(
        parse_path("$FOO/x", &env),
        Err(ResolveError::UnresolvedVariable("FOO".to_string()))
    );
    assert_eq!(
        parse_path("~/$A/$B", &env),
        Err(ResolveError::UnresolvedVariable("A".to_string()))
    );
    assert_eq!(parse_path("$", &env), Err(ResolveError::UnresolvedVariable("".to_string())));
}

#[test]
fn tilde_without_home_fails() {
    let env = Env::new();
    assert_eq!(parse_path("~/x", &env), Err(ResolveError::UnresolvedVariable("HOME".to_string())));
}

#[test]
fn a_later_binding_replaces_an_earlier_one() {
    let env = env_of(&[("A", "1"), ("B", "2"), ("A", "3")]);
    assert_eq!(env.get("A"), Some("3".to_string()));
    assert_eq!(env.get("B"), Some("2".to_string()));
    assert_eq!(env.get("C"), None);
}

#[test]
fn joining_puts_one_separator_between_parts() {
    assert_eq!(join_parts(&strings(&["a", "b", "c"])), "a/b/c");
    assert_eq!(join_parts(&strings(&["/", "a"])), "//a");
    assert_eq!(join_parts(&strings(&["a"])), "a");
    assert_eq!(join_parts(&strings(&[])), "");
}

#[test]
fn collapsing_cuts_leading_separators_down_to_one() {
    assert_eq!(collapse_root("//a"), "/a");
    assert_eq!(collapse_root("////a//b"), "/a//b");
    assert_eq!(collapse_root("/a"), "/a");
    assert_eq!(collapse_root("a//b"), "a//b");
    assert_eq!(collapse_root("//"), "/");
}

#[test]
fn adjoining_a_relative_path_appends_it() {
    assert_eq!(adjoin("/dot", "nvim"), "/dot/nvim");
    assert_eq!(adjoin("/dot/", "nvim"), "/dot/nvim");
    assert_eq!(adjoin("", "nvim"), "nvim");
    assert_eq!(adjoin("/dot", ""), "/dot/");
}

#[test]
fn adjoining_an_absolute_path_replaces_the_root() {
    assert_eq!(adjoin("/dot", "/etc/x"), "/etc/x");
}

#[test]
fn paths_are_compared_by_components() {
    assert!(same_path("/dot/nvim", "/dot//nvim/"));
    assert!(same_path("a/./b", "a/b"));
    assert!(!same_path("./a", "a"));
    assert!(!same_path("/dot/nvim", "/dot/vim"));
    assert!(!same_path("/a", "a"));
}
