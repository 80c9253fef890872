use gossh::home::{expansion, is_valid_home, tilde_rest, Expansion};

fn components(parts: &[&str]) -> Vec<Option<String>> {
    parts.iter().map(|p| Some(p.to_string())).collect()
}

#[test]
fn home_of_the_user_is_valid() {
    assert!(is_valid_home("alice", &components(&["/", "home", "alice"])));
    assert!(is_valid_home("alice", &components(&["/", "Users", "alice", "deep"])));
}

#[test]
fn home_of_another_or_elsewhere_is_not() {
    assert!(!is_valid_home("alice", &components(&["/", "home", "bob"])));
    assert!(!is_valid_home("alice", &components(&["/", "home", "alice2"])));
    assert!(!is_valid_home("alice", &components(&["/", "home", "Alice"])));
    assert!(!is_valid_home("root", &components(&["/", "root"])));
    assert!(!is_valid_home("alice", &components(&["/", "alice"])));
    assert!(!is_valid_home("alice", &components(&["/", "home", "x", "alice"])));
    assert!(!is_valid_home("alice", &components(&[])));
    assert!(!is_valid_home("", &components(&["/", "home"])));
    assert!(is_valid_home("", &components(&["/", "home", ""])));
}

#[test]
fn component_that_is_no_text_is_no_name() {
    let home = vec![Some("/".to_string()), Some("home".to_string()), None];
    assert!(!is_valid_home("alice", &home));
    let home = vec![None, None, Some("alice".to_string())];
    assert!(is_valid_home("alice", &home));
}

#[test]
fn tilde_prefix_is_taken_off() {
    assert_eq!(tilde_rest("~/.ssh/config"), Some(".ssh/config".to_string()));
    assert_eq!(tilde_rest("~/"), Some(String::new()));
    assert_eq!(tilde_rest("~//x"), Some("/x".to_string()));
    assert_eq!(tilde_rest("~/\u{633}"), Some("\u{633}".to_string()));
}

#[test]
fn path_without_tilde_prefix_has_no_rest() {
    assert_eq!(tilde_rest(""), None);
    assert_eq!(tilde_rest("~"), None);
    assert_eq!(tilde_rest("~user/x"), None);
    assert_eq!(tilde_rest("/etc/ssh/config"), None);
    assert_eq!(tilde_rest(" ~/x"), None);
    assert_eq!(tilde_rest("x~/"), None);
}

#[test]
fn path_under_the_home_of_the_user_is_expanded() {
    let home = components(&["/", "home", "alice"]);
    assert_eq!(
        expansion("~/.ssh/config", Some(&home), Some("alice")),
        Expansion::Under(".ssh/config".to_string())
    );
    assert_eq!(expansion("~/", Some(&home), Some("alice")), Expansion::Under(String::new()));
}

#[test]
fn path_under_the_home_of_another_is_denied() {
    let home = components(&["/", "home", "bob"]);
    assert_eq!(expansion("~/.ssh/config", Some(&home), Some("alice")), Expansion::Denied);
    let root = components(&["/", "root"]);
    assert_eq!(expansion("~/.ssh/config", Some(&root), Some("root")), Expansion::Denied);
}

#[test]
fn path_stays_without_tilde_or_without_home() {
    let home = components(&["/", "home", "alice"]);
    assert_eq!(expansion("/etc/ssh/config", Some(&home), Some("alice")), Expansion::Unchanged);
    assert_eq!(expansion("~alice/x", Some(&home), Some("alice")), Expansion::Unchanged);
    assert_eq!(expansion("/etc/ssh/config", Some(&home), None), Expansion::Unchanged);
    assert_eq!(expansion("~/.ssh/config", None, Some("alice")), Expansion::Unchanged);
    assert_eq!(expansion("~/.ssh/config", None, None), Expansion::Unchanged);
}

#[test]
fn unknown_user_is_told_apart() {
    let home = components(&["/", "home", "alice"]);
    assert_eq!(expansion("~/.ssh/config", Some(&home), None), Expansion::NoUser);
}
