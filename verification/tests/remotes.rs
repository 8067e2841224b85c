use guitar::remotes::{choose_default_remote, RemoteEntry};

fn remotes(names: &[&str]) -> Vec<RemoteEntry> {
    names.iter().map(|name| RemoteEntry { name: name.to_string(), url: String::new(), push_url: None }).collect()
}

fn some(s: &str) -> Option<String> {
    Some(s.to_string())
}

#[test]
fn configured_remotes_win_in_order() {
    let list = remotes(&["fork", "origin", "upstream"]);
    assert_eq!(choose_default_remote(&list, some(" upstream "), some("fork"), None), some("upstream"));
    assert_eq!(choose_default_remote(&list, some("missing"), some("fork"), some("origin")), some("fork"));
    assert_eq!(choose_default_remote(&list, None, some("gone"), some("upstream")), some("upstream"));
}

#[test]
fn origin_then_first_remote_are_the_fallbacks() {
    assert_eq!(choose_default_remote(&remotes(&["fork", "origin"]), None, None, None), some("origin"));
    assert_eq!(choose_default_remote(&remotes(&["fork", "mirror"]), None, None, None), some("fork"));
    assert_eq!(choose_default_remote(&remotes(&[]), some("origin"), None, None), None);
}
