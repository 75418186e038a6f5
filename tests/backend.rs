use link_keeper::backend::{AccessToken, AvailableBackend, Backend, Git, GitConfig, PushPlan};
use link_keeper::file_handling::FileHandling;
use link_keeper::link::Link;

fn git(push_on_add: bool) -> Git {
    Git {
        config: GitConfig {
            repository_path: "/repo".to_string(),
            file_name: "links.md".to_string(),
            push_on_add,
        },
    }
}

#[test]
fn menu_places_and_keys() {
    assert_eq!(AvailableBackend::from_index(0), Some(AvailableBackend::Git));
    assert_eq!(AvailableBackend::from_index(1), Some(AvailableBackend::Github));
    assert_eq!(AvailableBackend::from_index(2), None);
    assert_eq!(AvailableBackend::from_key("git"), Some(AvailableBackend::Git));
    assert_eq!(AvailableBackend::from_key("github"), Some(AvailableBackend::Github));
    assert_eq!(AvailableBackend::from_key("drive"), None);
    assert_eq!(AvailableBackend::Git.display_name(), "Git");
    assert_eq!(AvailableBackend::Github.display_name(), "Github");
    assert_eq!(AvailableBackend::Github.key(), "github");
}

#[test]
fn commit_message_names_url_and_category() {
    let with = Link::new("u".to_string(), Some("c".to_string()));
    let without = Link::new("u".to_string(), None);
    assert_eq!(Git::commit_message(&with), "Adding link with url: u and category: c");
    assert_eq!(Git::commit_message(&without), "Adding link with url: u ");
}

#[test]
fn push_plan_follows_the_setting() {
    assert_eq!(git(false).push_plan(3), PushPlan::Skip);
    assert_eq!(git(true).push_plan(0), PushPlan::WarnNoRemotes);
    assert_eq!(git(true).push_plan(2), PushPlan::PushToAll);
}

#[test]
fn paths_are_joined() {
    assert_eq!(git(true).joined(), "/repo/links.md");
    let f = FileHandling::new("/tmp/keep".to_string(), "log.json".to_string());
    assert_eq!(f.joined(), "/tmp/keep/log.json");
}

#[test]
fn signing_in_and_out_succeeds() {
    let b = Backend::Git(git(true));
    let token = AccessToken("secret".to_string());
    assert_eq!(b.sign_in(&token), Ok(()));
    assert_eq!(b.sign_out(&token), Ok(()));
    assert_eq!(b.kind(), AvailableBackend::Git);
}

#[test]
fn links_compare_by_value() {
    let a = Link::new("u".to_string(), Some("c".to_string()));
    assert!(a == Link::new("u".to_string(), Some("c".to_string())));
    assert!(a != Link::new("u".to_string(), None));
    assert!(a != Link::new("v".to_string(), Some("c".to_string())));
    assert_eq!(a.get_url(), "u");
}
