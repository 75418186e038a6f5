use link_keeper::backend::{AccessToken, Backend, Git, GitConfig, Github, GithubConfig};
use link_keeper::keeper::{contains_link, KeeperError, LinkKeeper, Settings};

fn git(path: &str) -> Backend {
    Backend::Git(Git {
        config: GitConfig {
            repository_path: path.to_string(),
            file_name: "README.md".to_string(),
            push_on_add: true,
        },
    })
}

fn github(token: &str) -> Backend {
    Backend::Github(Github { config: GithubConfig { access_token: AccessToken(token.to_string()) } })
}

fn keeper() -> LinkKeeper {
    LinkKeeper::new(Settings::in_config_dir("/home/u/.config"))
}

#[test]
fn substring_check_is_exact_on_characters() {
    let log = "[{\"url\":\"https://a.example/x\"}]";
    assert!(contains_link("https://a.example/x", log));
    assert!(contains_link("a.example", log));
    assert!(!contains_link("https://b.example", log));
    assert!(!contains_link("https://a.example/xy", log));
    assert!(contains_link("", log));
    assert!(!contains_link("x", ""));
}

#[test]
fn link_already_exists_looks_in_the_raw_log() {
    let k = keeper();
    assert!(k.link_already_exists("https://a.example", "[{\"url\":\"https://a.example\"}]"));
    assert!(!k.link_already_exists("https://c.example", "[{\"url\":\"https://a.example\"}]"));
}

#[test]
fn settings_live_in_the_config_directory() {
    let k = keeper();
    assert_eq!(k.get_settings().config_path, "/home/u/.config/link-keeper");
    assert_eq!(k.get_settings().config_file_name, "link-keeper.toml");
    assert_eq!(k.get_raw_file_name(), "link_keeper.json");
    assert_eq!(k.full_config_path(), "/home/u/.config/link-keeper/link-keeper.toml");
}

#[test]
fn second_backend_of_a_kind_is_refused() {
    let mut k = keeper();
    assert!(k.get_activated_backends().is_empty());
    assert_eq!(k.add_backend(git("/r")), Ok(()));
    assert_eq!(k.add_backend(git("/s")), Err(KeeperError::AlreadyActive));
    assert_eq!(k.add_backend(github("t")), Ok(()));
    assert_eq!(k.get_activated_backends().len(), 2);
}

#[test]
fn register_skips_repeated_kinds() {
    let mut k = keeper();
    k.register_backends(Some(vec![git("/r"), github("t"), git("/s")]));
    let active = k.get_activated_backends();
    assert_eq!(active.len(), 2);
    match &active[0] {
        Backend::Git(g) => assert_eq!(g.config.repository_path, "/r"),
        _ => panic!("expected the Git backend first"),
    }
    k.register_backends(None);
    assert_eq!(k.get_activated_backends().len(), 2);
}

#[test]
fn config_text_has_a_section_per_written_backend() {
    let mut k = keeper();
    k.add_backend(git("/r")).unwrap();
    k.add_backend(github("t")).unwrap();
    let text = k.create_toml_string(
        "raw_file_name = \"link_keeper.json\"\n",
        &vec![Some("file_name = \"README.md\"\n".to_string()), None],
    );
    assert_eq!(
        text,
        "raw_file_name = \"link_keeper.json\"\n\n[backends.git]\nfile_name = \"README.md\"\n"
    );
}

#[test]
fn activated_backend_config_reads_back_from_the_settings_file() {
    let mut k = keeper();
    k.add_backend(git("/repo")).unwrap();
    let mut table = toml::value::Table::new();
    table.insert("repository_path".to_string(), toml::Value::String("/repo".to_string()));
    table.insert("file_name".to_string(), toml::Value::String("README.md".to_string()));
    table.insert("push_on_add".to_string(), toml::Value::Boolean(true));
    let body = toml::to_string(&table).unwrap();
    let text = k.create_toml_string("config_file_name = \"link-keeper.toml\"\n", &vec![Some(body.clone())]);
    assert!(text.contains(&format!("[backends.git]\n{}", body)));
    let value: toml::Value = toml::from_str(&text).unwrap();
    let section = &value["backends"]["git"];
    assert_eq!(section["repository_path"].as_str(), Some("/repo"));
    assert_eq!(section["file_name"].as_str(), Some("README.md"));
    assert_eq!(section["push_on_add"].as_bool(), Some(true));
}

#[test]
fn add_builds_the_link() {
    let k = keeper();
    let l = k.add("https://a.example", Some("rust"));
    assert_eq!(l.get_url(), "https://a.example");
    assert_eq!(l.get_category(), Some("rust".to_string()));
    assert_eq!(k.add("u", None).get_category(), None);
}
