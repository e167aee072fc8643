use rotten::config::{Config, LinkConfig};
use rotten::env::Env;
use rotten::manager::{
    generate_empty, get_state_path, insert_link, read_first_line, Addition, ConfigError,
    ConfigManager, FileWrite, CONFIG_FILE, EMPTY_CONFIG,
};
use rotten::reconcile::ReportRow;
use rotten::symlink::{Event, LinkError, Outcome, Request, SourceKind, Symlink, TargetKind};

fn env_of(pairs: &[(&str, &str)]) -> Env {
    let mut env = Env::new();
    for (name, value) in pairs {
        env.set(name.to_string(), value.to_string());
    }
    env
}

fn names(items: &[&str]) -> Vec<String> {
    items.iter().map(|s| s.to_string()).collect()
}

fn link(from: &str, to: &str) -> Symlink {
    Symlink { from: from.to_string(), to: to.to_string() }
}

fn manager(root: &str, config: Option<Config>) -> ConfigManager {
    ConfigManager {
        state_path: "/state/rotten".to_string(),
        config_root: root.to_string(),
        config,
    }
}

fn loaded() -> ConfigManager {
    let mut config = Config::new();
    config.insert("nvim".to_string(), LinkConfig { disabled: None, symlink: link("nvim", "~/.config/nvim") });
    config.insert("emacs".to_string(), LinkConfig { disabled: None, symlink: link("emacs", "~/.emacs.d") });
    config.insert("git".to_string(), LinkConfig { disabled: Some(true), symlink: link("git", "~/.gitconfig") });
    config.add_profile("editors".to_string(), names(&["nvim", "emacs"]));
    config.add_profile("tools".to_string(), names(&["git", "nvim", "tmux"]));
    manager("/dot", Some(config))
}

fn parsed(text: &str) -> toml_edit::Document {
    text.parse::<toml_edit::Document>().unwrap()
}

fn finish(mut reconciler: rotten::reconcile::Reconciler, mut next: Option<Request>) -> Vec<ReportRow> {
    while let Some(request) = next {
        let event = match request {
            Request::Probe { .. } => {
                Event::Probed { source: SourceKind::File, target: TargetKind::Absent }
            }
            Request::RemoveTree { .. } | Request::RemoveFile { .. } => Event::Removed { ok: true },
            Request::CreateLink { .. } => Event::Linked { ok: true },
        };
        next = reconciler.step(event);
    }
    reconciler.into_report().unwrap()
}

fn row(name: &str, result: Result<Outcome, LinkError>) -> ReportRow {
    ReportRow { name: name.to_string(), result }
}

#[test]
fn the_state_file_is_in_the_state_directory() {
    let env = env_of(&[("XSD_STATE_HOME", "/var/state"), ("HOME", "/home/bob")]);
    assert_eq!(get_state_path(&env), Ok("/var/state/rotten".to_string()));
}

#[test]
fn the_state_directory_defaults_to_one_below_home() {
    let env = env_of(&[("HOME", "/home/bob")]);
    assert_eq!(get_state_path(&env), Ok("/home/bob/.local/state/rotten".to_string()));
}

#[test]
fn without_home_there_is_no_state_file() {
    assert_eq!(get_state_path(&Env::new()), Err(ConfigError::NoStateHome));
}

#[test]
fn the_first_line_ends_at_the_line_feed() {
    assert_eq!(read_first_line("/dot\n/other\n"), Some("/dot".to_string()));
    assert_eq!(read_first_line("/dot"), Some("/dot".to_string()));
    assert_eq!(read_first_line("/dot\r\nrest"), Some("/dot".to_string()));
    assert_eq!(read_first_line("/dot\r"), Some("/dot\r".to_string()));
    assert_eq!(read_first_line("\n/dot"), Some("".to_string()));
    assert_eq!(read_first_line("\r\n"), Some("".to_string()));
    assert_eq!(read_first_line(""), None);
}

#[test]
fn the_first_line_is_what_std_takes_it_to_be() {
    for data in ["", "a", "a\n", "a\r\n", "a\rb\n", "\n", "\r", "\r\n", "a\r", "ab\n\ncd", "é\r\nx"] {
        assert_eq!(read_first_line(data), data.lines().next().map(str::to_string));
    }
}

#[test]
fn the_root_is_the_first_line_of_the_state_file() {
    assert_eq!(ConfigManager::get_config_root("/dot\n", true), Ok("/dot".to_string()));
    assert_eq!(ConfigManager::get_config_root("/dot\n", false), Err(ConfigError::MissingRoot));
    assert_eq!(ConfigManager::get_config_root("", true), Err(ConfigError::NoStateFile));
    assert_eq!(ConfigManager::get_config_root("", false), Err(ConfigError::NoStateFile));
}

#[test]
fn a_new_manager_writes_the_state_file() {
    let env = env_of(&[("HOME", "/home/bob")]);
    let (manager, writes) = ConfigManager::try_new("/dot", false, &env).unwrap();
    assert_eq!(manager.state_path, "/home/bob/.local/state/rotten");
    assert_eq!(manager.config_root, "/dot");
    assert_eq!(manager.config, None);
    assert_eq!(
        writes,
        vec![FileWrite {
            path: "/home/bob/.local/state/rotten".to_string(),
            content: "/dot".to_string()
        }]
    );
}

#[test]
fn a_new_manager_writes_the_declarations_on_overwrite() {
    let env = env_of(&[("HOME", "/home/bob")]);
    let (_, writes) = ConfigManager::try_new("/dot", true, &env).unwrap();
    assert_eq!(writes.len(), 2);
    assert_eq!(writes[0].path, "/home/bob/.local/state/rotten");
    assert_eq!(
        writes[1],
        FileWrite { path: "/dot/rotten.toml".to_string(), content: EMPTY_CONFIG.to_string() }
    );
}

#[test]
fn a_new_manager_needs_a_place_for_the_state_file() {
    assert_eq!(
        ConfigManager::try_new("/dot", true, &Env::new()),
        Err(ConfigError::NoStateHome)
    );
}

#[test]
fn loading_takes_the_root_from_the_state_file() {
    let config = Config::new();
    let manager =
        ConfigManager::try_load("/state/rotten".to_string(), "/dot\n", true, config.clone())
            .unwrap();
    assert_eq!(manager.state_path, "/state/rotten");
    assert_eq!(manager.config_root, "/dot");
    assert_eq!(manager.config, Some(config.clone()));
    assert_eq!(
        ConfigManager::try_load("/state/rotten".to_string(), "/dot\n", false, config.clone()),
        Err(ConfigError::MissingRoot)
    );
    assert_eq!(
        ConfigManager::try_load("/state/rotten".to_string(), "", true, config),
        Err(ConfigError::NoStateFile)
    );
}

#[test]
fn the_declarations_live_in_the_root() {
    let write = manager("/dot", None).setup_config();
    assert_eq!(write.path, "/dot/rotten.toml");
    assert_eq!(write.content, generate_empty());
    assert_eq!(CONFIG_FILE, "rotten.toml");
}

#[test]
fn the_template_declares_an_example() {
    let document = parsed(generate_empty());
    let example = document["profiles"]["example"].as_array().unwrap();
    let members: Vec<&str> = example.iter().map(|v| v.as_str().unwrap()).collect();
    assert_eq!(members, vec!["nvim"]);
    assert_eq!(document["links"]["nvim"]["disabled"].as_bool(), Some(true));
    assert_eq!(document["links"]["nvim"]["source"].as_str(), Some("nvim"));
    assert_eq!(document["links"]["nvim"]["target"].as_str(), Some("$HOME/.config/nvim"));
}

#[test]
fn a_link_is_declared_in_the_document() {
    let mut document = parsed("# mine\n[links]\n\n[links.vim]\nsource = \"vim\"\ntarget = \"~/.vim\"\n");
    assert_eq!(insert_link(&mut document, "nvim", &link("nvim", "~/.config/nvim")), Ok(()));
    assert!(document["links"]["nvim"].is_table());
    assert_eq!(document["links"]["nvim"]["source"].as_str(), Some("nvim"));
    assert_eq!(document["links"]["nvim"]["target"].as_str(), Some("~/.config/nvim"));
    assert_eq!(document["links"]["nvim"].as_table().unwrap().len(), 2);
    assert_eq!(document["links"]["vim"]["source"].as_str(), Some("vim"));
    assert_eq!(document["links"]["vim"]["target"].as_str(), Some("~/.vim"));
    assert!(document.to_string().starts_with("# mine\n"));
}

#[test]
fn declaring_a_link_again_replaces_it() {
    let mut document =
        parsed("[links.nvim]\ndisabled = true\nsource = \"old\"\ntarget = \"/old\"\n[links.nvim.more]\nx = \"y\"\n");
    assert_eq!(insert_link(&mut document, "nvim", &link("new", "/new")), Ok(()));
    let entry = document["links"]["nvim"].as_table().unwrap();
    assert_eq!(entry.len(), 2);
    assert_eq!(entry["source"].as_str(), Some("new"));
    assert_eq!(entry["target"].as_str(), Some("/new"));
    assert!(entry.get("disabled").is_none());
    assert!(entry.get("more").is_none());
}

#[test]
fn a_document_without_links_is_malformed() {
    let mut document = parsed("[profiles]\nexample = ['nvim']\n");
    let before = document.to_string();
    assert_eq!(
        insert_link(&mut document, "nvim", &link("nvim", "~/.config/nvim")),
        Err(ConfigError::ConfigMalformed)
    );
    assert_eq!(document.to_string(), before);

    let mut document = parsed("links = 3\n");
    assert_eq!(
        insert_link(&mut document, "nvim", &link("nvim", "~/.config/nvim")),
        Err(ConfigError::ConfigMalformed)
    );
    let mut document = parsed("links = { a = 1 }\n");
    assert_eq!(
        insert_link(&mut document, "nvim", &link("nvim", "~/.config/nvim")),
        Err(ConfigError::ConfigMalformed)
    );
}

#[test]
fn adding_a_link_gives_the_file_to_write() {
    let manager = manager("/dot", None);
    let write = manager
        .add_link(generate_empty(), "git".to_string(), link("gitconfig", "~/.gitconfig"))
        .unwrap();
    assert_eq!(write.path, "/dot/rotten.toml");
    assert_ne!(write.content, generate_empty());
    let document = parsed(&write.content);
    assert_eq!(document["links"]["git"]["source"].as_str(), Some("gitconfig"));
    assert_eq!(document["links"]["git"]["target"].as_str(), Some("~/.gitconfig"));
    assert_eq!(document["links"]["nvim"]["source"].as_str(), Some("nvim"));
    assert!(write.content.contains("# You can disable also some links"));
    assert!(write.content.contains("[links.git]"));
}

#[test]
fn adding_a_link_to_what_is_no_toml_fails() {
    let manager = manager("/dot", None);
    assert_eq!(
        manager.add_link("[links", "git".to_string(), link("gitconfig", "~/.gitconfig")),
        Err(ConfigError::ConfigMalformed)
    );
    assert_eq!(
        manager.add_link("", "git".to_string(), link("gitconfig", "~/.gitconfig")),
        Err(ConfigError::ConfigMalformed)
    );
}

#[test]
fn writing_gives_the_text_of_the_document() {
    let text = "# keep me\n[links]\n  a   =  1 # odd spacing\n";
    let write = manager("/dot/", None).write_config(&parsed(text));
    assert_eq!(
        write,
        Ok(FileWrite { path: "/dot/rotten.toml".to_string(), content: text.to_string() })
    );
}

#[test]
fn a_profile_chooses_its_links() {
    let manager = loaded();
    let env = env_of(&[("HOME", "/home/bob")]);
    let (reconciler, next) = manager.symlink_profile(false, "editors".to_string(), env).unwrap();
    assert_eq!(
        next,
        Some(Request::Probe {
            source: "/dot/nvim".to_string(),
            target: "/home/bob/.config/nvim".to_string()
        })
    );
    assert_eq!(
        finish(reconciler, next),
        vec![row("nvim", Ok(Outcome::Created)), row("emacs", Ok(Outcome::Created))]
    );
}

#[test]
fn a_profile_may_name_what_is_not_declared() {
    let manager = loaded();
    let env = env_of(&[("HOME", "/home/bob")]);
    let (reconciler, next) = manager.symlink_profile(true, "tools".to_string(), env).unwrap();
    assert_eq!(
        finish(reconciler, next),
        vec![
            row("git", Ok(Outcome::Skipped)),
            row("nvim", Ok(Outcome::Created)),
            row("tmux", Err(LinkError::UnknownEntry)),
        ]
    );
}

#[test]
fn an_unknown_profile_is_an_error() {
    let manager = loaded();
    assert_eq!(
        manager.symlink_profile(false, "play".to_string(), Env::new()).err(),
        Some(ConfigError::UnknownProfile)
    );
    let bare = self::manager("/dot", Some(Config::new()));
    assert_eq!(
        bare.symlink_profile(false, "editors".to_string(), Env::new()).err(),
        Some(ConfigError::UnknownProfile)
    );
}

#[test]
fn without_declarations_nothing_is_begun() {
    let manager = manager("/dot", None);
    assert_eq!(
        manager.symlink_profile(false, "editors".to_string(), Env::new()).err(),
        Some(ConfigError::NotLoaded)
    );
    assert_eq!(manager.symlink_all(false, Env::new()).err(), Some(ConfigError::NotLoaded));
    assert_eq!(
        manager.symlink_profiles(false, &names(&[]), Env::new()).err(),
        Some(ConfigError::NotLoaded)
    );
}

#[test]
fn all_links_have_their_turn() {
    let manager = loaded();
    let env = env_of(&[("HOME", "/home/bob")]);
    let (reconciler, next) = manager.symlink_all(false, env).unwrap();
    assert_eq!(
        finish(reconciler, next),
        vec![
            row("nvim", Ok(Outcome::Created)),
            row("emacs", Ok(Outcome::Created)),
            row("git", Ok(Outcome::Skipped)),
        ]
    );
}

#[test]
fn several_profiles_are_taken_together() {
    let manager = loaded();
    let env = env_of(&[("HOME", "/home/bob")]);
    let (reconciler, next) =
        manager.symlink_profiles(false, &names(&["tools", "editors"]), env).unwrap();
    assert_eq!(
        finish(reconciler, next),
        vec![
            row("git", Ok(Outcome::Skipped)),
            row("nvim", Ok(Outcome::Created)),
            row("tmux", Err(LinkError::UnknownEntry)),
            row("emacs", Ok(Outcome::Created)),
        ]
    );
}

#[test]
fn no_profile_means_every_link() {
    let manager = loaded();
    let env = env_of(&[("HOME", "/home/bob")]);
    let (reconciler, next) = manager.symlink_profiles(false, &names(&[]), env).unwrap();
    assert_eq!(finish(reconciler, next).len(), 3);
}

#[test]
fn one_unknown_profile_begins_nothing() {
    let manager = loaded();
    let env = env_of(&[("HOME", "/home/bob")]);
    assert_eq!(
        manager.symlink_profiles(false, &names(&["editors", "play"]), env).err(),
        Some(ConfigError::UnknownProfile)
    );
}

#[test]
fn what_is_taken_in_is_named_after_its_source() {
    let manager = manager("/dot", None);
    assert_eq!(
        manager.plan_add("/home/bob/.config/nvim/", "~/.config/nvim", None),
        Ok(Addition {
            name: "nvim".to_string(),
            link: link("nvim", "~/.config/nvim"),
            destination: "/dot/nvim".to_string(),
        })
    );
    assert_eq!(
        manager.plan_add("/home/bob/.vimrc", "~/.vimrc", Some("vim".to_string())),
        Ok(Addition {
            name: "vim".to_string(),
            link: link("vim", "~/.vimrc"),
            destination: "/dot/vim".to_string(),
        })
    );
}

#[test]
fn what_has_no_name_needs_one() {
    let manager = manager("/dot", None);
    for source in ["/", "", ".", "..", "a/..", "./"] {
        assert_eq!(manager.plan_add(source, "~/x", None), Err(ConfigError::Unnamed));
    }
    assert!(manager.plan_add("/", "~/x", Some("root".to_string())).is_ok());
}

#[test]
fn unlinking_is_not_available() {
    assert_eq!(ConfigManager::unlink(), Err(ConfigError::NotImplemented));
}

#[test]
fn a_document_without_a_root_table_is_malformed() {
    let mut document = toml_edit::Document::new();
    assert!(manager("/dot", None).write_config(&document).is_ok());
    *document.as_item_mut() = toml_edit::value(1);
    assert_eq!(
        insert_link(&mut document, "nvim", &link("nvim", "~/.config/nvim")),
        Err(ConfigError::ConfigMalformed)
    );
    assert_eq!(
        manager("/dot", None).write_config(&document),
        Err(ConfigError::ConfigMalformed)
    );
}
