use nfs_manager::config::ConfigManager;
use nfs_manager::nfs::{NfsConfig, NfsError, Platform};

fn manager_with(text: &str) -> ConfigManager {
    let mut m = ConfigManager::new(Some("/home/user"), Platform::Linux).unwrap();
    m.set_text(text.to_string());
    m
}

fn config(name: &str, server: &str, mount_point: &str, options: &str) -> NfsConfig {
    NfsConfig {
        name: name.to_string(),
        server: server.to_string(),
        mount_point: mount_point.to_string(),
        options: options.to_string(),
    }
}

fn config_error(e: NfsError) -> String {
    match e {
        NfsError::ConfigError(s) => s,
        other => panic!("expected a configuration error, got {:?}", other),
    }
}

#[test]
fn new_places_file_in_home() {
    let m = ConfigManager::new(Some("/home/user"), Platform::Linux).unwrap();
    assert_eq!(m.config_path(), "/home/user/.nfs-manager.conf");
    assert_eq!(m.text(), "");
}

#[test]
fn new_does_not_double_the_separator() {
    let m = ConfigManager::new(Some("/home/user/"), Platform::MacOS).unwrap();
    assert_eq!(m.config_path(), "/home/user/.nfs-manager.conf");
}

#[test]
fn new_on_windows_uses_backslash() {
    let m = ConfigManager::new(Some("C:\\Users\\me"), Platform::Windows).unwrap();
    assert_eq!(m.config_path(), "C:\\Users\\me\\.nfs-manager.conf");
    let m = ConfigManager::new(Some("C:"), Platform::Windows).unwrap();
    assert_eq!(m.config_path(), "C:.nfs-manager.conf");
}

#[test]
fn new_without_home_fails() {
    let e = ConfigManager::new(None, Platform::Linux).err().unwrap();
    assert_eq!(config_error(e), "HOME not set");
}

#[test]
fn load_reads_documented_examples() {
    let m = manager_with(
        "# relative paths\ncompany|192.168.1.100:/data|company-data|rw,sync,hard,intr\nbackup|192.168.1.200:/backup|backup|ro,sync\n\n# absolute\ndev|dev.example.com:/projects|/Users/username/projects|rw,async\n",
    );
    let configs = m.load_configs().unwrap();
    assert_eq!(configs.len(), 3);
    assert_eq!(configs[0].name, "company");
    assert_eq!(configs[0].server, "192.168.1.100:/data");
    assert_eq!(configs[0].mount_point, "company-data");
    assert_eq!(configs[0].options, "rw,sync,hard,intr");
    assert_eq!(configs[1].name, "backup");
    assert_eq!(configs[2].mount_point, "/Users/username/projects");
}

#[test]
fn load_trims_lines_and_fields() {
    let m = manager_with("  a | b:/x |  c  | ro \r\n\t\r\n   # note\r\n");
    let configs = m.load_configs().unwrap();
    assert_eq!(configs.len(), 1);
    assert_eq!(configs[0].name, "a");
    assert_eq!(configs[0].server, "b:/x");
    assert_eq!(configs[0].mount_point, "c");
    assert_eq!(configs[0].options, "ro");
}

#[test]
fn load_of_empty_file_is_empty() {
    assert_eq!(manager_with("").load_configs().unwrap().len(), 0);
    assert_eq!(manager_with("\n\n   \n").load_configs().unwrap().len(), 0);
}

#[test]
fn load_reports_first_bad_line() {
    let m = manager_with("ok|s:/x|m|o\n  broken|line  \nalso|bad\n");
    let e = m.load_configs().err().unwrap();
    assert_eq!(config_error(e), "Invalid config line: broken|line");
}

#[test]
fn save_writes_one_line_per_config() {
    let mut m = manager_with("# comment\n\nx|s:/a|m|o\n");
    let configs = vec![config("a", "h:/1", "m1", "rw"), config("b", "h:/2", "/abs", "ro")];
    m.save_configs(&configs);
    assert_eq!(m.text(), "a|h:/1|m1|rw\nb|h:/2|/abs|ro");
    m.save_configs(&[]);
    assert_eq!(m.text(), "");
}

#[test]
fn add_appends_and_get_finds() {
    let mut m = manager_with("company|192.168.1.100:/data|company-data|rw,sync,hard,intr\n");
    m.add_config(config("backup", "192.168.1.200:/backup", "backup", "ro,sync")).unwrap();
    assert_eq!(
        m.text(),
        "company|192.168.1.100:/data|company-data|rw,sync,hard,intr\nbackup|192.168.1.200:/backup|backup|ro,sync"
    );
    let found = m.get_config("backup").unwrap();
    assert_eq!(found.server, "192.168.1.200:/backup");
    assert_eq!(found.mount_point, "backup");
    assert_eq!(found.options, "ro,sync");
}

#[test]
fn add_refuses_a_taken_name() {
    let text = "dev|a:/x|m|o\n";
    let mut m = manager_with(text);
    let e = m.add_config(config("dev", "b:/y", "n", "p")).err().unwrap();
    assert_eq!(config_error(e), "Config with name 'dev' already exists");
    assert_eq!(m.text(), text);
}

#[test]
fn add_keeps_file_when_it_does_not_parse() {
    let text = "not a config line\n";
    let mut m = manager_with(text);
    let e = m.add_config(config("x", "s", "m", "o")).err().unwrap();
    assert_eq!(config_error(e), "Invalid config line: not a config line");
    assert_eq!(m.text(), text);
}

#[test]
fn get_missing_config_fails() {
    let m = manager_with("a|s:/x|m|o\n");
    let e = m.get_config("b").err().unwrap();
    assert_eq!(config_error(e), "Config 'b' not found");
}

#[test]
fn get_returns_first_of_duplicates() {
    let m = manager_with(
        "dev|dev.example.com:/projects|/Users/username/projects|rw,async\ndev|dev.example.com:/projects|projects|rw,async\n",
    );
    let found = m.get_config("dev").unwrap();
    assert_eq!(found.mount_point, "/Users/username/projects");
}

#[test]
fn remove_drops_every_config_of_the_name() {
    let mut m = manager_with("a|s:/1|m|o\n# c\nb|s:/2|m|o\na|s:/3|m|o\n");
    m.remove_config("a").unwrap();
    assert_eq!(m.text(), "b|s:/2|m|o");
    let e = m.get_config("a").err().unwrap();
    assert_eq!(config_error(e), "Config 'a' not found");
}

#[test]
fn remove_of_unknown_name_rewrites_file() {
    let mut m = manager_with("# header\na|s:/1|m|o\n\n");
    m.remove_config("zzz").unwrap();
    assert_eq!(m.text(), "a|s:/1|m|o");
}

#[test]
fn remove_undoes_add() {
    let mut m = manager_with("a|s:/1|m|o\nb|s:/2|n|p");
    let before = m.load_configs().unwrap();
    m.add_config(config("c", "s:/3", "q", "r")).unwrap();
    m.remove_config("c").unwrap();
    let after = m.load_configs().unwrap();
    assert_eq!(before.len(), after.len());
    for (x, y) in before.iter().zip(after.iter()) {
        assert_eq!(x.name, y.name);
        assert_eq!(x.server, y.server);
        assert_eq!(x.mount_point, y.mount_point);
        assert_eq!(x.options, y.options);
    }
}

#[test]
fn save_then_load_gives_configs_back() {
    let mut m = manager_with("");
    let configs = vec![config("a", "h:/1", "m1", "rw"), config("", "h:/2", "", ""), config("z", "", "/abs", "ro,sync")];
    m.save_configs(&configs);
    let loaded = m.load_configs().unwrap();
    assert_eq!(loaded.len(), 3);
    for (x, y) in configs.iter().zip(loaded.iter()) {
        assert_eq!(x.name, y.name);
        assert_eq!(x.server, y.server);
        assert_eq!(x.mount_point, y.mount_point);
        assert_eq!(x.options, y.options);
    }
}

#[test]
fn a_name_starting_a_comment_is_lost_on_reload() {
    let mut m = manager_with("");
    m.add_config(config("#hidden", "s", "m", "o")).unwrap();
    assert_eq!(m.load_configs().unwrap().len(), 0);
}

#[test]
fn add_compares_names_as_they_read_back() {
    let text = "a|b|c|d";
    let mut m = manager_with(text);
    let e = m.add_config(config(" a", "b", "c", "d")).err().unwrap();
    assert_eq!(config_error(e), "Config with name ' a' already exists");
    assert_eq!(m.text(), text);
    let e = m.add_config(config("a\t", "x", "y", "z")).err().unwrap();
    assert_eq!(config_error(e), "Config with name 'a\t' already exists");
    let names: Vec<String> = m.load_configs().unwrap().into_iter().map(|c| c.name).collect();
    assert_eq!(names, vec!["a".to_string()]);
}

#[test]
fn added_fields_read_back_trimmed() {
    let mut m = manager_with("a|b|c|d");
    m.add_config(config("  e ", " s:/x", "m ", " o ")).unwrap();
    assert_eq!(m.text(), "a|b|c|d\n  e | s:/x|m | o ");
    let configs = m.load_configs().unwrap();
    assert_eq!(configs.len(), 2);
    assert_eq!(configs[1].name, "e");
    assert_eq!(configs[1].server, "s:/x");
    assert_eq!(configs[1].mount_point, "m");
    assert_eq!(configs[1].options, "o");
    assert_eq!(m.get_config("e").unwrap().server, "s:/x");
    let e = m.add_config(config("e", "t", "u", "v")).err().unwrap();
    assert_eq!(config_error(e), "Config with name 'e' already exists");
}
