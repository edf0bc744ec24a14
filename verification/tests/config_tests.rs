use puizcloud::config::Config;
use puizcloud::state::PuizcloudState;

#[test]
fn test_default_data() {
    let default_config_toml = "ip = \"127.0.0.1\"\nport = 8080\ndata = \"data/\"\n";
    let config_from_toml: toml::Value =
        toml::from_str(default_config_toml).expect("Failed to parse TOML");
    let default_config = Config::default();
    assert_eq!(
        default_config.ip.as_str(),
        config_from_toml.get("ip").and_then(|v| v.as_str()).unwrap()
    );
    assert_eq!(
        default_config.port as i64,
        config_from_toml.get("port").and_then(|v| v.as_integer()).unwrap()
    );
    assert_eq!(
        default_config.data.as_str(),
        config_from_toml.get("data").and_then(|v| v.as_str()).unwrap()
    );
}

#[test]
fn default_config_values() {
    let c = Config::default();
    assert_eq!(c.ip, "127.0.0.1");
    assert_eq!(c.port, 8080);
    assert_eq!(c.data, "data/");
}

#[test]
fn data_path_returns_configured_dir() {
    let c = Config { ip: String::from("0.0.0.0"), port: 1, data: String::from("/srv/files") };
    assert_eq!(c.data_path(), "/srv/files");
}

#[test]
fn state_anchors_relative_data_dir() {
    let s = PuizcloudState::new(Config::default(), "/home/user");
    assert_eq!(s.full_data_path(), "/home/user/data/");
    assert_eq!(s.config().port, 8080);
    assert_eq!(s.config().ip, "127.0.0.1");
}

#[test]
fn state_keeps_absolute_data_dir() {
    let c = Config { ip: String::from("127.0.0.1"), port: 8080, data: String::from("/srv/files") };
    let s = PuizcloudState::new(c, "/home/user");
    assert_eq!(s.full_data_path(), "/srv/files");
}

#[test]
fn state_respects_root_with_trailing_slash() {
    let c = Config { ip: String::from("127.0.0.1"), port: 8080, data: String::from("data") };
    let s = PuizcloudState::new(c, "/srv/");
    assert_eq!(s.full_data_path(), "/srv/data");
}
