use maaweb_server::api::{default_config, ServerConfig};
use std::path::PathBuf;

#[test]
fn server_config_clone_keeps_paths() {
    let c = ServerConfig { core_dir: PathBuf::from("core_runtime"), web_dir: PathBuf::from("../web/dist") };
    let d = c.clone();
    assert_eq!(d.core_dir, PathBuf::from("core_runtime"));
    assert_eq!(d.web_dir, PathBuf::from("../web/dist"));
}

#[test]
fn connect_config_defaults_to_general() {
    assert_eq!(default_config(), "General".to_string());
}
