use memo::app::AppConfig;
use std::path::PathBuf;

#[test]
fn test_app_config_new() {
    let app_config = AppConfig::new("memo", "memo.txt");
    let mut data_dir = dirs::data_dir().unwrap_or_else(|| PathBuf::from("."));
    data_dir.push("memo");

    assert_eq!(app_config.name(), "memo");
    assert_eq!(app_config.data_file(), "memo.txt");
    assert_eq!(app_config.data_dir(), &data_dir);
}

#[test]
fn test_app_config_name() {
    let app_config = AppConfig::new("memo", "memo.txt");

    assert_eq!(app_config.name(), "memo");
}

#[test]
fn test_app_config_data_file_path() {
    let app_config = AppConfig::new("memo", "memo.txt");
    let mut path = dirs::data_dir().unwrap();
    path.push("memo");
    path.push("memo.txt");

    assert_eq!(app_config.data_file_path(), path);
}

#[test]
fn test_app_config_data_dir() {
    let app_config = AppConfig::new("memo", "memo.txt");
    let mut data_dir = dirs::data_dir().unwrap_or_else(|| PathBuf::from("."));
    data_dir.push("memo");

    assert_eq!(app_config.data_dir(), &data_dir);
}

#[test]
fn test_app_config_data_file() {
    let app_config = AppConfig::new("memo", "memo.txt");
    assert_eq!(app_config.data_file(), "memo.txt");
}

#[test]
fn with_base_joins_the_name_to_the_base() {
    let app_config = AppConfig::with_base("memo", "memo.txt", Some(PathBuf::from("/tmp/data")));
    assert_eq!(app_config.data_dir(), &PathBuf::from("/tmp/data/memo"));
    assert_eq!(app_config.data_file_path(), PathBuf::from("/tmp/data/memo/memo.txt"));
}

#[test]
fn with_base_falls_back_to_the_current_directory() {
    let app_config = AppConfig::with_base("memo", "memo.txt", None);
    assert_eq!(app_config.data_dir(), &PathBuf::from("./memo"));
    assert_eq!(app_config.data_file_path(), PathBuf::from("./memo/memo.txt"));
}

#[test]
fn data_dir_can_be_replaced() {
    let mut app_config = AppConfig::new("memo", "memo.txt");
    app_config.data_dir = PathBuf::from("/elsewhere");
    assert_eq!(app_config.data_dir(), &PathBuf::from("/elsewhere"));
    assert_eq!(app_config.data_file_path(), PathBuf::from("/elsewhere/memo.txt"));
}
