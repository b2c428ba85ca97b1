use baacup::client_config;
use baacup::server_config;

#[test]
fn test_client_configuration_fields() {
    let config = client_config::Configuration {
        backup_paths: vec!["foo".into(), "bar".into(), "baz".into()],
        server_host: "localhost".into(),
        server_port: 8000,
    };
    assert_eq!(config.backup_paths.len(), 3);
    assert_eq!(config.server_host, "localhost");
    assert_eq!(config.server_port, 8000);
}

#[test]
fn test_server_configuration_fields() {
    let config = server_config::Configuration { storage_path: "foo".into() };
    assert_eq!(config.storage_path, "foo");
}

#[test]
fn test_yaml_reader_wraps_source() {
    let reader = client_config::YamlReader::new("backup_paths: []".to_string());
    assert_eq!(reader.into_inner(), "backup_paths: []");
    let reader = server_config::YamlReader::new("storage_path: foo".to_string());
    assert_eq!(reader.into_inner(), "storage_path: foo");
}
