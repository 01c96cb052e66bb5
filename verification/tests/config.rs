use hyperion::config::{ServerConfig, ServerKind};
use hyperion::HyperionConfig;

#[test]
fn the_default_configuration_has_a_file_server_and_a_proxy() {
    let config = HyperionConfig::new();
    let servers = config.servers();
    assert_eq!(servers.len(), 2);

    assert_eq!(servers[0].location, "/");
    assert_eq!(servers[0].port, 82);
    match &servers[0].server_kind {
        ServerKind::Files { file_root, index } => {
            assert_eq!(file_root, "/var/www/html");
            assert_eq!(index, &vec!["index".to_string(), "index.html".to_string()]);
        }
        ServerKind::Proxy { .. } => panic!("the first server is a proxy"),
    }

    assert_eq!(servers[1].location, "/");
    assert_eq!(servers[1].port, 83);
    match &servers[1].server_kind {
        ServerKind::Proxy { pass } => assert_eq!(pass, "localhost:80"),
        ServerKind::Files { .. } => panic!("the second server serves files"),
    }
}

#[test]
fn a_configuration_keeps_the_servers_it_is_given() {
    let config = HyperionConfig::with_servers(vec![ServerConfig {
        location: "/api".to_string(),
        port: 8080,
        server_kind: ServerKind::Proxy { pass: "10.0.0.1:9000".to_string() },
    }]);
    assert_eq!(config.servers().len(), 1);
    assert_eq!(config.servers()[0].location, "/api");
    assert_eq!(config.servers()[0].port, 8080);
    assert!(HyperionConfig::with_servers(Vec::new()).servers().is_empty());
}
