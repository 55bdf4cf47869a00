use load_balancer::proxy_handler::select_next_server;
use load_balancer::upstream::UpstreamServer;

fn three_servers() -> Vec<UpstreamServer> {
    vec![
        UpstreamServer::new(String::from("http://b0")),
        UpstreamServer::new(String::from("http://b1")),
        UpstreamServer::new(String::from("http://b2")),
    ]
}

#[test]
fn round_robin_over_healthy_set() {
    // Three healthy servers, six selections: b0, b1, b2, b0, b1, b2.
    let servers = three_servers();
    let mut cursor: usize = 0;
    let mut seen: Vec<String> = Vec::new();
    for _ in 0..6 {
        let chosen = select_next_server(&servers, &mut cursor).expect("a healthy server");
        seen.push(chosen.url);
    }
    assert_eq!(
        seen,
        vec!["http://b0", "http://b1", "http://b2", "http://b0", "http://b1", "http://b2"]
    );
}

#[test]
fn health_exclusion() {
    // With b1 unhealthy, four selections alternate b0, b2 and never
    // name b1.
    let mut servers = three_servers();
    servers[1].apply_probe(Some(500));
    assert!(!servers[1].is_healthy);
    let mut cursor: usize = 0;
    let mut seen: Vec<String> = Vec::new();
    for _ in 0..4 {
        let chosen = select_next_server(&servers, &mut cursor).expect("a healthy server");
        assert_ne!(chosen.url, "http://b1");
        seen.push(chosen.url);
    }
    assert_eq!(seen, vec!["http://b0", "http://b2", "http://b0", "http://b2"]);
}

#[test]
fn recovery_inclusion() {
    // Restoring b1's health makes it eligible on the very next selection.
    let mut servers = three_servers();
    servers[1].apply_probe(Some(500));
    let mut cursor: usize = 1;
    // While b1 is down, the healthy ordering is {b0, b2}: cursor 1 picks b2.
    let chosen = select_next_server(&servers, &mut cursor).expect("a healthy server");
    assert_eq!(chosen.url, "http://b2");
    assert_eq!(cursor, 0);
    servers[1].apply_probe(Some(200));
    // Back to {b0, b1, b2}: the next two selections reach b1 at once.
    let chosen = select_next_server(&servers, &mut cursor).expect("a healthy server");
    assert_eq!(chosen.url, "http://b0");
    let chosen = select_next_server(&servers, &mut cursor).expect("a healthy server");
    assert_eq!(chosen.url, "http://b1");
}

#[test]
fn no_healthy_server_selects_none() {
    let mut servers = three_servers();
    for server in servers.iter_mut() {
        server.apply_probe(None);
    }
    let mut cursor: usize = 2;
    assert!(select_next_server(&servers, &mut cursor).is_none());
    // The cursor is untouched when nothing can be selected.
    assert_eq!(cursor, 2);
}

#[test]
fn empty_registry_selects_none() {
    let servers: Vec<UpstreamServer> = Vec::new();
    let mut cursor: usize = 0;
    assert!(select_next_server(&servers, &mut cursor).is_none());
}

#[test]
fn stale_cursor_is_reduced_modulo_healthy_count() {
    // A cursor larger than the healthy count (left over from a larger
    // healthy set) wraps around instead of missing.
    let servers = three_servers();
    let mut cursor: usize = 7;
    let chosen = select_next_server(&servers, &mut cursor).expect("a healthy server");
    assert_eq!(chosen.url, "http://b1");
    assert_eq!(cursor, 2);
}
