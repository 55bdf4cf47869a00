use load_balancer::upstream::{apply_probe_results, probe_healthy, UpstreamServer};

#[test]
fn new_server_starts_healthy() {
    let server = UpstreamServer::new(String::from("http://127.0.0.1:3000"));
    assert_eq!(server.url, "http://127.0.0.1:3000");
    assert!(server.is_healthy);
}

#[test]
fn probe_status_200_is_healthy() {
    assert_eq!(probe_healthy(Some(200)), true);
    let mut server = UpstreamServer::new(String::from("http://b0"));
    server.is_healthy = false;
    server.apply_probe(Some(200));
    assert!(server.is_healthy);
}

#[test]
fn probe_status_500_is_unhealthy() {
    assert_eq!(probe_healthy(Some(500)), false);
    let mut server = UpstreamServer::new(String::from("http://b0"));
    server.apply_probe(Some(500));
    assert!(!server.is_healthy);
}

#[test]
fn probe_transport_failure_is_unhealthy() {
    // A refused connection or timeout yields no status at all.
    assert_eq!(probe_healthy(None), false);
    let mut server = UpstreamServer::new(String::from("http://b0"));
    server.apply_probe(None);
    assert!(!server.is_healthy);
}

#[test]
fn probe_other_success_statuses_are_unhealthy() {
    assert_eq!(probe_healthy(Some(201)), false);
    assert_eq!(probe_healthy(Some(301)), false);
    assert_eq!(probe_healthy(Some(404)), false);
}

#[test]
fn one_probe_pass_updates_every_flag_and_no_url() {
    let mut servers = vec![
        UpstreamServer::new(String::from("http://b0")),
        UpstreamServer::new(String::from("http://b1")),
        UpstreamServer::new(String::from("http://b2")),
    ];
    let statuses = vec![Some(200), Some(503), None];
    apply_probe_results(&mut servers, &statuses);
    assert_eq!(servers.len(), 3);
    assert!(servers[0].is_healthy);
    assert!(!servers[1].is_healthy);
    assert!(!servers[2].is_healthy);
    assert_eq!(servers[0].url, "http://b0");
    assert_eq!(servers[1].url, "http://b1");
    assert_eq!(servers[2].url, "http://b2");
    // The next pass can restore every server.
    apply_probe_results(&mut servers, &vec![Some(200), Some(200), Some(200)]);
    assert!(servers.iter().all(|s| s.is_healthy));
}

#[test]
fn a_probe_pass_leaves_servers_added_after_its_snapshot_alone() {
    let mut servers = vec![
        UpstreamServer::new(String::from("http://b0")),
        UpstreamServer::new(String::from("http://b1")),
    ];
    // Two servers were probed; a third was registered meanwhile.
    servers.push(UpstreamServer::new(String::from("http://b2")));
    apply_probe_results(&mut servers, &vec![None, None]);
    assert!(!servers[0].is_healthy);
    assert!(!servers[1].is_healthy);
    assert!(servers[2].is_healthy);
}
