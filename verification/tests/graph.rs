use spine::graph::compute_dependencies;
use spine::models::Service;

fn make_service(name: &str) -> Service {
    Service {
        name: name.to_string(),
        description: String::new(),
        github_repo: None,
        grpc_servers: vec![],
        grpc_clients: vec![],
        http_server: false,
        http_clients: vec![],
        queue_publishers: vec![],
        queue_subscribers: vec![],
        tables: vec![],
    }
}

#[test]
fn test_grpc_dependency() {
    let mut a = make_service("svc-a");
    a.grpc_clients = vec!["SvcB".to_string()];
    let mut b = make_service("svc-b");
    b.grpc_servers = vec!["SvcB".to_string()];

    let graph = compute_dependencies("svc-a", &[a, b]).unwrap();
    assert_eq!(graph.depends_on.len(), 1);
    assert_eq!(graph.depends_on[0].service, "svc-b");
    assert_eq!(graph.depends_on[0].relation, "grpc");
    assert_eq!(graph.depends_on[0].via, "SvcB");
}

#[test]
fn test_reverse_grpc_dependency() {
    let mut a = make_service("svc-a");
    a.grpc_clients = vec!["SvcB".to_string()];
    let mut b = make_service("svc-b");
    b.grpc_servers = vec!["SvcB".to_string()];

    let graph = compute_dependencies("svc-b", &[a, b]).unwrap();
    assert_eq!(graph.depended_by.len(), 1);
    assert_eq!(graph.depended_by[0].service, "svc-a");
}

#[test]
fn test_queue_dependency() {
    let mut a = make_service("svc-a");
    a.queue_subscribers = vec!["q1".to_string()];
    let mut b = make_service("svc-b");
    b.queue_publishers = vec!["q1".to_string()];

    let graph = compute_dependencies("svc-a", &[a, b]).unwrap();
    assert_eq!(graph.depends_on.len(), 1);
    assert_eq!(graph.depends_on[0].relation, "queue");
    assert_eq!(graph.depends_on[0].via, "q1");
}

#[test]
fn test_http_dependency() {
    let mut a = make_service("svc-a");
    a.http_clients = vec!["svc-b".to_string()];
    let mut b = make_service("svc-b");
    b.http_server = true;

    let graph = compute_dependencies("svc-a", &[a, b]).unwrap();
    assert_eq!(graph.depends_on.len(), 1);
    assert_eq!(graph.depends_on[0].relation, "http");
}

#[test]
fn test_no_dependencies() {
    let a = make_service("svc-a");
    let b = make_service("svc-b");

    let graph = compute_dependencies("svc-a", &[a, b]).unwrap();
    assert!(graph.depends_on.is_empty());
    assert!(graph.depended_by.is_empty());
}

#[test]
fn test_multiple_dependency_types() {
    let mut a = make_service("svc-a");
    a.grpc_clients = vec!["SvcB".to_string()];
    a.queue_subscribers = vec!["q1".to_string()];
    a.http_clients = vec!["svc-b".to_string()];

    let mut b = make_service("svc-b");
    b.grpc_servers = vec!["SvcB".to_string()];
    b.queue_publishers = vec!["q1".to_string()];
    b.http_server = true;

    let graph = compute_dependencies("svc-a", &[a, b]).unwrap();
    assert_eq!(graph.depends_on.len(), 3);
    let relations: Vec<&str> = graph.depends_on.iter().map(|d| d.relation.as_str()).collect();
    assert!(relations.contains(&"grpc"));
    assert!(relations.contains(&"queue"));
    assert!(relations.contains(&"http"));
}

#[test]
fn test_unknown_service_returns_none() {
    let a = make_service("svc-a");
    assert!(compute_dependencies("nonexistent", &[a]).is_none());
}

#[test]
fn dependencies_are_symmetric() {
    let mut a = make_service("svc-a");
    a.grpc_clients = vec!["SvcB".to_string(), "SvcC".to_string()];
    a.queue_publishers = vec!["q-out".to_string()];
    a.http_server = true;
    let mut b = make_service("svc-b");
    b.grpc_servers = vec!["SvcB".to_string()];
    b.http_clients = vec!["svc-a".to_string()];
    b.queue_subscribers = vec!["q-out".to_string()];
    let mut c = make_service("svc-c");
    c.grpc_servers = vec!["SvcC".to_string()];
    let all = vec![a, b, c];

    let ga = compute_dependencies("svc-a", &all).unwrap();
    let gb = compute_dependencies("svc-b", &all).unwrap();
    let gc = compute_dependencies("svc-c", &all).unwrap();
    let on: Vec<(&str, &str, &str)> = ga.depends_on.iter().map(|d| (d.service.as_str(), d.relation.as_str(), d.via.as_str())).collect();
    assert_eq!(on, vec![("svc-b", "grpc", "SvcB"), ("svc-c", "grpc", "SvcC")]);
    let by: Vec<(&str, &str, &str)> = ga.depended_by.iter().map(|d| (d.service.as_str(), d.relation.as_str(), d.via.as_str())).collect();
    assert_eq!(by, vec![("svc-b", "http", "svc-a"), ("svc-b", "queue", "q-out")]);
    let b_by: Vec<(&str, &str, &str)> = gb.depended_by.iter().map(|d| (d.service.as_str(), d.relation.as_str(), d.via.as_str())).collect();
    assert_eq!(b_by, vec![("svc-a", "grpc", "SvcB")]);
    let b_on: Vec<(&str, &str, &str)> = gb.depends_on.iter().map(|d| (d.service.as_str(), d.relation.as_str(), d.via.as_str())).collect();
    assert_eq!(b_on, vec![("svc-a", "http", "svc-a"), ("svc-a", "queue", "q-out")]);
    assert_eq!(gc.depended_by.len(), 1);
    assert_eq!(gc.depended_by[0].service, "svc-a");
    assert_eq!(gc.service, "svc-c");
}

#[test]
fn no_edge_to_the_service_itself() {
    let mut a = make_service("svc-a");
    a.grpc_servers = vec!["X".to_string()];
    a.grpc_clients = vec!["X".to_string()];
    a.http_server = true;
    a.http_clients = vec!["svc-a".to_string()];
    let g = compute_dependencies("svc-a", &[a]).unwrap();
    assert!(g.depends_on.is_empty());
    assert!(g.depended_by.is_empty());
}

#[test]
fn http_edge_needs_http_server() {
    let mut a = make_service("svc-a");
    a.http_clients = vec!["svc-b".to_string()];
    let b = make_service("svc-b");
    let g = compute_dependencies("svc-a", &[a, b]).unwrap();
    assert!(g.depends_on.is_empty());
}

#[test]
fn repeated_links_count_the_same_on_both_sides() {
    let mut a = make_service("svc-a");
    a.grpc_clients = vec!["SvcB".to_string(), "SvcB".to_string()];
    a.http_clients = vec!["svc-b".to_string(), "svc-b".to_string(), "svc-b".to_string()];
    let mut b = make_service("svc-b");
    b.grpc_servers = vec!["SvcB".to_string()];
    b.http_server = true;
    let all = vec![a, b];

    let ga = compute_dependencies("svc-a", &all).unwrap();
    let gb = compute_dependencies("svc-b", &all).unwrap();
    let count = |v: &Vec<spine::graph::Dependency>, s: &str, r: &str, via: &str| {
        v.iter().filter(|d| d.service == s && d.relation == r && d.via == via).count()
    };
    assert_eq!(count(&ga.depends_on, "svc-b", "grpc", "SvcB"), 2);
    assert_eq!(count(&gb.depended_by, "svc-a", "grpc", "SvcB"), 2);
    assert_eq!(count(&ga.depends_on, "svc-b", "http", "svc-b"), 3);
    assert_eq!(count(&gb.depended_by, "svc-a", "http", "svc-b"), 3);
}
