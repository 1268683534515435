use jhp::route::{after_lookup, executor_index, read_failed, render_reply, route_request, static_reply};
use jhp::{parse_host_port, Action, DocumentRoot, EngineConfig};

#[test]
fn default_config_values() {
    let c = EngineConfig::default();
    assert_eq!(c.host, "127.0.0.1");
    assert_eq!(c.port, 3000);
    assert_eq!(c.document_root, "jhp-tests");
    assert_eq!(c.index_file, "index.jhp");
    assert_eq!(c.extensions_dir, "ext");
    assert_eq!(c.addr(), "127.0.0.1:3000");
}

#[test]
fn index_path_joins_root_and_index() {
    let c = EngineConfig::default();
    assert_eq!(c.index_path(), "jhp-tests/index.jhp");
    let h = c.http();
    assert_eq!(h.index_path(), "jhp-tests/index.jhp");
    assert_eq!(h.addr(), "127.0.0.1:3000");
}

#[test]
fn setters_replace_one_field() {
    let c = EngineConfig::default().set_document_root("www").set_extensions_dir("/opt/ext");
    assert_eq!(c.document_root, "www");
    assert_eq!(c.extensions_dir, "/opt/ext");
    assert_eq!(c.index_file, "index.jhp");
    assert_eq!(c.index_path(), "www/index.jhp");
}

#[test]
fn address_with_small_and_large_ports() {
    let mut c = EngineConfig::default();
    c.host = "::1".to_string();
    c.port = 0;
    assert_eq!(c.addr(), "::1:0");
    c.port = 65535;
    assert_eq!(c.addr(), "::1:65535");
}

#[test]
fn document_root_paths() {
    let d = DocumentRoot::new("root".to_string(), "home.jhp".to_string());
    assert_eq!(d.index_name(), "home.jhp");
    assert_eq!(d.index_path(), "root/home.jhp");
    assert_eq!(d.root(), "root");
}

#[test]
fn host_port_plain() {
    assert_eq!(parse_host_port("127.0.0.1:3000"), Ok(("127.0.0.1".to_string(), 3000)));
    assert_eq!(parse_host_port("a:b:8080"), Ok(("a:b".to_string(), 8080)));
    assert_eq!(parse_host_port(":80"), Ok(("".to_string(), 80)));
    assert_eq!(parse_host_port("h:+80"), Ok(("h".to_string(), 80)));
}

#[test]
fn host_port_ipv6() {
    assert_eq!(parse_host_port("[::1]:3000"), Ok(("::1".to_string(), 3000)));
    assert_eq!(parse_host_port("[::1]3000"), Err("missing port after IPv6 host".to_string()));
    assert_eq!(parse_host_port("[::1"), Err("invalid bracketed IPv6 address".to_string()));
    assert_eq!(parse_host_port("[::1]:x"), Err("invalid port".to_string()));
}

#[test]
fn host_port_errors() {
    assert_eq!(parse_host_port("localhost"), Err("missing host".to_string()));
    assert_eq!(parse_host_port("h:99999"), Err("invalid port".to_string()));
    assert_eq!(parse_host_port("h:65536"), Err("invalid port".to_string()));
    assert_eq!(parse_host_port("h:"), Err("invalid port".to_string()));
    assert_eq!(parse_host_port("h:-1"), Err("invalid port".to_string()));
    assert_eq!(parse_host_port("h:+"), Err("invalid port".to_string()));
}

#[test]
fn root_paths_render_the_index() {
    assert!(matches!(route_request("", "index.jhp"), Action::ReadIndex));
    assert!(matches!(route_request("/", "index.jhp"), Action::ReadIndex));
    assert!(matches!(route_request("//", "index.jhp"), Action::ReadIndex));
    assert!(matches!(route_request("/index.jhp", "index.jhp"), Action::ReadIndex));
}

#[test]
fn climbing_paths_are_refused() {
    match route_request("/a/../secret", "index.jhp") {
        Action::Respond(r) => {
            assert_eq!(r.status, 403);
            assert_eq!(r.body, "Invalid path");
        }
        _ => panic!("expected a refusal"),
    }
}

#[test]
fn other_paths_are_looked_up() {
    match route_request("/p.jhp", "index.jhp") {
        Action::CheckExists(rel) => assert_eq!(rel, "p.jhp"),
        _ => panic!("expected a lookup"),
    }
    match route_request("docs/a.html", "index.jhp") {
        Action::CheckExists(rel) => assert_eq!(rel, "docs/a.html"),
        _ => panic!("expected a lookup"),
    }
}

#[test]
fn lookup_outcomes() {
    match after_lookup("p.jhp".to_string(), false) {
        Action::Respond(r) => {
            assert_eq!(r.status, 404);
            assert_eq!(r.body, "Cannot get '/p.jhp': File Not Found");
        }
        _ => panic!("expected 404"),
    }
    assert!(matches!(after_lookup("p.jhp".to_string(), true), Action::ReadTemplate(p) if p == "p.jhp"));
    assert!(matches!(after_lookup("s.css".to_string(), true), Action::ReadStatic(p) if p == "s.css"));
}

#[test]
fn replies() {
    let r = read_failed(true);
    assert_eq!((r.status, r.body.as_str()), (404, "Cannot get '/': File Not Found"));
    let r = read_failed(false);
    assert_eq!((r.status, r.body.as_str()), (500, "Failed to read file"));
    let r = render_reply(None);
    assert_eq!((r.status, r.body.as_str()), (503, "Executor unavailable"));
    let r = render_reply(Some("A3B".to_string()));
    assert_eq!((r.status, r.body.as_str()), (200, "A3B"));
    let r = static_reply("<p>".to_string());
    assert_eq!((r.status, r.body.as_str()), (200, "<p>"));
}

#[test]
fn round_robin_dispatch() {
    let picks: Vec<usize> = (0..6).map(|t| executor_index(t, 4)).collect();
    assert_eq!(picks, vec![0, 1, 2, 3, 0, 1]);
    assert_eq!(executor_index(7, 0), 0);
}
