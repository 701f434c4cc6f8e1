use rsnova::admin::{
    handle_config_save, render_config_page, respond, respond_to_bytes, PageAssets, SaveError,
};
use rsnova::app_config::{ReloadableConfig, StaticArgs};
use rsnova::form::{extract_body, html_escape, parse_form_value, url_decode};
use rsnova::init_dir::{
    default_cert_path, default_key_path, init_data_dir_noninteractive, rcgen, rcgen_current_dir,
    read_text, read_yes_no, render_client_tunnel_toml, render_server_toml, split_tunnels,
    use_docker_data_paths, InitFile, OutputDir, Present,
};
use rsnova::mux::event::TunnelEntry;
use rsnova::service::{
    log_target, plan_service, Args, LogTarget, Remote, Role, Service, ServiceError,
    WindowOutOfRange,
};
use rsnova::stat::{
    debug_page, dec_alive_relay_sessions, dump_stat, inc_alive_relay_sessions, inc_alive_streams,
    next_connection_id, next_relay_id, set_alive_conns, set_retired_streams, signed_decimal, Stat,
};
use rsnova::tunnel_config::{parse_port_range, parse_tunnel_arg, TunnelArgError};
use rsnova::wizard::{Act, Question, Wizard};

#[test]
fn form_bodies_are_taken_apart() {
    assert_eq!(extract_body("POST / HTTP/1.1\r\nA: b\r\n\r\nx=1"), "x=1");
    assert_eq!(extract_body("no blank line"), "");
    assert_eq!(url_decode("a+b%20c%3d"), "a b c=");
    assert_eq!(url_decode("%e4%bd%a0"), "\u{4f60}");
    assert_eq!(url_decode("%ff"), "\u{fffd}");
    assert_eq!(parse_form_value("a=1&b=two+x&b=3", "b"), Some("two x".to_string()));
    assert_eq!(parse_form_value("a=1", "c"), None);
    assert_eq!(html_escape("<a href=\"x\">&"), "&lt;a href=&quot;x&quot;&gt;&amp;");
}

fn entry(e: &TunnelEntry) -> (String, u16, Option<String>) {
    (e.local_addr.clone(), e.remote_port, e.sni.clone())
}

#[test]
fn tunnel_entries_are_read() {
    let read = |s: &str| parse_tunnel_arg(s).map(|e| entry(&e));
    assert_eq!(read("8080"), Ok(("localhost:8080".to_string(), 8080, None)));
    assert_eq!(read("80:8080"), Ok(("localhost:80".to_string(), 8080, None)));
    assert_eq!(read("h:80:81"), Ok(("h:80".to_string(), 81, None)));
    assert_eq!(
        read("h:80:81:a.com"),
        Ok(("h:80".to_string(), 81, Some("a.com".to_string())))
    );
    assert_eq!(read("[::1]:80:81"), Ok(("[::1]:80".to_string(), 81, None)));
    assert_eq!(
        read("[::1]:80:81:a.com"),
        Ok(("[::1]:80".to_string(), 81, Some("a.com".to_string())))
    );
    assert_eq!(read("70000"), Err(TunnelArgError::Port));
    assert_eq!(read("a:b:c:d:e"), Err(TunnelArgError::Format));
    assert_eq!(read("h:80:81:"), Err(TunnelArgError::Format));
    assert_eq!(TunnelArgError::Port.message(), "invalid tunnel port");
}

#[test]
fn port_ranges_are_read() {
    assert_eq!(parse_port_range("8000-9000"), Ok(vec![(8000, 9000)]));
    assert_eq!(parse_port_range("1-2,5-5"), Ok(vec![(1, 2), (5, 5)]));
    assert_eq!(parse_port_range("9-8"), Err(TunnelArgError::Range));
    assert_eq!(parse_port_range("x-8"), Err(TunnelArgError::Port));
}

fn settings() -> ReloadableConfig {
    ReloadableConfig {
        tunnel_entries: Vec::new(),
        tunnel_client_id: "id".to_string(),
    }
}

fn args() -> StaticArgs {
    StaticArgs {
        listen: "0.0.0.0:1".to_string(),
        role: "client".to_string(),
        is_tunnel: true,
        remote: Some("tls://<h>:1".to_string()),
        key: String::new(),
        cert: "c".to_string(),
        tls_host: "t".to_string(),
        concurrent: 5,
        threads: 2,
        idle_timeout_secs: 3,
        max_connections: 4,
        admin_listen: "a".to_string(),
        tproxy: false,
    }
}

fn assets() -> PageAssets {
    PageAssets {
        template: "{{CSS}}|{{ROLE_LABEL}}|{{ADMIN_LISTEN}}|{{CONNECTION_FIELDS}}|{{TUNNEL_SECTION}}|{{ALERT}}".to_string(),
        css: "CSS".to_string(),
    }
}

#[test]
fn saved_settings_are_taken() {
    let mut c = settings();
    assert_eq!(
        handle_config_save(&mut c, "tunnel=80%3A8080%0A%0A9&tunnel_client_id=me"),
        Ok(())
    );
    assert_eq!(c.tunnel_client_id, "me");
    assert_eq!(c.tunnel_entries.len(), 2);
    assert_eq!(c.tunnel_entries[0].remote_port, 8080);
    let missing = handle_config_save(&mut c, "tunnel=80&tunnel_client_id=");
    assert_eq!(missing, Err(SaveError::ClientId));
    assert_eq!(
        SaveError::ClientId.message(),
        "tunnel_client_id is required when tunnel entries are specified"
    );
    assert_eq!(
        handle_config_save(&mut c, "tunnel=x&tunnel_client_id=me"),
        Err(SaveError::Entry(TunnelArgError::Port))
    );
    assert_eq!(c.tunnel_client_id, "me");
    assert_eq!(c.tunnel_entries.len(), 2);
}

#[test]
fn endpoints_are_answered() {
    let mut c = settings();
    let s = args();
    let a = assets();
    let metrics = respond("GET /metrics HTTP/1.1\r\n\r\n", "m 1", &a, &s, &mut c);
    assert_eq!((metrics.status, metrics.body.as_str()), ("200 OK", "m 1"));
    assert_eq!(metrics.content_type, "text/plain; charset=utf-8");
    let none = respond("GET /x HTTP/1.1\r\n\r\n", "", &a, &s, &mut c);
    assert_eq!(none.status, "404 Not Found");
    let index = respond("GET / HTTP/1.1\r\n\r\n", "", &a, &s, &mut c);
    assert!(index.body.starts_with("rsnova admin server"));
    let page = respond("GET /config HTTP/1.1\r\n\r\n", "", &a, &s, &mut c);
    assert!(page.body.starts_with("CSS|Client (Tunnel)|a|<div"));
    assert!(!page.body.contains("<h>"));
    assert!(!page.reload);
    let saved = respond_to_bytes(
        b"POST /config HTTP/1.1\r\n\r\ntunnel=80&tunnel_client_id=me",
        "",
        &a,
        &s,
        &mut c,
    );
    assert!(saved.reload);
    assert!(saved.body.contains("Configuration saved. Tunnel client will reconnect."));
    assert_eq!(c.tunnel_client_id, "me");
    let refused = respond_to_bytes(
        b"POST /config HTTP/1.1\r\n\r\ntunnel=80&tunnel_client_id=",
        "",
        &a,
        &s,
        &mut c,
    );
    assert!(!refused.reload);
    assert!(refused.body.contains("Error: tunnel_client_id is required"));
    let (head, body) = index.to_bytes();
    let head = String::from_utf8(head).unwrap();
    assert!(head.starts_with("HTTP/1.1 200 OK\r\n"));
    assert!(head.contains(&format!("Content-Length: {}", body.len())));
    assert!(render_config_page(&a, &s, &c, Some("note"))
        .ends_with("|<div class=\"alert alert-success\">note</div>"));
}

fn data_dir(root: bool, name: Option<&str>) -> OutputDir {
    OutputDir {
        is_data_root: root,
        file_name: name.map(String::from),
        cert_pem: "out/cert.pem".to_string(),
        key_pem: "out/key.pem".to_string(),
    }
}

fn present(certs: bool, files: bool) -> Present {
    Present {
        certs,
        server: files,
        client_proxy: files,
        client_tunnel: files,
    }
}

#[test]
fn data_paths_depend_on_the_directory() {
    assert!(use_docker_data_paths(&data_dir(true, None)));
    assert!(use_docker_data_paths(&data_dir(false, Some("rsnova_data"))));
    assert!(use_docker_data_paths(&data_dir(false, Some("data"))));
    let other = data_dir(false, Some("x"));
    assert!(!use_docker_data_paths(&other));
    assert_eq!(default_cert_path(&other), "out/cert.pem");
    assert_eq!(default_key_path(&other), "out/key.pem");
    assert_eq!(default_cert_path(&data_dir(true, None)), "/data/cert.pem");
    assert_eq!(default_key_path(&data_dir(true, None)), "/data/key.pem");
}

#[test]
fn certificates_are_kept_unless_forced() {
    let dir = data_dir(false, Some("x"));
    assert!(rcgen(&dir, "h", false, true).is_none());
    assert!(rcgen(&dir, "h", true, true).is_some());
    let plan = rcgen(&dir, "h", false, false).unwrap();
    assert_eq!((plan.cert_pem.as_str(), plan.key_pem.as_str()), ("out/cert.pem", "out/key.pem"));
    assert_eq!(plan.tls_host, "h");
    assert_eq!(rcgen_current_dir("h").cert_pem, "./cert.pem");
}

#[test]
fn configuration_files_are_rendered() {
    let s = render_server_toml("c", "k", "l", "a", "1-2");
    assert!(s.contains("role = \"server\"\nlisten = \"l\"\nadmin_listen = \"a\"\ncert = \"c\"\nkey = \"k\"\ntunnel_port_range = \"1-2\"\n"));
    let t = render_client_tunnel_toml(
        "h",
        "c",
        "r",
        "a",
        "id",
        &vec!["80".to_string(), "81:82".to_string()],
    );
    assert!(t.contains("[\"80\", \"81:82\"]"));
}

#[test]
fn nothing_that_is_there_is_replaced_unasked() {
    let dir = data_dir(true, None);
    let kept = init_data_dir_noninteractive(&dir, "h", false, present(true, true));
    assert!(kept.certs.is_none() && kept.server.is_none());
    assert!(kept.client_proxy.is_none() && kept.client_tunnel.is_none());
    let all = init_data_dir_noninteractive(&dir, "h", false, present(false, false));
    assert!(all.certs.is_some() && all.client_tunnel.is_some());
    assert!(all.server.unwrap().contains("/data/cert.pem"));
    assert!(all.client_proxy.unwrap().contains("tls://server:48100"));
}

#[test]
fn answers_are_read() {
    assert_eq!(read_yes_no("", true), Some(true));
    assert_eq!(read_yes_no("\n", false), Some(false));
    assert_eq!(read_yes_no(" Y\n", false), Some(true));
    assert_eq!(read_yes_no("no\n", true), Some(false));
    assert_eq!(read_yes_no("maybe", true), None);
    assert_eq!(read_text(" x \n", "d"), "x");
    assert_eq!(read_text("\n", "d"), "d");
    assert_eq!(split_tunnels(" 80 ,, 81:82"), vec!["80", "81:82"]);
}

#[test]
fn wizard_asks_and_writes() {
    let dir = data_dir(true, None);
    let mut w = Wizard::new(&dir, "host", false, present(true, false));
    assert!(matches!(w.question(), Question::YesNo(q, true) if q == "Existing certificates found. Reuse them?"));
    assert!(matches!(w.answer("what"), Act::Again));
    assert!(matches!(w.answer("y"), Act::Say(s) if s == "Reusing existing certificates."));
    assert!(matches!(w.question(), Question::YesNo(q, true) if q == "Generate server.toml?"));
    assert!(matches!(w.answer("n"), Act::Nothing));
    assert!(matches!(w.answer("y"), Act::Nothing));
    for _ in 0..4 {
        assert!(matches!(w.answer(""), Act::Nothing));
    }
    match w.answer("") {
        Act::Write(InitFile::ClientProxy, text) => {
            assert!(text.contains("remote = \"tls://server:48100\""));
            assert!(text.contains("tls_host = \"host\""));
        }
        _ => panic!("the file is complete"),
    }
    assert!(matches!(w.answer("y"), Act::Say(_)));
    for line in ["", "", "", "me", " , ,"] {
        assert!(matches!(w.answer(line), Act::Nothing));
    }
    assert!(matches!(w.answer(""), Act::Fail));
    assert!(w.is_done());
    assert!(matches!(w.question(), Question::Nothing));
}

#[test]
fn wizard_makes_certificates() {
    let dir = data_dir(true, None);
    let mut w = Wizard::new(&dir, "host", false, present(false, true));
    assert!(matches!(w.answer(""), Act::Nothing));
    assert!(matches!(w.question(), Question::Text(_, d) if d == "host"));
    assert!(matches!(w.answer("other"), Act::Certs(h, false) if h == "other"));
    assert!(matches!(w.question(), Question::YesNo(q, false) if q == "server.toml already exists. Overwrite?"));
    assert!(matches!(w.answer(""), Act::Say(s) if s == "Skipping server.toml."));
}

fn service_args(role: Role, scheme: &str) -> Args {
    Args {
        listen: "l".to_string(),
        listen_port: 48100,
        admin_listen: "a".to_string(),
        admin_port: 48102,
        role,
        remote: Some(Remote {
            url: format!("{}://h", scheme),
            scheme: scheme.to_string(),
        }),
        key: String::new(),
        cert: String::new(),
        tls_host: String::new(),
        concurrent: 1,
        threads: 1,
        idle_timeout_secs: 1,
        mux_stream_window: 262144,
        max_connections: 1,
        tproxy: false,
        tunnel: Vec::new(),
        tunnel_client_id: String::new(),
        tunnel_port_range: String::new(),
    }
}

#[test]
fn services_are_planned() {
    let plan = plan_service(&service_args(Role::Client, "tls")).unwrap();
    assert!(matches!(plan.service, Service::TlsProxy));
    let plan = plan_service(&service_args(Role::Client, "quic")).unwrap();
    assert!(matches!(plan.service, Service::QuicProxy));
    assert!(matches!(
        plan_service(&service_args(Role::Client, "ftp")),
        Err(ServiceError::Scheme)
    ));
    let mut lone = service_args(Role::Client, "tls");
    lone.remote = None;
    assert!(matches!(plan_service(&lone), Err(ServiceError::NoRemote)));
    lone.tunnel = vec!["80".to_string()];
    assert!(matches!(plan_service(&lone), Err(ServiceError::ClientId)));
    lone.mux_stream_window = 1;
    assert!(matches!(plan_service(&lone), Err(ServiceError::Window)));
    let mut a = service_args(Role::Client, "ftp");
    a.tunnel = vec!["80".to_string()];
    assert!(matches!(plan_service(&a), Err(ServiceError::ClientId)));
    a.tunnel_client_id = "me".to_string();
    let plan = plan_service(&a).unwrap();
    assert!(matches!(plan.service, Service::TunnelClient));
    assert_eq!(plan.reloadable.tunnel_entries.len(), 1);
    assert!(plan.static_args.is_tunnel);
    a.tunnel = vec!["x".to_string()];
    assert!(matches!(
        plan_service(&a),
        Err(ServiceError::Tunnel(TunnelArgError::Port))
    ));
    let mut s = service_args(Role::Server, "tls");
    s.tunnel_port_range = "1-2".to_string();
    match plan_service(&s).unwrap().service {
        Service::Server { ranges, reserved } => {
            assert_eq!(ranges, Some(vec![(1, 2)]));
            assert_eq!(reserved, vec![48100, 48102]);
        }
        _ => panic!("a server is planned"),
    }
    s.tunnel_port_range = "2-1".to_string();
    assert!(matches!(
        plan_service(&s),
        Err(ServiceError::PortRange(TunnelArgError::Range))
    ));
    s.mux_stream_window = 1;
    assert!(matches!(plan_service(&s), Err(ServiceError::Window)));
    assert!(!WindowOutOfRange.message().is_empty());
}

#[test]
fn logs_go_to_the_terminal_or_a_file() {
    assert!(matches!(log_target(false, ""), LogTarget::Terminal));
    assert!(matches!(log_target(false, "x.log"), LogTarget::Daily(f) if f == "x.log"));
}

#[test]
fn counters_are_shown() {
    let mut s = Stat::new();
    assert_eq!(inc_alive_relay_sessions(&mut s), 0);
    assert_eq!(dec_alive_relay_sessions(&mut s), 1);
    assert_eq!(s.alive_relay_sessions, 0);
    set_alive_conns(&mut s, 3);
    set_retired_streams(&mut s, 4);
    inc_alive_streams(&mut s, 2);
    let first = next_relay_id(&mut s);
    assert_eq!(next_relay_id(&mut s), first.wrapping_add(1));
    let conn = next_connection_id(&mut s);
    assert_eq!(next_connection_id(&mut s), conn.wrapping_add(1));
    assert_eq!(
        dump_stat(&s),
        "===========Period Dump Stat=============\n    alive_relay_sessions:0\n    alive_conns:3\n    retired_conns:0\n    alive_streams:2\n    retired_streams:4\n"
    );
    assert_eq!(signed_decimal(-2147483648), "-2147483648");
    assert_eq!(debug_page("/stat", "s"), "s");
    assert_eq!(debug_page("/", "s"), "hello world");
}
