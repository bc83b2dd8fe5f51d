use localtunnel::acceptor::extract_subdomain;
use localtunnel::cli::cli_args_with_default_subcommand;
use localtunnel::client::{
    build_allocation_url, build_password_url, connection_target, default_max_conn_count,
    effective_conn_count, parse_remote_host, tunnel_server_info, ConnDriver, DriverAction,
    ProxyResponse,
};
use localtunnel::pump::{keepalive_config, pump_chunked};
use localtunnel::strutil::u16_to_string;
use localtunnel::subdomain::random_subdomain;
use localtunnel::types::AuthMode;

#[test]
fn allocation_urls() {
    assert_eq!(
        build_allocation_url(&None, &None, &None),
        "https://localtunnel.me/?new"
    );
    assert_eq!(
        build_allocation_url(
            &Some("http://lt.example.com/".to_string()),
            &Some("demo".to_string()),
            &None
        ),
        "http://lt.example.com/demo"
    );
    assert_eq!(
        build_allocation_url(
            &Some("http://lt.example.com".to_string()),
            &Some("demo".to_string()),
            &Some("hunter2".to_string())
        ),
        "http://lt.example.com/demo?credential=hunter2"
    );
    // A sentinel path already holds a query marker, so the credential is
    // appended with an ampersand.
    assert_eq!(
        build_allocation_url(&None, &None, &Some("hunter2".to_string())),
        "https://localtunnel.me/?new&credential=hunter2"
    );
    assert_eq!(
        build_password_url(&Some("http://lt.example.com//".to_string())),
        "http://lt.example.com/mytunnelpassword"
    );
}

#[test]
fn remote_host_parsing() {
    assert_eq!(
        parse_remote_host("https://localtunnel.me").unwrap(),
        "localtunnel.me"
    );
    assert_eq!(
        parse_remote_host("http://lt.example.com:8080/path").unwrap(),
        "lt.example.com"
    );
    // No scheme: the URL parser refuses, the fallback reads up to the slash.
    assert_eq!(parse_remote_host("lt.example.com/x").unwrap(), "lt.example.com");
    assert!(parse_remote_host("").is_none());
}

#[test]
fn server_info_derives_host_and_copies_descriptor() {
    let resp = ProxyResponse {
        id: "demo".to_string(),
        port: 40001,
        max_conn_count: 4,
        url: "http://demo.test.local".to_string(),
        cached_url: None,
        ip: Some("10.0.0.1".to_string()),
    };
    let info = tunnel_server_info(resp, &Some("http://test.local:4000/".to_string()));
    assert_eq!(info.remote_host, "test.local");
    assert_eq!(info.remote_port, 40001);
    assert_eq!(info.remote_ip.as_deref(), Some("10.0.0.1"));
    assert_eq!(info.max_conn_count, 4);
    assert_eq!(info.url, "http://demo.test.local");

    // The descriptor's IP, when present, wins over the derived host.
    assert_eq!(
        connection_target(&info.remote_host, &info.remote_ip, info.remote_port),
        "10.0.0.1:40001"
    );
    assert_eq!(
        connection_target(&info.remote_host, &None, info.remote_port),
        "test.local:40001"
    );
}

#[test]
fn connection_count_and_defaults() {
    assert_eq!(default_max_conn_count(), 1);
    assert_eq!(effective_conn_count(10, 2), 2);
    assert_eq!(effective_conn_count(1, 8), 1);
    let ka = keepalive_config();
    assert_eq!(ka.time_secs, 30);
    assert_eq!(ka.interval_secs, 10);
    assert_eq!(ka.retries, 5);
}

#[test]
fn decimal_formatting() {
    assert_eq!(u16_to_string(0), "0");
    assert_eq!(u16_to_string(7), "7");
    assert_eq!(u16_to_string(4001), "4001");
    assert_eq!(u16_to_string(65535), "65535");
}

#[test]
fn driver_caps_workers_and_stops_on_shutdown() {
    let mut driver = ConnDriver::new(2);
    assert_eq!(driver.poll(), DriverAction::SpawnWorker);
    assert_eq!(driver.poll(), DriverAction::SpawnWorker);
    // Both permits are taken: no third worker may start.
    assert_eq!(driver.poll(), DriverAction::Wait);
    assert!(driver.has_active());
    driver.worker_done();
    assert_eq!(driver.poll(), DriverAction::SpawnWorker);

    // After the shutdown signal no new outbound dial is started.
    driver.signal_shutdown();
    assert_eq!(driver.poll(), DriverAction::Stop);
    assert_eq!(driver.poll(), DriverAction::Stop);
}

#[test]
fn pump_round_trip_echoes_one_mebibyte() {
    let request: Vec<u8> = (0..1048576u32).map(|i| (i % 251) as u8).collect();
    // User bytes delivered to the paired agent socket, in order, unmodified.
    let to_agent = pump_chunked(&request, 8192);
    assert_eq!(to_agent, request);
    // The local service echoes; the reply pumps back unchanged.
    let echoed = to_agent;
    let to_user = pump_chunked(&echoed, 8192);
    assert_eq!(to_user, request);
}

#[test]
fn pump_handles_partial_chunks() {
    let data: Vec<u8> = vec![1, 2, 3, 4, 5];
    assert_eq!(pump_chunked(&data, 2), data);
    assert_eq!(pump_chunked(&Vec::new(), 8192), Vec::<u8>::new());
}

#[test]
fn cli_default_subcommand() {
    let args = |v: &[&str]| v.iter().map(|s| s.to_string()).collect::<Vec<_>>();
    assert_eq!(
        cli_args_with_default_subcommand(args(&["lt"])),
        args(&["lt", "client"])
    );
    assert_eq!(
        cli_args_with_default_subcommand(args(&["lt", "--port", "3000"])),
        args(&["lt", "client", "--port", "3000"])
    );
    assert_eq!(
        cli_args_with_default_subcommand(args(&["lt", "server", "--domain", "x"])),
        args(&["lt", "server", "--domain", "x"])
    );
    assert_eq!(
        cli_args_with_default_subcommand(args(&["lt", "-h"])),
        args(&["lt", "-h"])
    );
    assert_eq!(
        cli_args_with_default_subcommand(args(&["lt", "--version"])),
        args(&["lt", "--version"])
    );
}

#[test]
fn auth_mode_names_and_default() {
    assert_eq!(AuthMode::default(), AuthMode::NOAUTH);
    assert_eq!(AuthMode::NOAUTH.name(), "NOAUTH");
    assert_eq!(AuthMode::CLOUDFLARE.name(), "CLOUDFLARE");
    assert_eq!(AuthMode::PLAINTEXT.name(), "PLAINTEXT");
}

#[test]
fn random_labels_follow_the_seed() {
    assert_eq!(random_subdomain(&vec![0, 1, 2, 3, 4, 5, 6, 7]), "abcdefgh");
    assert_eq!(
        random_subdomain(&vec![26, 35, 36, 71, 255, 0, 25, 9]),
        "09a9dazj"
    );
}

#[test]
fn host_header_demux() {
    let head = "GET / HTTP/1.1\r\nHost: demo.test.local:4001\r\nAccept: */*\r\n\r\n";
    assert_eq!(extract_subdomain(head).unwrap(), "demo");

    let lower = "GET / HTTP/1.1\r\nhost:   lt.example.com  \r\n\r\n";
    assert_eq!(extract_subdomain(lower).unwrap(), "lt");

    let single = "GET / HTTP/1.1\r\nHost: localhost\r\n\r\n";
    assert_eq!(extract_subdomain(single).unwrap(), "localhost");

    let none = "GET / HTTP/1.1\r\nAccept: */*\r\n\r\n";
    assert!(extract_subdomain(none).is_none());

    let empty_label = "GET / HTTP/1.1\r\nHost: .test.local\r\n\r\n";
    assert!(extract_subdomain(empty_label).is_none());
}
