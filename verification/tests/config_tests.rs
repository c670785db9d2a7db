use auth_gateway::config::{
    default_auth_address, parse_address, resolve_config, AppConfig, IpAddress,
    RawAuthServiceConfig, RawConfig, RawServerConfig, RawTlsConfig, ServerAddress,
};
use auth_gateway::errors::GatewayError;
use auth_gateway::logger::{level_filter_of, LogLevel};

fn raw(address: &str) -> RawConfig {
    RawConfig {
        server: RawServerConfig {
            name: String::from("gateway_service"),
            log_level: Some(String::from("info")),
            address: String::from(address),
        },
        tls: Some(RawTlsConfig {
            cert_path: Some(String::from("certs/server.crt")),
            key_path: Some(String::from("certs/server.key")),
        }),
        auth_service: Some(RawAuthServiceConfig {
            address: String::from("http://127.0.0.1:50056"),
        }),
    }
}

fn v4(octets: [u8; 4], port: u16) -> ServerAddress {
    ServerAddress {
        ip: IpAddress::V4(octets),
        port,
    }
}

fn v6(segments: [u16; 8], scope_id: u32, port: u16) -> ServerAddress {
    ServerAddress {
        ip: IpAddress::V6 {
            segments: segments.to_vec(),
            scope_id,
        },
        port,
    }
}

#[test]
fn parse_address_accepts_dotted_quad() {
    assert_eq!(parse_address("127.0.0.1:50053").unwrap(), v4([127, 0, 0, 1], 50053));
}

#[test]
fn parse_address_boundaries() {
    assert_eq!(
        parse_address("255.255.255.255:65535").unwrap(),
        v4([255, 255, 255, 255], 65535)
    );
    assert_eq!(parse_address("0.0.0.0:0").unwrap(), v4([0, 0, 0, 0], 0));
}

#[test]
fn parse_address_allows_leading_zeros_in_port() {
    assert_eq!(parse_address("127.0.0.1:00080").unwrap(), v4([127, 0, 0, 1], 80));
    assert!(parse_address("127.0.0.1:000080").is_none());
}

#[test]
fn parse_address_accepts_ipv6_loopback() {
    assert_eq!(
        parse_address("[::1]:8080").unwrap(),
        v6([0, 0, 0, 0, 0, 0, 0, 1], 0, 8080)
    );
}

#[test]
fn parse_address_accepts_compressed_ipv6() {
    assert_eq!(
        parse_address("[2001:db8::ff00:42:8329]:443").unwrap(),
        v6([0x2001, 0x0db8, 0, 0, 0, 0xff00, 0x0042, 0x8329], 0, 443)
    );
    assert_eq!(parse_address("[::]:80").unwrap(), v6([0; 8], 0, 80));
    assert_eq!(
        parse_address("[1:2:3:4:5:6:7::]:9").unwrap(),
        v6([1, 2, 3, 4, 5, 6, 7, 0], 0, 9)
    );
}

#[test]
fn parse_address_accepts_full_ipv6() {
    assert_eq!(
        parse_address("[1:2:3:4:5:6:7:8]:9").unwrap(),
        v6([1, 2, 3, 4, 5, 6, 7, 8], 0, 9)
    );
    assert_eq!(
        parse_address("[1::]:80").unwrap(),
        v6([1, 0, 0, 0, 0, 0, 0, 0], 0, 80)
    );
    assert_eq!(
        parse_address("[FE80::A]:80").unwrap(),
        v6([0xfe80, 0, 0, 0, 0, 0, 0, 0xa], 0, 80)
    );
}

#[test]
fn parse_address_accepts_embedded_quad() {
    assert_eq!(
        parse_address("[::ffff:192.168.0.1]:80").unwrap(),
        v6([0, 0, 0, 0, 0, 0xffff, 0xc0a8, 0x0001], 0, 80)
    );
}

#[test]
fn parse_address_accepts_scope_identifier() {
    assert_eq!(
        parse_address("[fe80::1%2]:80").unwrap(),
        v6([0xfe80, 0, 0, 0, 0, 0, 0, 1], 2, 80)
    );
    assert_eq!(
        parse_address("[fe80::1%00000000000000001]:80").unwrap(),
        v6([0xfe80, 0, 0, 0, 0, 0, 0, 1], 1, 80)
    );
}

#[test]
fn parse_address_rejects_malformed_forms() {
    let cases = [
        "",
        "127.0.0.1",
        "127.0.0:80",
        "127.0.0.256:80",
        "127.0.0.1:65536",
        "127.0.0.01:80",
        "127.0.0.1:80x",
        "a.b.c.d:80",
        " 127.0.0.1:80",
        "127.0.0.1:80 ",
        "127.0.0.1:",
        "[::1]",
        "[::1]:",
        "[1::2::3]:80",
        "[12345::1]:80",
        "[1.2.3.4]:80",
        "[1:2:3:4:5:6:7:8:9]:80",
        "[1:2:3:4:5:6:7:8::]:80",
        "[1:2:3:4:5:6:7]:80",
        "[1.2.3.4::]:80",
        "[::1]:65536",
        "[fe80::1%]:80",
        "[fe80::1%4294967296]:80",
        "::1:80",
    ];
    for case in cases {
        assert!(parse_address(case).is_none(), "accepted {:?}", case);
    }
}

#[test]
fn resolve_config_carries_fields_over() {
    let resolved: AppConfig = resolve_config(raw("0.0.0.0:8443")).unwrap();
    assert_eq!(resolved.address, v4([0, 0, 0, 0], 8443));
    assert_eq!(resolved.service_name, "gateway_service");
    assert_eq!(resolved.log_level, "info");
    assert_eq!(resolved.tls_cert_path.as_deref(), Some("certs/server.crt"));
    assert_eq!(resolved.tls_key_path.as_deref(), Some("certs/server.key"));
    assert_eq!(
        resolved.auth_service_address.as_deref(),
        Some("http://127.0.0.1:50056")
    );
}

#[test]
fn resolve_config_accepts_ipv6_listen_address() {
    let resolved = resolve_config(raw("[::1]:8443")).unwrap();
    assert_eq!(resolved.address, v6([0, 0, 0, 0, 0, 0, 0, 1], 0, 8443));
}

#[test]
fn resolve_config_defaults_absent_log_level_to_info() {
    let mut r = raw("127.0.0.1:50051");
    r.server.log_level = None;
    let resolved = resolve_config(r).unwrap();
    assert_eq!(resolved.log_level, "info");
}

#[test]
fn resolve_config_without_optional_tables() {
    let mut r = raw("10.0.0.2:50051");
    r.tls = None;
    r.auth_service = None;
    let resolved = resolve_config(r).unwrap();
    assert_eq!(resolved.address, v4([10, 0, 0, 2], 50051));
    assert!(resolved.tls_cert_path.is_none());
    assert!(resolved.tls_key_path.is_none());
    assert!(resolved.auth_service_address.is_none());
}

#[test]
fn resolve_config_rejects_malformed_address() {
    let r = raw("localhost:50051");
    match resolve_config(r) {
        Err(GatewayError::ConfigError(m)) => {
            assert_eq!(m, "invalid server address: localhost:50051");
        }
        _ => panic!("a malformed address must fail resolution"),
    }
}

#[test]
fn default_auth_address_is_loopback() {
    assert_eq!(default_auth_address(), "http://127.0.0.1:50056");
}

#[test]
fn log_levels_are_case_insensitive_with_info_default() {
    assert_eq!(level_filter_of("debug"), LogLevel::Debug);
    assert_eq!(level_filter_of("DEBUG"), LogLevel::Debug);
    assert_eq!(level_filter_of("Info"), LogLevel::Info);
    assert_eq!(level_filter_of("WaRn"), LogLevel::Warn);
    assert_eq!(level_filter_of("error"), LogLevel::Error);
    assert_eq!(level_filter_of("verbose"), LogLevel::Info);
    assert_eq!(level_filter_of(""), LogLevel::Info);
}
