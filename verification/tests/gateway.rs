use ghostbay::gateway::{
    default_admin_key_request, redirect_url, security_headers, GhostBayServer, ServerConfig,
    TlsConfig,
};

#[test]
fn default_server_config() {
    let c = ServerConfig::default();
    assert_eq!(c.bind_address, "127.0.0.1");
    assert_eq!(c.port, 3000);
    assert_eq!(c.database_url, "sqlite:./ghostbay.db");
    assert_eq!(c.data_dir, "./data");
    assert_eq!(c.temp_dir, "./tmp");
    assert_eq!(c.log_level, "info");
    assert!(c.tls.is_none());
}

fn tls(port: Option<u16>) -> TlsConfig {
    TlsConfig {
        cert_path: "cert.pem".to_string(),
        key_path: "key.pem".to_string(),
        https_port: port,
        redirect_http_to_https: true,
    }
}

#[test]
fn server_addresses() {
    let mut c = ServerConfig::default();
    c.bind_address = "0.0.0.0".to_string();
    c.port = 8080;
    let s = GhostBayServer::new(c);
    assert_eq!(s.http_address(), "0.0.0.0:8080");
    assert_eq!(s.https_address(&tls(Some(8443))), "0.0.0.0:8443");
    assert_eq!(s.https_address(&tls(None)), "0.0.0.0:443");
    let sc = s.storage_config();
    assert_eq!(sc.data_dir, "./data");
    assert_eq!(sc.temp_dir, "./tmp");
}

#[test]
fn redirects_go_to_https_without_the_port() {
    assert_eq!(redirect_url(Some("example.com:8080"), Some("/b/k?x=1")), "https://example.com/b/k?x=1");
    assert_eq!(redirect_url(Some("example.com"), None), "https://example.com/");
    assert_eq!(redirect_url(None, Some("/a")), "https://localhost/a");
    assert_eq!(redirect_url(None, None), "https://localhost/");
}

#[test]
fn every_security_header_in_order() {
    let h = security_headers();
    let names: Vec<&str> = h.iter().map(|(n, _)| n.as_str()).collect();
    assert_eq!(
        names,
        vec![
            "Strict-Transport-Security",
            "Content-Security-Policy",
            "X-Frame-Options",
            "X-Content-Type-Options",
            "Referrer-Policy",
            "Permissions-Policy",
        ]
    );
    assert_eq!(h[0].1, "max-age=31536000; includeSubDomains; preload");
    assert_eq!(h[2].1, "DENY");
    assert_eq!(h[3].1, "nosniff");
}

#[test]
fn default_admin_key_is_an_admin_key_without_expiry() {
    let r = default_admin_key_request();
    assert_eq!(r.policies, vec!["admin".to_string()]);
    assert_eq!(r.description, Some("Default admin access key for testing".to_string()));
    assert!(r.expires_at.is_none());
}
