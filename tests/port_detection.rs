use dev_services::port::{config_file_names, default_port, detect_port, extract_port, Side};

#[test]
fn dotted_key_yields_port() {
    assert_eq!(extract_port("server.port = 5173"), Some(5173));
}

#[test]
fn env_key_yields_port() {
    assert_eq!(extract_port("PORT=5173"), Some(5173));
}

#[test]
fn no_port_line_yields_nothing() {
    assert_eq!(extract_port("host = 127.0.0.1\nmode = dev"), None);
    assert_eq!(extract_port(""), None);
}

#[test]
fn low_port_is_ignored() {
    assert_eq!(extract_port("port: 80"), None);
}

#[test]
fn low_port_line_falls_through_to_later_line() {
    assert_eq!(extract_port("port: 80\nPORT=3000"), Some(3000));
}

#[test]
fn range_bounds() {
    assert_eq!(extract_port("port 1023"), None);
    assert_eq!(extract_port("port 1024"), Some(1024));
    assert_eq!(extract_port("port 65535"), Some(65535));
    assert_eq!(extract_port("port 65536"), None);
}

#[test]
fn oversized_run_is_skipped_for_next_run() {
    assert_eq!(extract_port("port 99999999999999999999 4000"), Some(4000));
}

#[test]
fn first_run_on_the_line_wins() {
    assert_eq!(extract_port("port: 3000 // was 4000"), Some(3000));
}

#[test]
fn leading_zeros_are_read() {
    assert_eq!(extract_port("port=05173"), Some(5173));
}

#[test]
fn keyword_is_case_sensitive() {
    assert_eq!(extract_port("Port 5000"), None);
    assert_eq!(extract_port("PoRt 5000\nport 6000"), Some(6000));
}

#[test]
fn lines_without_keyword_are_ignored() {
    assert_eq!(extract_port("host 5000\nport: 6000"), Some(6000));
}

#[test]
fn carriage_returns_and_unicode_are_separators() {
    assert_eq!(extract_port("é port\u{00e9}4321\r\n"), Some(4321));
}

#[test]
fn frontend_default_port() {
    assert_eq!(detect_port(Side::Frontend, &vec![]), Some(5190));
    assert_eq!(default_port(Side::Frontend), 5190);
}

#[test]
fn backend_default_port() {
    assert_eq!(detect_port(Side::Backend, &vec!["DATABASE_URL=x".to_string()]), Some(8000));
    assert_eq!(default_port(Side::Backend), 8000);
}

#[test]
fn frontend_config_port() {
    let config = "export default defineConfig({\n  server: {\n    port: 3000,\n  },\n});".to_string();
    assert_eq!(detect_port(Side::Frontend, &vec![config]), Some(3000));
}

#[test]
fn later_config_consulted_when_first_has_none() {
    let first = "export default {}".to_string();
    let second = "server.port = 5173".to_string();
    assert_eq!(detect_port(Side::Frontend, &vec![first, second]), Some(5173));
}

#[test]
fn backend_env_port() {
    let env = "DATABASE_URL=sqlite:///./app.db\nBACKEND_PORT=8001\n".to_string();
    assert_eq!(detect_port(Side::Backend, &vec![env]), Some(8001));
}

#[test]
fn config_names() {
    assert_eq!(config_file_names(Side::Frontend), vec!["vite.config.ts", "vite.config.js"]);
    assert_eq!(config_file_names(Side::Backend), vec![".env"]);
}
