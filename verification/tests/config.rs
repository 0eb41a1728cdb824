use fastdown::config::{Config, ProxySetting, WriteMethod};
use std::collections::HashMap;

#[test]
fn missing_options_take_defaults() {
    let s = Config::default().to_settings();
    assert_eq!(s.threads, 32);
    assert!(matches!(s.proxy, ProxySetting::System));
    assert!(s.headers.is_empty());
    assert_eq!(s.min_chunk_size, 500 * 1024);
    assert_eq!(s.write_buffer_size, 16 * 1024 * 1024);
    assert_eq!(s.write_queue_cap, 10240);
    assert_eq!(s.retry_gap_ms, 500);
    assert_eq!(s.pull_timeout_ms, 5000);
    assert!(!s.accept_invalid_certs);
    assert!(!s.accept_invalid_hostnames);
    assert!(matches!(s.write_method, WriteMethod::Mmap));
    assert_eq!(s.retry_times, 3);
    assert!(s.local_address.is_empty());
    assert_eq!(s.max_speculative, 3);
    assert!(s.downloaded_chunk.is_empty());
    assert_eq!(s.chunk_window, 8 * 1024);
}

#[test]
fn given_options_are_kept() {
    let mut headers = HashMap::new();
    headers.insert("User-Agent".to_string(), "x".to_string());
    let c = Config::new(
        Some(8),
        Some("http://127.0.0.1:8080".to_string()),
        Some(headers.clone()),
        Some(1),
        Some(2),
        Some(3),
        Some(4),
        Some(5),
        Some(true),
        Some(true),
        Some("std".to_string()),
        Some(6),
        Some(vec!["10.0.0.1".to_string(), "nope".to_string()]),
        Some(7),
        Some(vec![(0, 10), (20, 30)]),
        Some(9),
    );
    let s = c.to_settings();
    assert_eq!(s.threads, 8);
    match s.proxy {
        ProxySetting::Custom(p) => assert_eq!(p, "http://127.0.0.1:8080"),
        _ => panic!("expected a custom proxy"),
    }
    assert_eq!(s.headers, headers);
    assert_eq!(s.min_chunk_size, 1);
    assert_eq!(s.write_buffer_size, 2);
    assert_eq!(s.write_queue_cap, 3);
    assert_eq!(s.retry_gap_ms, 4);
    assert_eq!(s.pull_timeout_ms, 5);
    assert!(s.accept_invalid_certs);
    assert!(s.accept_invalid_hostnames);
    assert!(matches!(s.write_method, WriteMethod::Std));
    assert_eq!(s.retry_times, 6);
    let kept: Vec<String> = s.local_address.iter().map(|a| a.to_string()).collect();
    assert_eq!(kept, vec!["10.0.0.1".to_string()]);
    assert_eq!(s.max_speculative, 7);
    assert_eq!(s.downloaded_chunk, vec![(0, 10), (20, 30)]);
    assert_eq!(s.chunk_window, 9);
}

fn proxy_for(p: Option<&str>) -> ProxySetting {
    let mut c = Config::default();
    c.proxy = p.map(|s| s.to_string());
    c.to_settings().proxy
}

#[test]
fn proxy_words() {
    assert!(matches!(proxy_for(Some("no")), ProxySetting::No));
    assert!(matches!(proxy_for(Some("system")), ProxySetting::System));
    assert!(matches!(proxy_for(None), ProxySetting::System));
    assert!(matches!(proxy_for(Some("NO")), ProxySetting::Custom(ref s) if s == "NO"));
    assert!(matches!(proxy_for(Some("")), ProxySetting::Custom(ref s) if s.is_empty()));
}

fn write_method_for(w: Option<&str>) -> WriteMethod {
    let mut c = Config::default();
    c.write_method = w.map(|s| s.to_string());
    c.to_settings().write_method
}

#[test]
fn write_method_words() {
    assert!(matches!(write_method_for(Some("std")), WriteMethod::Std));
    assert!(matches!(write_method_for(Some("mmap")), WriteMethod::Mmap));
    assert!(matches!(write_method_for(Some("Std")), WriteMethod::Mmap));
    assert!(matches!(write_method_for(None), WriteMethod::Mmap));
}

#[test]
fn only_ip_addresses_are_kept_in_order() {
    let mut c = Config::default();
    c.local_address = Some(vec![
        "::1".to_string(),
        "example.com".to_string(),
        "192.168.1.2".to_string(),
        "256.0.0.1".to_string(),
        " 10.0.0.1".to_string(),
        "fe80::2".to_string(),
    ]);
    let kept: Vec<String> = c.to_settings().local_address.iter().map(|a| a.to_string()).collect();
    assert_eq!(kept, vec!["::1".to_string(), "192.168.1.2".to_string(), "fe80::2".to_string()]);
}
