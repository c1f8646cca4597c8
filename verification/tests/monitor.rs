use rfshare::monitor::NetworkMonitor;

#[test]
fn each_new_address_is_told_once() {
    let mut m = NetworkMonitor::new("10.0.0.1".to_string());
    assert_eq!(m.has_changed(), None);
    for ip in ["10.0.0.1", "10.0.0.2", "10.0.0.2", "10.0.0.3", "10.0.0.2"] {
        m.observe(ip.to_string());
    }
    assert_eq!(m.has_changed(), Some("10.0.0.2".to_string()));
    assert_eq!(m.has_changed(), Some("10.0.0.3".to_string()));
    assert_eq!(m.has_changed(), Some("10.0.0.2".to_string()));
    assert_eq!(m.has_changed(), None);
    assert_eq!(m.current_ip, "10.0.0.2");
}
