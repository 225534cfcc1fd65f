use riptables::error::RIPTError;

#[test]
fn abilities_of_recent_version() {
    let tables = riptables::new(false, "iptables v1.8.4 (legacy)".to_string()).unwrap();
    assert_eq!(tables.cmd, "iptables");
    assert!(tables.has_check);
    assert!(tables.has_wait);
}

#[test]
fn abilities_at_the_bounds() {
    let tables = riptables::new(false, "iptables v1.4.10".to_string()).unwrap();
    assert!(!tables.has_check);
    assert!(!tables.has_wait);
    let tables = riptables::new(false, "iptables v1.4.11".to_string()).unwrap();
    assert!(tables.has_check);
    assert!(!tables.has_wait);
    let tables = riptables::new(false, "iptables v1.4.19".to_string()).unwrap();
    assert!(tables.has_check);
    assert!(!tables.has_wait);
    let tables = riptables::new(false, "iptables v1.4.20".to_string()).unwrap();
    assert!(tables.has_check);
    assert!(tables.has_wait);
    let tables = riptables::new(false, "iptables v1.5.0".to_string()).unwrap();
    assert!(tables.has_check && tables.has_wait);
    let tables = riptables::new(false, "iptables v2.0.0".to_string()).unwrap();
    assert!(tables.has_check && tables.has_wait);
    let tables = riptables::new(false, "iptables v1.3.99".to_string()).unwrap();
    assert!(!tables.has_check && !tables.has_wait);
    let tables = riptables::new(false, "iptables v0.9.99".to_string()).unwrap();
    assert!(!tables.has_check && !tables.has_wait);
}

#[test]
fn abilities_for_ipv6() {
    let tables = riptables::new(true, "ip6tables v1.8.4 (nf_tables)".to_string()).unwrap();
    assert_eq!(tables.cmd, "ip6tables");
    assert_eq!(riptables::utility(true), "ip6tables");
    assert_eq!(riptables::utility(false), "iptables");
}

#[test]
fn abilities_need_a_version() {
    assert_eq!(
        riptables::new(false, "command not found".to_string()).map(|t| t.cmd),
        Err(RIPTError::Parse("command not found".to_string()))
    );
}

#[test]
fn abilities_are_the_same_when_derived_twice() {
    let first = riptables::new(false, "iptables v1.4.15".to_string()).unwrap();
    let second = riptables::new(false, "iptables v1.4.15".to_string()).unwrap();
    assert_eq!(first.cmd, second.cmd);
    assert_eq!(first.has_check, second.has_check);
    assert_eq!(first.has_wait, second.has_wait);
}

#[test]
fn abilities_from_the_bytes_of_the_answer() {
    let tables = riptables::from_version_output(false, b"iptables v1.4.20 (legacy)\n").unwrap();
    assert_eq!(tables.cmd, "iptables");
    assert!(tables.has_check);
    assert!(tables.has_wait);
    let tables = riptables::from_version_output(true, &[0xff, b' ', b'v', b'1', b'.', b'4', b'.', b'1', b'0', b' ', 0xfe]).unwrap();
    assert_eq!(tables.cmd, "ip6tables");
    assert!(!tables.has_check);
    assert_eq!(
        riptables::from_version_output(false, &[b'v', b'1', b'.', 0xff, b'.', b'3']).map(|t| t.cmd),
        Err(RIPTError::Parse("v1.\u{fffd}.3".to_string()))
    );
}
