use netmon::address::decode_endpoint;
use netmon::digits::parse_unsigned;
use netmon::process::socket_inode_of;
use netmon::{Connection, ConnectionTables, NetworkMonitor, ProcessEntry};

fn entry(name: &str, targets: &[&str], comm: Option<&str>) -> ProcessEntry {
    ProcessEntry {
        name: name.to_string(),
        fd_targets: targets.iter().map(|t| t.to_string()).collect(),
        comm: comm.map(|c| c.to_string()),
    }
}

const HEADER: &str = "  sl  local_address rem_address   st tx_queue rx_queue tr tm->when retrnsmt   uid  timeout inode";

fn row(local: &str, remote: &str, st: &str, inode: &str) -> String {
    format!(
        "   0: {} {} {} 00000000:00000000 00:00000000 00000000  1000        0 {} 1 0000000000000000 100 0 0 10 0",
        local, remote, st, inode
    )
}

#[test]
fn ipv4_address_is_little_endian() {
    let m = NetworkMonitor::new();
    assert_eq!(m.parse_address("0100007F:1F90"), ("127.0.0.1".to_string(), 8080));
    assert_eq!(m.parse_address("00000000:0000"), ("0.0.0.0".to_string(), 0));
    assert_eq!(m.parse_address("FFFFFFFF:FFFF"), ("255.255.255.255".to_string(), 65535));
}

#[test]
fn ipv4_round_trip_on_samples() {
    let m = NetworkMonitor::new();
    for &(a, b, c, d) in &[(10u8, 0u8, 2u8, 15u8), (192, 168, 1, 254), (1, 2, 3, 4), (0, 0, 0, 1)] {
        let word = u32::from_le_bytes([a, b, c, d]);
        let token = format!("{:08X}:0016", word);
        let (text, port) = m.parse_address(&token);
        assert_eq!(text, format!("{}.{}.{}.{}", a, b, c, d));
        assert_eq!(port, 22);
    }
}

#[test]
fn ipv6_bytes_in_network_order() {
    let m = NetworkMonitor::new();
    assert_eq!(
        m.parse_address("00000000000000000000000001000000:0000"),
        ("::100:0".to_string(), 0)
    );
    assert_eq!(
        m.parse_address("00000000000000000000000000000001:0050"),
        ("::1".to_string(), 80)
    );
    assert_eq!(
        m.parse_address("00000000000000000000000000000000:0000"),
        ("::".to_string(), 0)
    );
}

#[test]
fn ipv6_canonical_forms() {
    let m = NetworkMonitor::new();
    assert_eq!(
        m.parse_address("00000000000000000000FFFF7F000001:0016").0,
        "::ffff:127.0.0.1"
    );
    assert_eq!(
        m.parse_address("20010DB8000000000001000000000001:0016").0,
        "2001:db8::1:0:0:1"
    );
    assert_eq!(
        m.parse_address("FE800000000000000202B3FFFE1E8329:0016").0,
        "fe80::202:b3ff:fe1e:8329"
    );
    assert_eq!(
        m.parse_address("20010DB8000100020003000400050006:0016").0,
        "2001:db8:1:2:3:4:5:6"
    );
}

#[test]
fn port_decoding() {
    let m = NetworkMonitor::new();
    assert_eq!(m.parse_address("0100007F:0050").1, 80);
    assert_eq!(m.parse_address("0100007F:1F90").1, 8080);
    assert_eq!(m.parse_address("0100007F:ZZZZ").1, 0);
    assert_eq!(m.parse_address("0100007F:10000").1, 0);
}

#[test]
fn malformed_tokens_fall_back() {
    let m = NetworkMonitor::new();
    assert_eq!(m.parse_address("0100007F"), ("0.0.0.0".to_string(), 0));
    assert_eq!(m.parse_address("01:00:7F"), ("0.0.0.0".to_string(), 0));
    assert_eq!(m.parse_address("ABC:0050"), ("0.0.0.0".to_string(), 80));
    assert_eq!(m.parse_address("GGGGGGGG:0050"), ("0.0.0.0".to_string(), 80));
}

#[test]
fn state_mapping() {
    let m = NetworkMonitor::new();
    assert_eq!(m.parse_state("0A", "TCP"), "LISTEN");
    assert_eq!(m.parse_state("01", "TCP6"), "ESTABLISHED");
    assert_eq!(m.parse_state("06", "TCP"), "TIME_WAIT");
    assert_eq!(m.parse_state("0B", "TCP"), "CLOSING");
    assert_eq!(m.parse_state("0C", "TCP"), "UNKNOWN");
    assert_eq!(m.parse_state("zz", "TCP"), "UNKNOWN");
    assert_eq!(m.parse_state("0A", "UDP"), "");
    assert_eq!(m.parse_state("07", "UDP6"), "");
}

#[test]
fn short_rows_are_dropped() {
    let mut m = NetworkMonitor::new();
    let good = row("0100007F:1F90", "00000000:0000", "0A", "0");
    let table = format!("{}\n{}\n   1: 0100007F:0050 00000000:0000 0A\n", HEADER, good);
    let alone = format!("{}\n{}\n", HEADER, good);
    let got = m.parse_proc_net_file(&table, "TCP", &Vec::new());
    let expected = m.parse_proc_net_file(&alone, "TCP", &Vec::new());
    assert_eq!(got.len(), 1);
    assert_eq!(got[0].local_address, expected[0].local_address);
    assert_eq!(got[0].local_port, 8080);
    assert_eq!(got[0].state, "LISTEN");
    assert_eq!(got[0].pid, None);
}

#[test]
fn header_only_table_is_empty() {
    let mut m = NetworkMonitor::new();
    assert!(m.parse_proc_net_file(HEADER, "TCP", &Vec::new()).is_empty());
    assert!(m.parse_proc_net_file("", "TCP", &Vec::new()).is_empty());
}

#[test]
fn end_to_end_tcp_listener() {
    let mut m = NetworkMonitor::new();
    let table = format!("{}\n{}\n", HEADER, row("0100007F:1F90", "00000000:0000", "0A", "12345"));
    let procs = vec![
        entry("self", &["socket:[12345]"], Some("shell\n")),
        entry("1", &["/dev/null", "socket:[999]"], Some("init\n")),
        entry("100", &["/dev/pts/0", "socket:[12345]"], Some("demo\n")),
    ];
    let got: Vec<Connection> = m.parse_proc_net_file(&table, "TCP", &procs);
    assert_eq!(got.len(), 1);
    let c = &got[0];
    assert_eq!(c.protocol, "TCP");
    assert_eq!(c.local_address, "127.0.0.1");
    assert_eq!(c.local_port, 8080);
    assert_eq!(c.remote_address, "0.0.0.0");
    assert_eq!(c.remote_port, 0);
    assert_eq!(c.state, "LISTEN");
    assert_eq!(c.pid, Some(100));
    assert_eq!(c.process_name, Some("demo".to_string()));
}

#[test]
fn absent_udp_sources() {
    let mut m = NetworkMonitor::new();
    let tables = ConnectionTables {
        tcp: Some(format!("{}\n{}\n", HEADER, row("0100007F:1F90", "00000000:0000", "0A", "0"))),
        tcp6: Some(format!(
            "{}\n{}\n",
            HEADER,
            row("00000000000000000000000001000000:0016", "00000000000000000000000000000000:0000", "0A", "0")
        )),
        udp: None,
        udp6: None,
    };
    let got = m.get_connections(&tables, &Vec::new());
    assert_eq!(got.len(), 2);
    assert_eq!(got[0].protocol, "TCP");
    assert_eq!(got[1].protocol, "TCP6");
    assert_eq!(got[1].local_address, "::100:0");
    assert_eq!(got[1].local_port, 22);
}

#[test]
fn snapshot_order_and_udp_state() {
    let mut m = NetworkMonitor::new();
    let udp_row = row("0100007F:0035", "00000000:0000", "07", "0");
    let tables = ConnectionTables {
        tcp: None,
        tcp6: None,
        udp: Some(format!("{}\n{}\n", HEADER, udp_row)),
        udp6: Some(format!(
            "{}\n{}\n",
            HEADER,
            row("00000000000000000000000000000000:0035", "00000000000000000000000000000000:0000", "07", "0")
        )),
    };
    let got = m.get_connections(&tables, &Vec::new());
    assert_eq!(got.len(), 2);
    assert_eq!(got[0].protocol, "UDP");
    assert_eq!(got[0].state, "");
    assert_eq!(got[0].local_port, 53);
    assert_eq!(got[1].protocol, "UDP6");
    assert_eq!(got[1].local_address, "::");
    assert_eq!(got[1].state, "");
}

#[test]
fn resolution_skips_unusable_entries() {
    let mut m = NetworkMonitor::new();
    let procs = vec![
        entry("net", &["socket:[77]"], Some("x")),
        entry("5", &["socket:[77]"], None),
        entry("6", &["socket:[77]"], Some("  worker \n")),
    ];
    assert_eq!(m.get_process_info(77, &procs), (Some(6), Some("worker".to_string())));
    assert_eq!(m.get_process_info(78, &procs), (None, None));
    assert_eq!(m.get_process_info(0, &procs), (None, None));
}

#[test]
fn inode_zero_never_resolves() {
    let mut m = NetworkMonitor::new();
    let procs = vec![entry("9", &["socket:[0]"], Some("zero"))];
    assert_eq!(m.get_process_info(0, &procs), (None, None));
}

#[test]
fn process_name_is_trimmed() {
    let m = NetworkMonitor::new();
    let e = entry("42", &["socket:[1]"], Some("sshd\n"));
    assert_eq!(m.get_process_name(&e), Some("sshd".to_string()));
    assert_eq!(m.get_process_name_by_inode(&e, 1), Some("sshd".to_string()));
    assert_eq!(m.get_process_name_by_inode(&e, 2), None);
}

#[test]
fn socket_link_targets() {
    assert_eq!(socket_inode_of("socket:[12345]"), Some(12345));
    assert_eq!(socket_inode_of("socket:[socket:[12]]]"), Some(12));
    assert_eq!(socket_inode_of("pipe:[12345]"), None);
    assert_eq!(socket_inode_of("socket:[]"), None);
    assert_eq!(socket_inode_of("socket:[4294967296]"), None);
}

#[test]
fn unsigned_parsing() {
    assert_eq!(parse_unsigned(b"1F90", 16, 0x10000), Some(8080));
    assert_eq!(parse_unsigned(b"+50", 16, 0x10000), Some(80));
    assert_eq!(parse_unsigned(b"+", 16, 0x10000), None);
    assert_eq!(parse_unsigned(b"", 10, 0x10000), None);
    assert_eq!(parse_unsigned(b"-1", 10, 0x10000), None);
    assert_eq!(parse_unsigned(b"000000000000000000065535", 10, 0x10000), Some(65535));
    assert_eq!(parse_unsigned(b"65536", 10, 0x10000), None);
    assert_eq!(parse_unsigned(b"4294967295", 10, 0x1_0000_0000), Some(4294967295));
}

#[test]
fn endpoint_bytes() {
    let (text, port) = decode_endpoint(b"0101A8C0:01BB");
    assert_eq!(text.iter().collect::<String>(), "192.168.1.1");
    assert_eq!(port, 443);
}

#[test]
fn crlf_lines_are_read() {
    let mut m = NetworkMonitor::new();
    let table = format!("{}\r\n{}\r\n", HEADER, row("0100007F:1F90", "00000000:0000", "01", "0"));
    let got = m.parse_proc_net_file(&table, "TCP", &Vec::new());
    assert_eq!(got.len(), 1);
    assert_eq!(got[0].state, "ESTABLISHED");
}
