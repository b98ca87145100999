use pwatch::json::{ports_json, push_json_string};
use pwatch::lsof::{parse_lsof_line, parse_lsof_output, LsofEntry, MacosScanner};
use pwatch::port::{
    check, kill_error_message, kill_signal, signal_label, sort_by_port, KillError, PortInfo, Signal,
};
use pwatch::procfs::{
    build_inode_pid_map, comm_name, comm_needs_exe_name, command_line, parse_proc_net,
    parse_proc_net_line, pid_of_dir_name, process_name, resolve_entries, socket_inode,
    LinuxScanner, ProcFds, assemble_ports, OwnedSocket,
};

const HEADER: &str = "  sl  local_address rem_address   st tx_queue rx_queue tr tm->when retrnsmt   uid  timeout inode";
const LISTEN_8080: &str = "   0: 00000000:1F90 00000000:0000 0A 00000000:00000000 00:00000000 00000000  1000        0 12345 1 0000000000000000 100 0 0 10 0";
const ESTABLISHED: &str = "   1: 0100007F:9C40 0100007F:1F90 01 00000000:00000000 00:00000000 00000000  1000        0 22222 1 0000000000000000 20 4 30 10 -1";
const LISTEN_V6: &str = "   0: 00000000000000000000000001000000:0BB8 00000000000000000000000000000000:0000 0A 00000000:00000000 00:00000000 00000000  1000        0 777 1 0000000000000000 100 0 0 10 0";

fn info(port: u16, pid: u32, name: &str) -> PortInfo {
    PortInfo {
        port,
        protocol: "tcp".to_string(),
        pid,
        process_name: name.to_string(),
        command: format!("{} --serve", name),
    }
}

#[test]
fn listening_line_gives_port_and_inode() {
    assert_eq!(parse_proc_net_line(LISTEN_8080, "tcp"), Some((8080, "tcp".to_string(), 12345)));
    assert_eq!(parse_proc_net_line(LISTEN_V6, "tcp6"), Some((3000, "tcp6".to_string(), 777)));
}

#[test]
fn other_states_and_short_lines_are_skipped() {
    assert_eq!(parse_proc_net_line(ESTABLISHED, "tcp"), None);
    assert_eq!(parse_proc_net_line(HEADER, "tcp"), None);
    assert_eq!(parse_proc_net_line("0: 00000000:1F90 00000000:0000 0A", "tcp"), None);
    assert_eq!(parse_proc_net_line("", "tcp"), None);
}

#[test]
fn bad_port_or_inode_is_skipped() {
    let bad_port = LISTEN_8080.replace("00000000:1F90", "00000000:XYZ");
    assert_eq!(parse_proc_net_line(&bad_port, "tcp"), None);
    let bad_inode = LISTEN_8080.replace(" 12345 ", " 12a45 ");
    assert_eq!(parse_proc_net_line(&bad_inode, "tcp"), None);
}

#[test]
fn socket_table_skips_header() {
    let content = format!("{}\n{}\n{}\n", HEADER, LISTEN_8080, ESTABLISHED);
    assert_eq!(parse_proc_net(&content, "tcp"), vec![(8080, "tcp".to_string(), 12345)]);
    // the first line is the header even when it would parse
    let content = format!("{}\n{}", LISTEN_8080, LISTEN_8080);
    assert_eq!(parse_proc_net(&content, "tcp").len(), 1);
    assert_eq!(parse_proc_net("", "tcp"), vec![]);
}

#[test]
fn both_tables_in_order() {
    let tcp = format!("{}\n{}\n", HEADER, LISTEN_8080);
    let tcp6 = format!("{}\n{}\n", HEADER, LISTEN_V6);
    assert_eq!(
        LinuxScanner::listening_entries(Some(&tcp), Some(&tcp6)),
        vec![(8080, "tcp".to_string(), 12345), (3000, "tcp6".to_string(), 777)]
    );
    assert_eq!(
        LinuxScanner::listening_entries(None, Some(&tcp6)),
        vec![(3000, "tcp6".to_string(), 777)]
    );
}

#[test]
fn socket_links_name_inodes() {
    assert_eq!(socket_inode("socket:[12345]"), Some(12345));
    assert_eq!(socket_inode("socket:[]"), None);
    assert_eq!(socket_inode("socket:[12"), None);
    assert_eq!(socket_inode("pipe:[12]"), None);
    assert_eq!(socket_inode("/dev/null"), None);
}

#[test]
fn process_directories_are_numbers() {
    assert_eq!(pid_of_dir_name("1234"), Some(1234));
    assert_eq!(pid_of_dir_name("self"), None);
    assert_eq!(pid_of_dir_name("4294967296"), None);
}

#[test]
fn later_owner_of_a_socket_wins() {
    let procs = vec![
        ProcFds { pid: 10, links: vec!["socket:[1]".to_string(), "pipe:[2]".to_string()] },
        ProcFds { pid: 20, links: vec!["socket:[3]".to_string(), "socket:[1]".to_string()] },
    ];
    let m = build_inode_pid_map(&procs);
    assert_eq!(m.len(), 2);
    assert_eq!(m.get(&1), Some(&20));
    assert_eq!(m.get(&3), Some(&20));
    assert_eq!(m.get(&2), None);
}

#[test]
fn sockets_without_owner_are_dropped() {
    let procs = vec![ProcFds { pid: 42, links: vec!["socket:[12345]".to_string()] }];
    let m = build_inode_pid_map(&procs);
    let entries = vec![(8080, "tcp".to_string(), 12345), (9090, "tcp".to_string(), 999)];
    assert_eq!(resolve_entries(&entries, &m), vec![(8080, "tcp".to_string(), 42)]);
}

#[test]
fn process_names_from_comm() {
    assert_eq!(comm_name("nginx\n"), "nginx");
    assert!(!comm_needs_exe_name("nginx\n"));
    assert!(!comm_needs_exe_name("kworker_u-x\n"));
    assert!(comm_needs_exe_name("Web Content\n"));
    assert!(comm_needs_exe_name("python3\n"));
    assert!(comm_needs_exe_name("\n"));
    assert_eq!(process_name("nginx\n", Some("ignored".to_string())), "nginx");
    assert_eq!(process_name("python3\n", Some("python3.12".to_string())), "python3.12");
    assert_eq!(process_name("python3\n", None), "python3");
}

#[test]
fn command_lines_from_cmdline() {
    assert_eq!(command_line("node\0server.js\0--port\08080\0"), "node server.js --port 8080");
    assert_eq!(command_line(""), "");
}

#[test]
fn lsof_line_gives_name_pid_and_port() {
    let line = "node      1234 alice   23u  IPv4 0x1234567890      0t0  TCP *:3000 (LISTEN)";
    let e = parse_lsof_line(line).unwrap();
    assert_eq!((e.process_name.as_str(), e.pid, e.port), ("node", 1234, 3000));
    let line = "Python    99 bob   4u  IPv6 0xabc      0t0  TCP [::1]:8000 (LISTEN)";
    let e = parse_lsof_line(line).unwrap();
    assert_eq!((e.process_name.as_str(), e.pid, e.port), ("Python", 99, 8000));
}

#[test]
fn lsof_nine_column_row_is_read() {
    let e = parse_lsof_line("node 1234 alice 23u IPv4 0x1a2b3c 0t0 TCP *:8080").unwrap();
    assert_eq!((e.process_name.as_str(), e.pid, e.port), ("node", 1234, 8080));
    let p = e.into_port_info(String::new());
    assert_eq!(p.protocol, "tcp");
    let e = parse_lsof_line("node 1234 alice 23u IPv4 0x1 0t0 TCP 127.0.0.1:3000").unwrap();
    assert_eq!(e.port, 3000);
}

#[test]
fn lsof_bad_lines_are_skipped() {
    assert!(parse_lsof_line("node 1234 alice 23u IPv4 0x1 0t0 *:3000").is_none());
    assert!(parse_lsof_line("node x alice 23u IPv4 0x1 0t0 TCP *:3000 (LISTEN)").is_none());
    assert!(parse_lsof_line("node 1 alice 23u IPv4 0x1 0t0 TCP *:http (LISTEN)").is_none());
}

#[test]
fn lsof_listing_skips_header() {
    let out = "COMMAND PID USER FD TYPE DEVICE SIZE/OFF NODE NAME\nnode 1234 alice 23u IPv4 0x1 0t0 TCP *:3000 (LISTEN)\n";
    let entries = parse_lsof_output(out);
    assert_eq!(entries.len(), 1);
    assert_eq!(MacosScanner::listening_entries(out).len(), 1);
    let e: LsofEntry = entries.into_iter().next().unwrap();
    let p = e.into_port_info("node server.js".to_string());
    assert_eq!(p.port, 3000);
    assert_eq!(p.protocol, "tcp");
    assert_eq!(p.pid, 1234);
    assert_eq!(p.process_name, "node");
    assert_eq!(p.command, "node server.js");
}

#[test]
fn sort_orders_by_port_and_keeps_ties_in_order() {
    let v = vec![info(8080, 1, "a"), info(22, 2, "b"), info(8080, 3, "c"), info(443, 4, "d"), info(22, 5, "e")];
    let sorted = sort_by_port(v);
    let order: Vec<(u16, u32)> = sorted.iter().map(|p| (p.port, p.pid)).collect();
    assert_eq!(order, vec![(22, 2), (22, 5), (443, 4), (8080, 1), (8080, 3)]);
    assert!(sort_by_port(vec![]).is_empty());
}

#[test]
fn check_finds_first_entry_for_port() {
    let v = vec![info(22, 2, "sshd"), info(8080, 1, "a"), info(8080, 3, "c")];
    let found = check(v.clone(), 8080).unwrap();
    assert_eq!((found.port, found.pid), (8080, 1));
    assert!(check(v, 9999).is_none());
}

#[test]
fn signals_and_labels() {
    assert_eq!(kill_signal(true), Signal::Kill);
    assert_eq!(kill_signal(false), Signal::Term);
    assert_eq!(signal_label(true), "SIGKILL");
    assert_eq!(signal_label(false), "SIGTERM");
}

#[test]
fn kill_error_messages() {
    assert_eq!(
        kill_error_message(42, &KillError::PermissionDenied),
        "Permission denied (PID 42). Try: sudo pwatch kill <PORT>"
    );
    assert_eq!(kill_error_message(7, &KillError::NoSuchProcess), "Process 7 not found (already exited?)");
    assert_eq!(
        kill_error_message(9, &KillError::Other { description: "EINVAL: Invalid argument".to_string() }),
        "Failed to kill PID 9: EINVAL: Invalid argument"
    );
}

#[test]
fn ports_as_json() {
    assert_eq!(ports_json(&vec![]), "[]");
    let v = vec![info(22, 2, "sshd"), PortInfo {
        port: 8080,
        protocol: "tcp6".to_string(),
        pid: 7,
        process_name: "we\"ird\\".to_string(),
        command: "a\tb\nc\u{1}\u{7f}é".to_string(),
    }];
    let expected = "[\n  {\n    \"port\": 22,\n    \"protocol\": \"tcp\",\n    \"pid\": 2,\n    \"process_name\": \"sshd\",\n    \"command\": \"sshd --serve\"\n  },\n  {\n    \"port\": 8080,\n    \"protocol\": \"tcp6\",\n    \"pid\": 7,\n    \"process_name\": \"we\\\"ird\\\\\",\n    \"command\": \"a\\tb\\nc\\u0001\u{7f}é\"\n  }\n]";
    assert_eq!(ports_json(&v), expected);
}

#[test]
fn json_string_escapes() {
    let mut s = String::new();
    push_json_string(&mut s, "\u{8}\u{c}\r\u{1f} ok");
    assert_eq!(s, "\"\\b\\f\\r\\u001f ok\"");
}

fn socket(port: u16, pid: u32, comm: &str, exe: Option<&str>, cmdline: &str) -> OwnedSocket {
    OwnedSocket {
        port,
        protocol: "tcp".to_string(),
        pid,
        comm: comm.to_string(),
        exe_name: exe.map(|e| e.to_string()),
        cmdline: cmdline.to_string(),
    }
}

#[test]
fn assembled_ports_are_named_and_sorted() {
    let sockets = vec![
        socket(8080, 3, "python3\n", Some("python3.12"), "python3\0-m\0http.server\0"),
        socket(22, 1, "sshd\n", None, "/usr/sbin/sshd\0-D\0"),
        socket(8080, 2, "node\n", None, ""),
        socket(443, 4, "Web Content\n", None, "x"),
    ];
    let ports = assemble_ports(&sockets);
    let got: Vec<(u16, u32, String, String)> = ports
        .iter()
        .map(|p| (p.port, p.pid, p.process_name.clone(), p.command.clone()))
        .collect();
    assert_eq!(got, vec![
        (22, 1, "sshd".to_string(), "/usr/sbin/sshd -D".to_string()),
        (443, 4, "Web Content".to_string(), "x".to_string()),
        (8080, 3, "python3.12".to_string(), "python3 -m http.server".to_string()),
        (8080, 2, "node".to_string(), "".to_string()),
    ]);
    assert!(assemble_ports(&vec![]).is_empty());
}
