use ffxiv_netstatd::addr::{Ipv4SocketAddr, SocketAddrPair};
use ffxiv_netstatd::inodes::{collect_socket_inodes, FdInfo};
use ffxiv_netstatd::locate::{is_pid_name, locate_process, stat_command, ProcEntry};
use ffxiv_netstatd::resolve::{resolve, resolve_sockets, ProcessData};
use ffxiv_netstatd::SocketError;

const TABLE_HEADER: &str = "  sl  local_address rem_address   st tx_queue rx_queue tr tm->when retrnsmt   uid  timeout inode";

fn one_row_table() -> String {
    let row = "   0: 0100007F:1F90 0100007F:01BB 01 00000000:00000000 00:00000000 00000000  1000        0 12345 1 0000000000000000 100 0 0 10 0";
    format!("{}\n{}\n", TABLE_HEADER, row)
}

fn socket_fd(inode: u64) -> FdInfo {
    FdInfo { is_socket: true, inode }
}

fn plain_fd(inode: u64) -> FdInfo {
    FdInfo { is_socket: false, inode }
}

#[test]
fn collects_only_socket_inodes() {
    let fds = vec![plain_fd(1), socket_fd(12345), plain_fd(7), socket_fd(99)];
    let set = collect_socket_inodes(&fds);
    assert!(set.contains(12345));
    assert!(set.contains(99));
    assert!(!set.contains(1));
    assert!(!set.contains(7));
}

#[test]
fn pid_names_are_all_decimal_digits() {
    assert!(is_pid_name("1"));
    assert!(is_pid_name("123456"));
    assert!(!is_pid_name(""));
    assert!(!is_pid_name("12a"));
    assert!(!is_pid_name("self"));
    assert!(!is_pid_name("-1"));
}

#[test]
fn stat_command_is_second_field() {
    assert_eq!(
        stat_command("4242 (ffxiv_dx11.exe) S 1 4242").as_deref(),
        Some("(ffxiv_dx11.exe)")
    );
    assert_eq!(stat_command("1 (init)").as_deref(), Some("(init)"));
    assert_eq!(stat_command("nospace"), None);
}

#[test]
fn locate_process_first_match_in_order() {
    let entries = vec![
        ProcEntry { name: "self".to_string(), is_dir: true, stat: String::new() },
        ProcEntry {
            name: "17".to_string(),
            is_dir: true,
            stat: "17 (bash) S 1".to_string(),
        },
        ProcEntry {
            name: "4242".to_string(),
            is_dir: true,
            stat: "4242 (ffxiv_dx11.exe) S 1".to_string(),
        },
        ProcEntry {
            name: "4300".to_string(),
            is_dir: true,
            stat: "4300 (ffxiv_dx11.exe) S 1".to_string(),
        },
        ProcEntry {
            name: "9".to_string(),
            is_dir: false,
            stat: "9 (ffxiv_dx11.exe) S 1".to_string(),
        },
    ];
    assert_eq!(locate_process(&entries, "(ffxiv_dx11.exe)"), Some(2));
    assert_eq!(locate_process(&entries, "(steam)"), None);
}

#[test]
fn end_to_end_one_matching_row() {
    let data = ProcessData { fds: vec![plain_fd(3), socket_fd(12345)], table: one_row_table() };
    let pairs = resolve(&Some(data)).unwrap();
    assert_eq!(pairs.len(), 1);
    assert_eq!(
        pairs[0],
        SocketAddrPair {
            local: Ipv4SocketAddr { ip: 0x0100007F, port: 8080 },
            remote: Ipv4SocketAddr { ip: 0x0100007F, port: 443 },
        }
    );
}

#[test]
fn row_outside_inode_set_is_excluded() {
    let data = ProcessData { fds: vec![socket_fd(999)], table: one_row_table() };
    let pairs = resolve(&Some(data)).unwrap();
    assert_eq!(pairs.len(), 0);
}

#[test]
fn empty_inode_set_yields_empty_list() {
    // no socket descriptors at all: every row is filtered out, whatever
    // the table holds
    let data = ProcessData { fds: vec![plain_fd(12345)], table: one_row_table() };
    assert_eq!(resolve(&Some(data)).unwrap().len(), 0);
}

#[test]
fn no_located_process_is_not_found() {
    assert_eq!(resolve(&None), Err(SocketError::NotFound));
}

#[test]
fn table_without_header_fails_resolve() {
    let data = ProcessData { fds: vec![socket_fd(12345)], table: String::new() };
    assert_eq!(resolve(&Some(data)), Err(SocketError::MalformedTable));
}

#[test]
fn bad_address_in_matching_row_fails() {
    let table = format!(
        "{}\n{}\n",
        "  sl  local_address rem_address   inode",
        "   0: XXYY007F:1F90 0100007F:01BB 12345"
    );
    let inodes = collect_socket_inodes(&vec![socket_fd(12345)]);
    assert_eq!(resolve_sockets(&table, &inodes), Err(SocketError::MalformedAddress));
}

#[test]
fn bad_address_in_excluded_row_is_ignored() {
    let table = format!(
        "{}\n{}\n",
        "  sl  local_address rem_address   inode",
        "   0: XXYY007F:1F90 0100007F:01BB 777"
    );
    let inodes = collect_socket_inodes(&vec![socket_fd(12345)]);
    assert_eq!(resolve_sockets(&table, &inodes).unwrap().len(), 0);
}
