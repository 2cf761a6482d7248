use ffxiv_netstatd::addr::{encode_sockaddr, parse_hex_sockaddr, Ipv4SocketAddr};
use ffxiv_netstatd::header::parse_header;
use ffxiv_netstatd::table::parse_table;
use ffxiv_netstatd::SocketError;

#[test]
fn decode_known_token() {
    let a = parse_hex_sockaddr("0100007F:1F90").unwrap();
    assert_eq!(a.ip, 0x0100007F);
    assert_eq!(a.port, 0x1F90);
    assert_eq!(a.port, 8080);
}

#[test]
fn decode_lowercase_token() {
    let a = parse_hex_sockaddr("0100007f:01bb").unwrap();
    assert_eq!(a.ip, 0x0100007F);
    assert_eq!(a.port, 443);
}

#[test]
fn decode_without_colon_fails() {
    assert_eq!(parse_hex_sockaddr("0100007F1F90"), Err(SocketError::MalformedAddress));
}

#[test]
fn decode_non_hex_fails() {
    assert_eq!(parse_hex_sockaddr("01000G7F:1F90"), Err(SocketError::MalformedAddress));
    assert_eq!(parse_hex_sockaddr("0100007F:1Z90"), Err(SocketError::MalformedAddress));
}

#[test]
fn decode_empty_parts_fail() {
    assert_eq!(parse_hex_sockaddr(":1F90"), Err(SocketError::MalformedAddress));
    assert_eq!(parse_hex_sockaddr("0100007F:"), Err(SocketError::MalformedAddress));
    assert_eq!(parse_hex_sockaddr(""), Err(SocketError::MalformedAddress));
}

#[test]
fn decode_out_of_range_fails() {
    // one hex digit beyond 32 bits of ip, and beyond 16 bits of port
    assert_eq!(parse_hex_sockaddr("100000000:1F90"), Err(SocketError::MalformedAddress));
    assert_eq!(parse_hex_sockaddr("0100007F:10000"), Err(SocketError::MalformedAddress));
}

#[test]
fn decode_splits_at_last_colon() {
    // the part before the last colon is not valid hex, so this fails,
    // showing the split is at the last colon and not the first
    assert_eq!(parse_hex_sockaddr("00:11:22"), Err(SocketError::MalformedAddress));
    // all-hex parts around the last colon succeed
    let a = parse_hex_sockaddr("AB:CD").unwrap();
    assert_eq!(a.ip, 0xAB);
    assert_eq!(a.port, 0xCD);
}

#[test]
fn encode_exact_token() {
    let s = encode_sockaddr(Ipv4SocketAddr { ip: 0x0100007F, port: 8080 });
    assert_eq!(s, "0100007F:1F90");
    let s = encode_sockaddr(Ipv4SocketAddr { ip: 0, port: 0 });
    assert_eq!(s, "00000000:0000");
}

#[test]
fn encode_decode_roundtrip() {
    let cases = [
        Ipv4SocketAddr { ip: 0x0100007F, port: 8080 },
        Ipv4SocketAddr { ip: 0, port: 0 },
        Ipv4SocketAddr { ip: u32::MAX, port: u16::MAX },
        Ipv4SocketAddr { ip: 0xDEADBEEF, port: 443 },
    ];
    for a in cases {
        let token = encode_sockaddr(a);
        assert_eq!(parse_hex_sockaddr(&token), Ok(a));
    }
}

#[test]
fn header_fields_of_connection_table() {
    let header = "  sl  local_address rem_address   st tx_queue rx_queue tr tm->when retrnsmt   uid  timeout inode";
    let fields = parse_header(header);
    let names: Vec<&str> = fields.iter().map(|f| f.name.as_str()).collect();
    assert_eq!(
        names,
        vec![
            "sl",
            "local_address",
            "rem_address",
            "st",
            "tx_queue",
            "rx_queue",
            "tr",
            "tm->when",
            "retrnsmt",
            "uid",
            "timeout",
            "inode"
        ]
    );
    // starts are strictly increasing, spans abut, and the last is open
    for w in fields.windows(2) {
        assert!(w[0].start_col < w[1].start_col);
        assert_eq!(w[0].end_col, Some(w[1].start_col));
    }
    assert_eq!(fields.last().unwrap().end_col, None);
    assert_eq!(fields[0].start_col, 2);
}

#[test]
fn header_empty_yields_no_fields() {
    assert_eq!(parse_header("").len(), 0);
    assert_eq!(parse_header("     ").len(), 0);
}

#[test]
fn header_single_field() {
    let fields = parse_header("inode");
    assert_eq!(fields.len(), 1);
    assert_eq!(fields[0].name, "inode");
    assert_eq!(fields[0].start_col, 0);
    assert_eq!(fields[0].end_col, None);
}

#[test]
fn table_rows_sliced_by_header_spans() {
    let text = "  sl  local_address rem_address   inode\n   0: 0100007F:1F90 0100007F:01BB 12345\n";
    let records = parse_table(text).unwrap();
    assert_eq!(records.len(), 1);
    let rec = &records[0];
    assert_eq!(rec.get("sl").unwrap(), "0:");
    assert_eq!(rec.get("local_address").unwrap(), "0100007F:1F90");
    assert_eq!(rec.get("rem_address").unwrap(), "0100007F:01BB");
    assert_eq!(rec.get("inode").unwrap(), "12345");
    assert!(rec.get("timeout").is_none());
}

#[test]
fn table_value_takes_first_token_only() {
    // the last column is open-ended: auxiliary data after the first
    // space-separated token is discarded
    let text = "a bcol\n1 22 extra junk\n";
    let records = parse_table(text).unwrap();
    assert_eq!(records[0].get("bcol").unwrap(), "22");
}

#[test]
fn table_short_line_yields_empty_values() {
    let text = "aa bb cc\n11\n";
    let records = parse_table(text).unwrap();
    assert_eq!(records[0].get("aa").unwrap(), "11");
    assert_eq!(records[0].get("bb").unwrap(), "");
    assert_eq!(records[0].get("cc").unwrap(), "");
}

#[test]
fn table_without_header_is_malformed() {
    assert_eq!(parse_table("").unwrap_err(), SocketError::MalformedTable);
}

#[test]
fn table_with_header_only_has_no_rows() {
    let records = parse_table("sl inode\n").unwrap();
    assert_eq!(records.len(), 0);
}
