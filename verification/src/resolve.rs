//! The resolver: joins the connection table's rows against the socket
//! inode set by inode number, and decodes the local and remote address of
//! every surviving row, in table row order.

use vstd::prelude::*;

use crate::addr::{parse_hex_sockaddr, spec_decode_sockaddr, SocketAddrPair};
use crate::inodes::{collect_socket_inodes, spec_socket_inodes, FdInfo, SocketInodeSet};
use crate::num::{parse_radix_u64, spec_parse_radix};
use crate::strutil::spec_lines;
use crate::table::{parse_table, spec_lookup, spec_record};
use crate::SocketError;

verus! {

/// The inode number a record claims: its "inode" field read as a decimal
/// integer, when the field exists and parses.
pub open spec fn spec_record_inode(entries: Seq<(Seq<char>, Seq<char>)>) -> Option<u64> {
    match spec_lookup(entries, "inode"@) {
        None => None,
        Some(v) => match spec_parse_radix(v, 10, u64::MAX as nat) {
            Some(d) => Some(d as u64),
            None => None,
        },
    }
}

/// Whether a record survives the join: its inode number is a member of
/// the socket-inode set.
pub open spec fn spec_record_matches(entries: Seq<(Seq<char>, Seq<char>)>, inodes: Set<u64>) -> bool {
    match spec_record_inode(entries) {
        Some(d) => inodes.contains(d),
        None => false,
    }
}

/// The decoded address pair of a record: both the "local_address" and the
/// "rem_address" field must be present and decode.
pub open spec fn spec_record_pair(entries: Seq<(Seq<char>, Seq<char>)>) -> Option<SocketAddrPair> {
    match (spec_lookup(entries, "local_address"@), spec_lookup(entries, "rem_address"@)) {
        (Some(l), Some(r)) => match (spec_decode_sockaddr(l), spec_decode_sockaddr(r)) {
            (Some(a), Some(b)) => Some(SocketAddrPair { local: a, remote: b }),
            _ => None,
        },
        _ => None,
    }
}

/// What filtering and decoding the rows from index `i` on yields: the
/// pairs of the surviving rows in order, or the first row's failure.
pub open spec fn spec_resolve_rows(
    rows: Seq<Seq<(Seq<char>, Seq<char>)>>,
    inodes: Set<u64>,
    i: int,
) -> Result<Seq<SocketAddrPair>, SocketError>
    decreases rows.len() - i,
{
    if i < 0 || i >= rows.len() {
        Ok(Seq::empty())
    } else if spec_record_matches(rows[i], inodes) {
        match spec_record_pair(rows[i]) {
            None => Err(SocketError::MalformedAddress),
            Some(p) => match spec_resolve_rows(rows, inodes, i + 1) {
                Ok(t) => Ok(seq![p] + t),
                Err(e) => Err(e),
            },
        }
    } else {
        spec_resolve_rows(rows, inodes, i + 1)
    }
}

/// The records of a table text, one per data line.
pub open spec fn spec_table_rows(text: Seq<char>) -> Seq<Seq<(Seq<char>, Seq<char>)>> {
    let lines = spec_lines(text);
    Seq::new((lines.len() - 1) as nat, |i: int| spec_record(lines[0], lines[i + 1]))
}

/// What resolving a table against an inode set yields: malformed without
/// a header line, else the surviving rows' decoded pairs or the first
/// failure.
pub open spec fn spec_resolve_table(text: Seq<char>, inodes: Set<u64>) -> Result<
    Seq<SocketAddrPair>,
    SocketError,
> {
    if spec_lines(text).len() == 0 {
        Err(SocketError::MalformedTable)
    } else {
        spec_resolve_rows(spec_table_rows(text), inodes, 0)
    }
}

/// Filters the connection table's rows by the socket-inode set and
/// decodes each surviving row's addresses, in table row order; the first
/// failure aborts the whole query with no partial result.
pub fn resolve_sockets(table_text: &str, inodes: &SocketInodeSet) -> (r: Result<
    Vec<SocketAddrPair>,
    SocketError,
>)
    ensures
        match spec_resolve_table(table_text@, inodes@) {
            Ok(ps) => r matches Ok(v) && v@ == ps,
            Err(e) => r == Err::<Vec<SocketAddrPair>, SocketError>(e),
        },
{
    let ghost lns = spec_lines(table_text@);
    let ghost iset = inodes@;
    let records = match parse_table(table_text) {
        Ok(v) => v,
        Err(e) => {
            return Err(e);
        },
    };
    let ghost rows = spec_table_rows(table_text@);
    proof {
        assert(rows.len() == records@.len());
        assert(forall|j: int|
            0 <= j < records@.len() ==> (#[trigger] records@[j]).entries_view() == rows[j]);
    }
    let mut out: Vec<SocketAddrPair> = Vec::new();
    let mut i: usize = 0;
    while i < records.len()
        invariant
            i <= records@.len(),
            iset == inodes@,
            spec_lines(table_text@).len() > 0,
            rows == spec_table_rows(table_text@),
            rows.len() == records@.len(),
            forall|j: int|
                0 <= j < records@.len() ==> (#[trigger] records@[j]).entries_view() == rows[j],
            ({
                let whole = spec_resolve_rows(rows, iset, 0);
                match spec_resolve_rows(rows, iset, i as int) {
                    Ok(t) => whole == Ok::<Seq<SocketAddrPair>, SocketError>(out@ + t),
                    Err(e) => whole == Err::<Seq<SocketAddrPair>, SocketError>(e),
                }
            }),
        decreases records@.len() - i,
    {
        let rec = &records[i];
        let ghost ent = rows[i as int];
        let matched = match rec.get("inode") {
            None => false,
            Some(v) => match parse_radix_u64(v.as_str(), 10, 0xFFFF_FFFF_FFFF_FFFF) {
                None => false,
                Some(d) => inodes.contains(d),
            },
        };
        proof {
            assert(matched == spec_record_matches(ent, iset));
        }
        if matched {
            let pair_opt = match (rec.get("local_address"), rec.get("rem_address")) {
                (Some(l), Some(rr)) => match parse_hex_sockaddr(l.as_str()) {
                    Ok(a) => match parse_hex_sockaddr(rr.as_str()) {
                        Ok(b) => Some(SocketAddrPair { local: a, remote: b }),
                        Err(_) => None,
                    },
                    Err(_) => None,
                },
                _ => None,
            };
            proof {
                assert(pair_opt == spec_record_pair(ent));
            }
            match pair_opt {
                Some(p) => {
                    let ghost out0 = out@;
                    out.push(p);
                    proof {
                        if spec_resolve_rows(rows, iset, i + 1) is Ok {
                            let t = spec_resolve_rows(rows, iset, i + 1)->Ok_0;
                            assert(spec_resolve_rows(rows, iset, i as int) == Ok::<
                                Seq<SocketAddrPair>,
                                SocketError,
                            >(seq![p] + t));
                            assert(out0 + (seq![p] + t) =~= out@ + t);
                        }
                    }
                },
                None => {
                    proof {
                        assert(spec_resolve_rows(rows, iset, i as int) == Err::<
                            Seq<SocketAddrPair>,
                            SocketError,
                        >(SocketError::MalformedAddress));
                    }
                    return Err(SocketError::MalformedAddress);
                },
            }
        }
        i += 1;
    }
    proof {
        assert(spec_resolve_rows(rows, iset, i as int) == Ok::<Seq<SocketAddrPair>, SocketError>(
            Seq::empty(),
        ));
        assert(out@ + Seq::<SocketAddrPair>::empty() =~= out@);
    }
    Ok(out)
}

/// Everything an unverified caller read of the located process: its
/// descriptor reports and its connection table text.
pub struct ProcessData {
    pub fds: Vec<FdInfo>,
    pub table: String,
}

/// What one whole query yields, given whether a process was located and
/// what was read of it: no process fails with `NotFound`; otherwise the
/// table is resolved against the process's socket inodes.
pub open spec fn spec_resolve_query(located: Option<ProcessData>) -> Result<
    Seq<SocketAddrPair>,
    SocketError,
> {
    match located {
        None => Err(SocketError::NotFound),
        Some(d) => spec_resolve_table(d.table@, spec_socket_inodes(d.fds@)),
    }
}

/// Resolves one query from what was read. When no process was located the
/// query fails with `NotFound` and no partial list is produced; otherwise
/// the socket inodes are collected and the table joined against them.
pub fn resolve(located: &Option<ProcessData>) -> (r: Result<Vec<SocketAddrPair>, SocketError>)
    ensures
        match spec_resolve_query(*located) {
            Ok(ps) => r matches Ok(v) && v@ == ps,
            Err(e) => r == Err::<Vec<SocketAddrPair>, SocketError>(e),
        },
{
    match located {
        None => Err(SocketError::NotFound),
        Some(d) => {
            let inodes = collect_socket_inodes(&d.fds);
            resolve_sockets(d.table.as_str(), &inodes)
        },
    }
}

/// Law: a row whose "inode" field holds the number `d` is retained by any
/// set containing `d` and excluded by any set not containing it; in
/// particular adding `d` to a set retains the row and removing `d`
/// excludes it.
pub proof fn lemma_inode_membership_exact(
    entries: Seq<(Seq<char>, Seq<char>)>,
    inodes: Set<u64>,
    d: u64,
)
    requires
        spec_record_inode(entries) == Some(d),
    ensures
        spec_record_matches(entries, inodes) == inodes.contains(d),
        spec_record_matches(entries, inodes.insert(d)),
        !spec_record_matches(entries, inodes.remove(d)),
{
}

proof fn lemma_resolve_rows_empty_set(
    rows: Seq<Seq<(Seq<char>, Seq<char>)>>,
    inodes: Set<u64>,
    i: int,
)
    requires
        forall|x: u64| !inodes.contains(x),
        0 <= i <= rows.len(),
    ensures
        spec_resolve_rows(rows, inodes, i) == Ok::<Seq<SocketAddrPair>, SocketError>(Seq::empty()),
    decreases rows.len() - i,
{
    if i < rows.len() {
        lemma_resolve_rows_empty_set(rows, inodes, i + 1);
    }
}

/// Law: with an empty socket-inode set, any table with a header line
/// resolves to the empty list, whatever rows it holds.
pub proof fn lemma_empty_inode_set(text: Seq<char>, inodes: Set<u64>)
    requires
        forall|x: u64| !inodes.contains(x),
        spec_lines(text).len() > 0,
    ensures
        spec_resolve_table(text, inodes) == Ok::<Seq<SocketAddrPair>, SocketError>(Seq::empty()),
{
    lemma_resolve_rows_empty_set(spec_table_rows(text), inodes, 0);
}

} // verus!
