//! Decoding and encoding of the connection table's hexadecimal socket
//! addresses: a token `ip:port` with the IPv4 address in base 16 before the
//! last colon and the port in base 16 after it.

use vstd::arithmetic::div_mod::{lemma_fundamental_div_mod, lemma_multiply_divide_lt};
use vstd::prelude::*;

use crate::num::{is_radix_digit, is_radix_seq, radix_digit_value, radix_seq_value, spec_parse_radix, parse_radix_u64};
use crate::SocketError;

verus! {

/// An IPv4 address and port as decoded from the connection table: the raw
/// parsed integers, with no byte-order correction applied to `ip` (the
/// table's word order is the caller's concern).
#[derive(Clone, Copy, Debug, PartialEq, Eq, Structural)]
pub struct Ipv4SocketAddr {
    pub ip: u32,
    pub port: u16,
}

/// The local and remote ends of one connection, in table row order.
#[derive(Clone, Copy, Debug, PartialEq, Eq, Structural)]
pub struct SocketAddrPair {
    pub local: Ipv4SocketAddr,
    pub remote: Ipv4SocketAddr,
}

/// Index of the last colon of `s`, if it has one.
pub open spec fn last_colon_index(s: Seq<char>) -> Option<int>
    decreases s.len(),
{
    if s.len() == 0 {
        None
    } else if s.last() == ':' {
        Some(s.len() - 1)
    } else {
        last_colon_index(s.drop_last())
    }
}

/// What decoding an address token yields: the token splits at its last
/// colon into two non-empty hexadecimal parts whose values fit 32 and 16
/// bits; anything else is malformed.
pub open spec fn spec_decode_sockaddr(s: Seq<char>) -> Option<Ipv4SocketAddr> {
    match last_colon_index(s) {
        None => None,
        Some(ci) => {
            let ip_part = s.subrange(0, ci);
            let port_part = s.subrange(ci + 1, s.len() as int);
            match (
                spec_parse_radix(ip_part, 16, u32::MAX as nat),
                spec_parse_radix(port_part, 16, u16::MAX as nat),
            ) {
                (Some(ip), Some(port)) => Some(
                    Ipv4SocketAddr { ip: ip as u32, port: port as u16 },
                ),
                _ => None,
            }
        },
    }
}

proof fn lemma_no_colon(s: Seq<char>)
    requires
        forall|j: int| 0 <= j < s.len() ==> s[j] != ':',
    ensures
        last_colon_index(s) is None,
    decreases s.len(),
{
    if s.len() > 0 {
        lemma_no_colon(s.drop_last());
    }
}

proof fn lemma_last_colon(s: Seq<char>, ci: int)
    requires
        0 <= ci < s.len(),
        s[ci] == ':',
        forall|j: int| ci < j < s.len() ==> s[j] != ':',
    ensures
        last_colon_index(s) == Some(ci),
    decreases s.len(),
{
    if s.last() == ':' {
        assert(ci == s.len() - 1);
    } else {
        lemma_last_colon(s.drop_last(), ci);
    }
}

/// Decodes a hexadecimal `ip:port` token, splitting at the last colon;
/// a token without a colon, with a non-hexadecimal part, or with a value
/// out of range is malformed.
pub fn parse_hex_sockaddr(addr: &str) -> (r: Result<Ipv4SocketAddr, SocketError>)
    ensures
        match spec_decode_sockaddr(addr@) {
            Some(a) => r == Ok::<Ipv4SocketAddr, SocketError>(a),
            None => r == Err::<Ipv4SocketAddr, SocketError>(SocketError::MalformedAddress),
        },
{
    let n = addr.unicode_len();
    let mut found = false;
    let mut ci: usize = 0;
    let mut i: usize = 0;
    while i < n
        invariant
            i <= n,
            n == addr@.len(),
            found ==> ci < i && addr@[ci as int] == ':' && (forall|j: int|
                ci < j < i ==> addr@[j] != ':'),
            !found ==> forall|j: int| 0 <= j < i ==> addr@[j] != ':',
        decreases n - i,
    {
        if addr.get_char(i) == ':' {
            found = true;
            ci = i;
        }
        i += 1;
    }
    if !found {
        proof {
            lemma_no_colon(addr@);
        }
        return Err(SocketError::MalformedAddress);
    }
    proof {
        lemma_last_colon(addr@, ci as int);
    }
    let ip_str = addr.substring_char(0, ci);
    let port_str = addr.substring_char(ci + 1, n);
    let ip = match parse_radix_u64(ip_str, 16, 0xFFFF_FFFF) {
        Some(v) => v as u32,
        None => {
            return Err(SocketError::MalformedAddress);
        },
    };
    let port = match parse_radix_u64(port_str, 16, 0xFFFF) {
        Some(v) => v as u16,
        None => {
            return Err(SocketError::MalformedAddress);
        },
    };
    Ok(Ipv4SocketAddr { ip, port })
}

/// The hexadecimal digit characters, uppercase for ten through fifteen.
pub open spec fn hex_char_upper(d: nat) -> char {
    if d == 0 {
        '0'
    } else if d == 1 {
        '1'
    } else if d == 2 {
        '2'
    } else if d == 3 {
        '3'
    } else if d == 4 {
        '4'
    } else if d == 5 {
        '5'
    } else if d == 6 {
        '6'
    } else if d == 7 {
        '7'
    } else if d == 8 {
        '8'
    } else if d == 9 {
        '9'
    } else if d == 10 {
        'A'
    } else if d == 11 {
        'B'
    } else if d == 12 {
        'C'
    } else if d == 13 {
        'D'
    } else if d == 14 {
        'E'
    } else {
        'F'
    }
}

/// The `width` low hexadecimal digits of `v`, most significant first.
pub open spec fn spec_hex_digits(v: nat, width: nat) -> Seq<char>
    decreases width,
{
    if width == 0 {
        Seq::empty()
    } else {
        spec_hex_digits(v / 16, (width - 1) as nat).push(hex_char_upper(v % 16))
    }
}

/// Sixteen to the power `w`.
pub open spec fn pow16(w: nat) -> nat
    decreases w,
{
    if w == 0 {
        1
    } else {
        16 * pow16((w - 1) as nat)
    }
}

/// The canonical token for an address: eight hexadecimal digits of the ip,
/// a colon, four hexadecimal digits of the port.
pub open spec fn spec_encode_sockaddr(a: Ipv4SocketAddr) -> Seq<char> {
    spec_hex_digits(a.ip as nat, 8) + seq![':'] + spec_hex_digits(a.port as nat, 4)
}

fn hex_char_of(d: u64) -> (c: char)
    requires
        d < 16,
    ensures
        c == hex_char_upper(d as nat),
{
    match d {
        0 => '0',
        1 => '1',
        2 => '2',
        3 => '3',
        4 => '4',
        5 => '5',
        6 => '6',
        7 => '7',
        8 => '8',
        9 => '9',
        10 => 'A',
        11 => 'B',
        12 => 'C',
        13 => 'D',
        14 => 'E',
        _ => 'F',
    }
}

fn push_hex_digits(s: &mut String, v: u64, width: usize)
    ensures
        final(s)@ == old(s)@ + spec_hex_digits(v as nat, width as nat),
    decreases width,
{
    if width == 0 {
        proof {
            assert(old(s)@ + spec_hex_digits(v as nat, 0) =~= old(s)@);
        }
    } else {
        let ghost pre = s@;
        push_hex_digits(s, v / 16, width - 1);
        let c = hex_char_of(v % 16);
        crate::strutil::push_char(s, c);
        proof {
            assert((pre + spec_hex_digits((v / 16) as nat, (width - 1) as nat)).push(c) =~= pre
                + spec_hex_digits(v as nat, width as nat));
        }
    }
}

/// Encodes an address back into its canonical hexadecimal token.
pub fn encode_sockaddr(a: Ipv4SocketAddr) -> (r: String)
    ensures
        r@ == spec_encode_sockaddr(a),
{
    let mut s = String::new();
    push_hex_digits(&mut s, a.ip as u64, 8);
    crate::strutil::push_char(&mut s, ':');
    push_hex_digits(&mut s, a.port as u64, 4);
    proof {
        assert(s@ =~= spec_encode_sockaddr(a));
    }
    s
}

proof fn lemma_hex_digits_are_digits(v: nat, width: nat)
    ensures
        spec_hex_digits(v, width).len() == width,
        forall|i: int|
            0 <= i < width ==> is_radix_digit(#[trigger] spec_hex_digits(v, width)[i], 16)
                && spec_hex_digits(v, width)[i] != ':',
    decreases width,
{
    if width > 0 {
        lemma_hex_digits_are_digits(v / 16, (width - 1) as nat);
        let d = v % 16;
        assert(is_radix_digit(hex_char_upper(d), 16) && hex_char_upper(d) != ':');
    }
}

proof fn lemma_hex_digits_value(v: nat, width: nat)
    requires
        v < pow16(width),
    ensures
        radix_seq_value(spec_hex_digits(v, width), 16) == v,
    decreases width,
{
    if width == 0 {
        assert(v == 0);
    } else {
        lemma_multiply_divide_lt(v as int, 16, pow16((width - 1) as nat) as int);
        lemma_hex_digits_value(v / 16, (width - 1) as nat);
        let ds = spec_hex_digits(v, width);
        assert(ds.drop_last() =~= spec_hex_digits(v / 16, (width - 1) as nat));
        assert(radix_digit_value(hex_char_upper(v % 16)) == v % 16);
        lemma_fundamental_div_mod(v as int, 16);
    }
}

/// Law: decoding the canonical encoding of any address yields that address
/// back unchanged.
pub proof fn lemma_decode_encode_roundtrip(a: Ipv4SocketAddr)
    ensures
        spec_decode_sockaddr(spec_encode_sockaddr(a)) == Some(a),
{
    let enc = spec_encode_sockaddr(a);
    let d8 = spec_hex_digits(a.ip as nat, 8);
    let d4 = spec_hex_digits(a.port as nat, 4);
    lemma_hex_digits_are_digits(a.ip as nat, 8);
    lemma_hex_digits_are_digits(a.port as nat, 4);
    assert(enc.len() == 13);
    assert(enc[8] == ':');
    assert(forall|j: int| 8 < j < 13 ==> enc[j] == d4[j - 9] && enc[j] != ':');
    lemma_last_colon(enc, 8);
    assert(enc.subrange(0, 8) =~= d8);
    assert(enc.subrange(9, 13) =~= d4);
    assert(pow16(0) == 1);
    assert(pow16(1) == 16);
    assert(pow16(2) == 0x100);
    assert(pow16(3) == 0x1000);
    assert(pow16(4) == 0x1_0000);
    assert(pow16(5) == 0x10_0000);
    assert(pow16(6) == 0x100_0000);
    assert(pow16(7) == 0x1000_0000);
    assert(pow16(8) == 0x1_0000_0000);
    lemma_hex_digits_value(a.ip as nat, 8);
    lemma_hex_digits_value(a.port as nat, 4);
    assert(is_radix_seq(d8, 16));
    assert(is_radix_seq(d4, 16));
}

} // verus!
