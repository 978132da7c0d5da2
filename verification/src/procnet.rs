use crate::text::{decimal, digit_char};
use vstd::prelude::*;

verus! {

/// The pieces of `s` between separators, left to right: its maximal runs
/// of bytes other than `sep` (empty pieces are left out).
pub open spec fn tokens(s: Seq<u8>, sep: u8) -> Seq<Seq<u8>>
    decreases s.len(),
{
    if s.len() == 0 {
        Seq::empty()
    } else {
        let prev = tokens(s.drop_last(), sep);
        let b = s.last();
        if b == sep {
            prev
        } else if s.len() >= 2 && s[s.len() - 2] != sep && prev.len() > 0 {
            prev.drop_last().push(prev.last().push(b))
        } else {
            prev.push(seq![b])
        }
    }
}

/// The fields of a line: the pieces between spaces.
pub open spec fn fields(line: Seq<u8>) -> Seq<Seq<u8>> {
    tokens(line, 32)
}

/// The lines of a text: the pieces between line feeds.
pub open spec fn lines(text: Seq<u8>) -> Seq<Seq<u8>> {
    tokens(text, 10)
}

/// The value of a hexadecimal digit, either case.
pub open spec fn hex_digit(b: u8) -> Option<nat> {
    if 48 <= b <= 57 {
        Some((b - 48) as nat)
    } else if 65 <= b <= 70 {
        Some((b - 55) as nat)
    } else if 97 <= b <= 102 {
        Some((b - 87) as nat)
    } else {
        None
    }
}

/// Whether a byte is a decimal digit.
pub open spec fn is_digit(b: u8) -> bool {
    48 <= b <= 57
}

/// The value of a numeral of decimal digits (0 for the empty one).
pub open spec fn dec_value(s: Seq<u8>) -> nat
    decreases s.len(),
{
    if s.len() == 0 {
        0
    } else {
        dec_value(s.drop_last()) * 10 + (s.last() - 48) as nat
    }
}

/// Ten to the power `n`.
pub open spec fn pow10(n: nat) -> nat
    decreases n,
{
    if n == 0 {
        1
    } else {
        pow10((n - 1) as nat) * 10
    }
}

/// A decimal numeral of at most 19 digits (so that its value fits a `u64`):
/// its value.
pub open spec fn short_decimal(s: Seq<u8>) -> Option<u64> {
    if 0 < s.len() <= 19 && forall|i: int| 0 <= i < s.len() ==> is_digit(#[trigger] s[i]) {
        Some(dec_value(s) as u64)
    } else {
        None
    }
}

/// The port of a local address field `ADDRESS:PORT`, the port written as
/// four hexadecimal digits.
pub open spec fn address_port(field: Seq<u8>) -> Option<u16> {
    let n = field.len() as int;
    if n >= 5 && field[n - 5] == 58 && hex_digit(field[n - 4]) is Some && hex_digit(
        field[n - 3],
    ) is Some && hex_digit(field[n - 2]) is Some && hex_digit(field[n - 1]) is Some {
        Some(
            (hex_digit(field[n - 4])->0 * 4096 + hex_digit(field[n - 3])->0 * 256 + hex_digit(
                field[n - 2],
            )->0 * 16 + hex_digit(field[n - 1])->0) as u16,
        )
    } else {
        None
    }
}

/// A line of the kernel's socket tables (`/proc/net/tcp`, `/proc/net/tcp6`)
/// that describes a listening socket: its local port and its inode. The
/// second field is the local address, the fourth the state (`0A` for a
/// listening socket) and the tenth the inode. The heading line and lines
/// of sockets in other states give nothing.
pub open spec fn listening_socket_of(line: Seq<u8>) -> Option<(u16, u64)> {
    let f = fields(line);
    if f.len() >= 10 && f[3] == seq![48u8, 65u8] && address_port(f[1]) is Some && short_decimal(
        f[9],
    ) is Some {
        Some((address_port(f[1])->0, short_decimal(f[9])->0))
    } else {
        None
    }
}

/// A numeral's value is less than ten to the power of its length.
proof fn lemma_dec_value_bound(s: Seq<u8>)
    requires
        forall|i: int| 0 <= i < s.len() ==> is_digit(#[trigger] s[i]),
    ensures
        dec_value(s) < pow10(s.len()),
    decreases s.len(),
{
    if s.len() > 0 {
        let t = s.drop_last();
        assert forall|i: int| 0 <= i < t.len() implies is_digit(#[trigger] t[i]) by {
            assert(t[i] == s[i]);
        }
        lemma_dec_value_bound(t);
        let v = dec_value(t);
        let p = pow10(t.len());
        let d = (s.last() - 48) as nat;
        assert(is_digit(s[s.len() - 1]));
        assert(v * 10 + d < p * 10) by (nonlinear_arith)
            requires
                v < p,
                d < 10,
        ;
    }
}

/// Nineteen digits stay below `u64::MAX`.
proof fn lemma_pow10_19()
    ensures
        pow10(19) == 10_000_000_000_000_000_000,
{
    reveal_with_fuel(pow10, 20);
}

/// The value of a short decimal numeral.
fn parse_short_decimal(s: &[u8]) -> (r: Option<u64>)
    ensures
        r == short_decimal(s@),
{
    let n = s.len();
    if n == 0 || n > 19 {
        return None;
    }
    let mut value: u64 = 0;
    let mut i: usize = 0;
    while i < n
        invariant
            n == s@.len(),
            0 < n <= 19,
            i <= n,
            forall|k: int| 0 <= k < i ==> is_digit(#[trigger] s@[k]),
            value == dec_value(s@.take(i as int)),
            value < pow10(i as nat),
        decreases n - i,
    {
        let b = s[i];
        if b < 48 || b > 57 {
            assert(!is_digit(s@[i as int]));
            return None;
        }
        proof {
            assert(s@.take(i + 1).drop_last() =~= s@.take(i as int));
            reveal_with_fuel(pow10, 2);
            lemma_pow10_monotone(i as nat + 1, 19);
            lemma_pow10_19();
            assert(value * 10 + (b - 48) < pow10(i as nat) * 10) by (nonlinear_arith)
                requires
                    value < pow10(i as nat),
                    b - 48 < 10,
            ;
        }
        value = value * 10 + (b - 48) as u64;
        i = i + 1;
    }
    assert(s@.take(n as int) =~= s@);
    Some(value)
}

proof fn lemma_pow10_monotone(a: nat, b: nat)
    requires
        a <= b,
    ensures
        pow10(a) <= pow10(b),
    decreases b,
{
    if a < b {
        lemma_pow10_monotone(a, (b - 1) as nat);
        lemma_pow10_positive((b - 1) as nat);
    }
}

proof fn lemma_pow10_positive(n: nat)
    ensures
        pow10(n) >= 1,
    decreases n,
{
    if n > 0 {
        lemma_pow10_positive((n - 1) as nat);
    }
}

/// The value of a hexadecimal digit.
fn parse_hex_digit(b: u8) -> (r: Option<u8>)
    ensures
        match hex_digit(b) {
            Some(v) => r == Some(v as u8),
            None => r is None,
        },
{
    if 48 <= b && b <= 57 {
        Some(b - 48)
    } else if 65 <= b && b <= 70 {
        Some(b - 55)
    } else if 97 <= b && b <= 102 {
        Some(b - 87)
    } else {
        None
    }
}

/// The port of a local address field.
fn parse_address_port(field: &[u8]) -> (r: Option<u16>)
    ensures
        r == address_port(field@),
{
    let n = field.len();
    if n < 5 || field[n - 5] != 58 {
        return None;
    }
    let a = parse_hex_digit(field[n - 4]);
    let b = parse_hex_digit(field[n - 3]);
    let c = parse_hex_digit(field[n - 2]);
    let d = parse_hex_digit(field[n - 1]);
    match (a, b, c, d) {
        (Some(a), Some(b), Some(c), Some(d)) => {
            Some((a as u16) * 4096 + (b as u16) * 256 + (c as u16) * 16 + (d as u16))
        },
        _ => None,
    }
}

/// Splits `line` into the pieces between separators `sep`.
fn split_tokens(line: &[u8], sep: u8) -> (r: Vec<Vec<u8>>)
    ensures
        r@.map_values(|v: Vec<u8>| v@) == tokens(line@, sep),
{
    let mut out: Vec<Vec<u8>> = Vec::new();
    let n = line.len();
    let mut i: usize = 0;
    while i < n
        invariant
            n == line@.len(),
            i <= n,
            out@.map_values(|v: Vec<u8>| v@) == tokens(line@.take(i as int), sep),
        decreases n - i,
    {
        let b = line[i];
        let ghost prev = tokens(line@.take(i as int), sep);
        proof {
            assert(line@.take(i + 1).drop_last() =~= line@.take(i as int));
            assert(line@.take(i + 1).last() == b);
            if i >= 1 {
                assert(line@.take(i + 1)[i - 1] == line@[i - 1]);
            }
        }
        if b == sep {
        } else if i >= 1 && line[i - 1] != sep && out.len() > 0 {
            let mut last = out.pop().unwrap();
            let ghost last_view = last@;
            last.push(b);
            out.push(last);
            assert(out@.map_values(|v: Vec<u8>| v@) =~= prev.drop_last().push(prev.last().push(b)));
        } else {
            let mut field: Vec<u8> = Vec::new();
            field.push(b);
            assert(field@ =~= seq![b]);
            out.push(field);
            assert(out@.map_values(|v: Vec<u8>| v@) =~= prev.push(seq![b]));
        }
        i = i + 1;
    }
    assert(line@.take(n as int) =~= line@);
    out
}

/// The local port and inode of a listening socket, from one line of the
/// kernel's socket table; nothing for any other line.
pub fn listening_socket(line: &[u8]) -> (r: Option<(u16, u64)>)
    ensures
        r == listening_socket_of(line@),
{
    let f = split_tokens(line, 32);
    if f.len() < 10 {
        return None;
    }
    let ghost fv = f@.map_values(|v: Vec<u8>| v@);
    assert(fv[3] == f@[3]@ && fv[1] == f@[1]@ && fv[9] == f@[9]@);
    let state = &f[3];
    if !(state.len() == 2 && state[0] == 48 && state[1] == 65) {
        assert(fv[3] != seq![48u8, 65u8]);
        return None;
    }
    assert(fv[3] =~= seq![48u8, 65u8]);
    let port = parse_address_port(f[1].as_slice());
    let inode = parse_short_decimal(f[9].as_slice());
    match (port, inode) {
        (Some(p), Some(i)) => Some((p, i)),
        _ => None,
    }
}

/// The listening sockets that the lines of a socket table describe, in
/// order.
pub open spec fn sockets_of_lines(ls: Seq<Seq<u8>>) -> Seq<(u16, u64)>
    decreases ls.len(),
{
    if ls.len() == 0 {
        Seq::empty()
    } else {
        let prev = sockets_of_lines(ls.drop_last());
        match listening_socket_of(ls.last()) {
            Some(sock) => prev.push(sock),
            None => prev,
        }
    }
}

/// The local port and inode of every listening socket in the text of a
/// kernel socket table, in the order of its lines.
pub fn listening_sockets(table: &[u8]) -> (r: Vec<(u16, u64)>)
    ensures
        r@ == sockets_of_lines(lines(table@)),
{
    let ls = split_tokens(table, 10);
    let ghost lv = ls@.map_values(|v: Vec<u8>| v@);
    let mut out: Vec<(u16, u64)> = Vec::new();
    let mut i: usize = 0;
    while i < ls.len()
        invariant
            i <= ls.len(),
            lv == ls@.map_values(|v: Vec<u8>| v@),
            lv == lines(table@),
            out@ == sockets_of_lines(lv.take(i as int)),
        decreases ls.len() - i,
    {
        assert(lv.take(i + 1).drop_last() =~= lv.take(i as int));
        assert(lv.take(i + 1).last() == ls@[i as int]@);
        match listening_socket(ls[i].as_slice()) {
            Some(sock) => {
                out.push(sock);
            },
            None => {},
        }
        i = i + 1;
    }
    assert(lv.take(ls.len() as int) =~= lv);
    out
}

/// The inode of a socket from the target of a process's file descriptor
/// link, `socket:[INODE]`; nothing for any other target.
pub open spec fn socket_link_inode(link: Seq<u8>) -> Option<u64> {
    let n = link.len() as int;
    if n >= 9 && link.take(8) == seq![115u8, 111u8, 99u8, 107u8, 101u8, 116u8, 58u8, 91u8]
        && link[n - 1] == 93 {
        short_decimal(link.subrange(8, n - 1))
    } else {
        None
    }
}

/// The inode of the socket that a file descriptor link points to.
pub fn socket_inode(link: &[u8]) -> (r: Option<u64>)
    ensures
        r == socket_link_inode(link@),
{
    let n = link.len();
    if n < 9 || link[n - 1] != 93 {
        return None;
    }
    if !(link[0] == 115 && link[1] == 111 && link[2] == 99 && link[3] == 107 && link[4] == 101
        && link[5] == 116 && link[6] == 58 && link[7] == 91) {
        assert(link@.take(8) != seq![115u8, 111u8, 99u8, 107u8, 101u8, 116u8, 58u8, 91u8]) by {
            let p = seq![115u8, 111u8, 99u8, 107u8, 101u8, 116u8, 58u8, 91u8];
            if link@.take(8) == p {
                assert(link@.take(8)[0] == p[0] && link@.take(8)[1] == p[1]);
                assert(link@.take(8)[2] == p[2] && link@.take(8)[3] == p[3]);
                assert(link@.take(8)[4] == p[4] && link@.take(8)[5] == p[5]);
                assert(link@.take(8)[6] == p[6] && link@.take(8)[7] == p[7]);
            }
        }
        return None;
    }
    assert(link@.take(8) =~= seq![115u8, 111u8, 99u8, 107u8, 101u8, 116u8, 58u8, 91u8]);
    let digits = slice_between(link, 8, n - 1);
    parse_short_decimal(digits.as_slice())
}

/// The bytes of `s` from `start` up to `end`.
fn slice_between(s: &[u8], start: usize, end: usize) -> (r: Vec<u8>)
    requires
        start <= end <= s@.len(),
    ensures
        r@ == s@.subrange(start as int, end as int),
{
    let mut out: Vec<u8> = Vec::new();
    let mut i = start;
    while i < end
        invariant
            start <= i <= end,
            end <= s@.len(),
            out@ == s@.subrange(start as int, i as int),
        decreases end - i,
    {
        out.push(s[i]);
        assert(out@ =~= s@.subrange(start as int, i + 1));
        i = i + 1;
    }
    out
}

/// The name first given for an inode among the owners, if any.
pub open spec fn owner_of(owners: Seq<(u64, Seq<char>)>, inode: u64) -> Option<Seq<char>>
    decreases owners.len(),
{
    if owners.len() == 0 {
        None
    } else if owners[0].0 == inode {
        Some(owners[0].1)
    } else {
        owner_of(owners.drop_first(), inode)
    }
}

/// The owners as texts: each socket inode with the name of a process that
/// holds it.
pub open spec fn owners_view(owners: Seq<(u64, String)>) -> Seq<(u64, Seq<char>)> {
    owners.map_values(|e: (u64, String)| (e.0, e.1@))
}

/// Each listening socket whose inode some process holds, in order, as its
/// port with the name of the first such process.
pub open spec fn port_owner_table(sockets: Seq<(u16, u64)>, owners: Seq<(u64, Seq<char>)>) -> Seq<
    (u16, Seq<char>),
>
    decreases sockets.len(),
{
    if sockets.len() == 0 {
        Seq::empty()
    } else {
        let prev = port_owner_table(sockets.drop_last(), owners);
        match owner_of(owners, sockets.last().1) {
            Some(name) => prev.push((sockets.last().0, name)),
            None => prev,
        }
    }
}

/// The name first given for `inode` among the owners.
fn find_owner(owners: &Vec<(u64, String)>, inode: u64) -> (r: Option<String>)
    ensures
        match r {
            Some(name) => owner_of(owners_view(owners@), inode) == Some(name@),
            None => owner_of(owners_view(owners@), inode) is None,
        },
{
    let ghost ov = owners_view(owners@);
    let mut i: usize = owners.len();
    let mut found: Option<String> = None;
    while i > 0
        invariant
            i <= owners.len(),
            ov == owners_view(owners@),
            match found {
                Some(name) => owner_of(ov.subrange(i as int, ov.len() as int), inode) == Some(
                    name@,
                ),
                None => owner_of(ov.subrange(i as int, ov.len() as int), inode) is None,
            },
        decreases i,
    {
        i = i - 1;
        let ghost rest = ov.subrange(i as int, ov.len() as int);
        assert(rest.drop_first() =~= ov.subrange(i + 1, ov.len() as int));
        assert(rest[0] == (owners@[i as int].0, owners@[i as int].1@));
        if owners[i].0 == inode {
            found = Some(owners[i].1.clone());
        }
    }
    assert(ov.subrange(0, ov.len() as int) =~= ov);
    found
}

/// The ports of the listening sockets with the names of the processes that
/// hold them: each socket whose inode appears among `owners` gives its port
/// and the name first given for that inode; the others are left out.
pub fn port_owners(sockets: &Vec<(u16, u64)>, owners: &Vec<(u64, String)>) -> (r: Vec<(u16, String)>)
    ensures
        r@.map_values(|e: (u16, String)| (e.0, e.1@)) == port_owner_table(
            sockets@,
            owners_view(owners@),
        ),
{
    let mut out: Vec<(u16, String)> = Vec::new();
    let mut i: usize = 0;
    while i < sockets.len()
        invariant
            i <= sockets.len(),
            out@.map_values(|e: (u16, String)| (e.0, e.1@)) == port_owner_table(
                sockets@.take(i as int),
                owners_view(owners@),
            ),
        decreases sockets.len() - i,
    {
        let ghost before = out@.map_values(|e: (u16, String)| (e.0, e.1@));
        assert(sockets@.take(i + 1).drop_last() =~= sockets@.take(i as int));
        assert(sockets@.take(i + 1).last() == sockets@[i as int]);
        let sock = sockets[i];
        match find_owner(owners, sock.1) {
            Some(name) => {
                let ghost nv = name@;
                out.push((sock.0, name));
                assert(out@.map_values(|e: (u16, String)| (e.0, e.1@)) =~= before.push(
                    (sock.0, nv),
                ));
            },
            None => {},
        }
        i = i + 1;
    }
    assert(sockets@.take(sockets.len() as int) =~= sockets@);
    out
}

/// The upper-case hexadecimal digit of a number below 16, as a byte.
pub open spec fn hex_upper(d: nat) -> u8 {
    if d < 10 {
        (48 + d) as u8
    } else {
        (55 + d) as u8
    }
}

/// A port written as four upper-case hexadecimal digits, as the kernel
/// writes it.
pub open spec fn port_hex(p: u16) -> Seq<u8> {
    seq![
        hex_upper((p / 4096) as nat),
        hex_upper(((p / 256) % 16) as nat),
        hex_upper(((p / 16) % 16) as nat),
        hex_upper((p % 16) as nat),
    ]
}

/// The decimal numeral of `n` as bytes.
pub open spec fn decimal_bytes(n: nat) -> Seq<u8> {
    decimal(n).map_values(|c: char| c as u8)
}

/// An address field that ends in `:` and a port written in hexadecimal
/// gives back that port, whatever the address before it.
pub proof fn lemma_address_port_reads_hex(addr: Seq<u8>, p: u16)
    ensures
        address_port(addr + seq![58u8] + port_hex(p)) == Some(p),
{
    let f = addr + seq![58u8] + port_hex(p);
    let n = f.len() as int;
    assert(f[n - 5] == 58u8);
    assert(f[n - 4] == hex_upper((p / 4096) as nat));
    assert(f[n - 3] == hex_upper(((p / 256) % 16) as nat));
    assert(f[n - 2] == hex_upper(((p / 16) % 16) as nat));
    assert(f[n - 1] == hex_upper((p % 16) as nat));
    assert(p == (p / 4096) * 4096 + ((p / 256) % 16) * 256 + ((p / 16) % 16) * 16 + p % 16);
}

/// A numeral's bytes have the value that the numeral denotes.
pub proof fn lemma_decimal_bytes_value(n: nat)
    ensures
        dec_value(decimal_bytes(n)) == n,
        forall|i: int| 0 <= i < decimal_bytes(n).len() ==> is_digit(#[trigger] decimal_bytes(n)[i]),
        decimal_bytes(n).len() == decimal(n).len(),
    decreases n,
{
    let d = decimal_bytes(n);
    if n >= 10 {
        lemma_decimal_bytes_value(n / 10);
        let p = decimal_bytes(n / 10);
        assert(d.drop_last() =~= p);
        assert(d.last() == (digit_char(n % 10) as u8));
        assert((digit_char(n % 10) as u8) == 48 + n % 10);
        assert forall|i: int| 0 <= i < d.len() implies is_digit(#[trigger] d[i]) by {
            if i < p.len() {
                assert(d[i] == p[i]);
            }
        }
        assert(n == (n / 10) * 10 + n % 10);
    } else {
        assert(d.drop_last() =~= Seq::<u8>::empty());
        assert(d.last() == (digit_char(n) as u8));
        assert((digit_char(n) as u8) == 48 + n);
        assert(dec_value(d.drop_last()) == 0);
    }
}

/// A numeral below ten to the power `k` has at most `k` digits.
proof fn lemma_decimal_length(n: nat, k: nat)
    requires
        k >= 1,
        n < pow10(k),
    ensures
        decimal(n).len() <= k,
    decreases k,
{
    if n >= 10 {
        if k == 1 {
            assert(pow10(1) == 10) by {
                reveal_with_fuel(pow10, 2);
            }
        } else {
            assert(n / 10 < pow10((k - 1) as nat));
            lemma_decimal_length(n / 10, (k - 1) as nat);
        }
    }
}

/// A numeral of a number that fits in nineteen digits reads back as that
/// number.
pub proof fn lemma_short_decimal_reads_back(n: u64)
    requires
        n < 10_000_000_000_000_000_000u64,
    ensures
        short_decimal(decimal_bytes(n as nat)) == Some(n),
{
    lemma_decimal_bytes_value(n as nat);
    lemma_pow10_19();
    lemma_decimal_length(n as nat, 19);
    crate::text::lemma_decimal_denotes(n as nat);
}

/// The link of a socket file descriptor gives back the socket's inode.
pub proof fn lemma_socket_link_reads_back(n: u64)
    requires
        n < 10_000_000_000_000_000_000u64,
    ensures
        socket_link_inode(
            seq![115u8, 111u8, 99u8, 107u8, 101u8, 116u8, 58u8, 91u8] + decimal_bytes(n as nat)
                + seq![93u8],
        ) == Some(n),
{
    let prefix = seq![115u8, 111u8, 99u8, 107u8, 101u8, 116u8, 58u8, 91u8];
    let link = prefix + decimal_bytes(n as nat) + seq![93u8];
    lemma_short_decimal_reads_back(n);
    crate::text::lemma_decimal_denotes(n as nat);
    assert(link.take(8) =~= prefix);
    assert(link.subrange(8, link.len() - 1) =~= decimal_bytes(n as nat));
}

} // verus!
