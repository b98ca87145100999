//! The Linux `/proc` formats: the socket tables `/proc/net/tcp` and
//! `/proc/net/tcp6`, the socket links under `/proc/[pid]/fd`, and the
//! `comm` and `cmdline` files of a process.
use vstd::prelude::*;
use std::collections::HashMap;
use crate::number::{
    decimal, lemma_parse_decimal_roundtrip, parse_unsigned, parse_u16_radix, parse_u32, parse_u64,
};
use crate::port::{sort_by_port, stable_sorted_by_port, PortInfo, PortInfoView};
use crate::text::{
    after_last, after_last_char, chars_of, fields, lines, nul_to_space,
    replace_nul_with_space, split_fields, split_lines, string_from_chars, sub_chars, to_string,
    trim, trim_chars, trim_str,
};

verus! {

broadcast use vstd::std_specs::hash::group_hash_axioms;

/// The `st` column value of a socket in the LISTEN state.
pub open spec fn listen_state() -> Seq<char> {
    seq!['0', 'A']
}

/// The port and inode of a line of a `/proc/net/tcp` table when the socket
/// listens: the line has at least ten fields, the fourth is `0A`, the second
/// ends, after its last `:`, with the port in hexadecimal, and the tenth is
/// the inode in decimal.
pub open spec fn proc_net_entry(line: Seq<char>) -> Option<(u16, u64)> {
    let f = fields(line);
    if f.len() < 10 || f[3] != listen_state() {
        None
    } else {
        match parse_unsigned(after_last(f[1], ':'), 16, u16::MAX as nat) {
            None => None,
            Some(port) => match parse_unsigned(f[9], 10, u64::MAX as nat) {
                None => None,
                Some(inode) => Some((port as u16, inode as u64)),
            },
        }
    }
}

/// The lines of `s` after the first (the header).
pub open spec fn body_lines(s: Seq<char>) -> Seq<Seq<char>> {
    let ls = lines(s);
    if ls.len() == 0 {
        ls
    } else {
        ls.drop_first()
    }
}

/// The row (port, protocol, inode) of a socket table line, when it lists a
/// listening socket.
pub open spec fn proc_net_row(proto: Seq<char>) -> spec_fn(Seq<char>) -> Option<
    (u16, Seq<char>, u64),
> {
    |l: Seq<char>|
        match proc_net_entry(l) {
            Some((port, inode)) => Some((port, proto, inode)),
            None => None,
        }
}

/// The listening sockets of a socket table, each as (port, protocol, inode).
pub open spec fn proc_net_rows(content: Seq<char>, proto: Seq<char>) -> Seq<(u16, Seq<char>, u64)> {
    body_lines(content).filter_map(proc_net_row(proto))
}

proof fn lemma_filter_map_keeps<A, B>(s: Seq<A>, f: spec_fn(A) -> Option<B>, x: A)
    requires
        s.contains(x),
        f(x) is Some,
    ensures
        s.filter_map(f).contains(f(x).unwrap()),
    decreases s.len(),
{
    let y = f(x).unwrap();
    let rest = s.drop_last();
    if s.last() == x {
        assert(s.filter_map(f) == rest.filter_map(f) + seq![y]);
        assert((rest.filter_map(f) + seq![y])[rest.filter_map(f).len() as int] == y);
    } else {
        let i = choose|i: int| 0 <= i < s.len() && s[i] == x;
        assert(rest[i] == x);
        lemma_filter_map_keeps(rest, f, x);
        let j = choose|j: int| 0 <= j < rest.filter_map(f).len() && rest.filter_map(f)[j] == y;
        match f(s.last()) {
            Some(z) => {
                assert((rest.filter_map(f) + seq![z])[j] == y);
            },
            None => {},
        }
    }
}

/// Keeping the elements that `f` maps to a value, and mapping them, in order,
/// is filtering the elements that `f` maps to a value and then mapping each.
pub proof fn lemma_filter_map_is_filter_then_map<A, B>(s: Seq<A>, f: spec_fn(A) -> Option<B>)
    ensures
        s.filter_map(f) == s.filter(|x: A| f(x) is Some).map_values(|x: A| f(x).unwrap()),
    decreases s.len(),
{
    reveal(Seq::filter);
    let p = |x: A| f(x) is Some;
    let g = |x: A| f(x).unwrap();
    if s.len() == 0 {
        assert(s.filter(p).map_values(g) =~= Seq::<B>::empty());
    } else {
        let rest = s.drop_last();
        let l = s.last();
        lemma_filter_map_is_filter_then_map(rest, f);
        if f(l) is Some {
            assert(s.filter(p) == rest.filter(p).push(l));
            assert(rest.filter(p).push(l).map_values(g) =~= rest.filter(p).map_values(g).push(
                g(l),
            ));
            assert(rest.filter_map(f) + seq![f(l).unwrap()] =~= rest.filter_map(f).push(
                f(l).unwrap(),
            ));
        } else {
            assert(s.filter(p) == rest.filter(p));
        }
    }
}

/// The listening sockets of one table: its lines after the header that read
/// as listening sockets, in order, each as (port, `proto`, inode).
pub open spec fn table_rows(content: Option<Seq<char>>, proto: Seq<char>) -> Seq<
    (u16, Seq<char>, u64),
> {
    match content {
        Some(c) => body_lines(c).filter(|l: Seq<char>| proc_net_entry(l) is Some).map_values(
            |l: Seq<char>| (proc_net_entry(l).unwrap().0, proto, proc_net_entry(l).unwrap().1),
        ),
        None => Seq::empty(),
    }
}

/// Every listening socket of both tables is reported, in order: those of
/// the `tcp` table first, then those of the `tcp6` table; so there are as
/// many rows as listening lines in the two tables.
pub proof fn lemma_listening_rows_are_all_listening_lines(
    tcp: Option<Seq<char>>,
    tcp6: Option<Seq<char>>,
)
    ensures
        listening_rows(tcp, tcp6) == table_rows(tcp, "tcp"@) + table_rows(tcp6, "tcp6"@),
        listening_rows(tcp, tcp6).len() == table_rows(tcp, "tcp"@).len() + table_rows(
            tcp6,
            "tcp6"@,
        ).len(),
{
    lemma_table_rows(tcp, "tcp"@);
    lemma_table_rows(tcp6, "tcp6"@);
}

proof fn lemma_table_rows(content: Option<Seq<char>>, proto: Seq<char>)
    ensures
        (match content {
            Some(c) => proc_net_rows(c, proto),
            None => Seq::empty(),
        }) == table_rows(content, proto),
{
    match content {
        Some(c) => {
            let f = proc_net_row(proto);
            lemma_filter_map_is_filter_then_map(body_lines(c), f);
            let p1 = |x: Seq<char>| f(x) is Some;
            let p2 = |l: Seq<char>| proc_net_entry(l) is Some;
            assert(p1 =~= p2);
            let g1 = |x: Seq<char>| f(x).unwrap();
            let g2 = |l: Seq<char>| (proc_net_entry(l).unwrap().0, proto, proc_net_entry(l).unwrap().1);
            assert(body_lines(c).filter(p2).map_values(g1) =~= body_lines(c).filter(p2).map_values(g2));
        },
        None => {},
    }
}

/// Only listening sockets are reported: each row comes from a line after
/// the header whose state is LISTEN (`0A`) and which gives the row's port
/// and inode.
pub proof fn lemma_rows_come_from_listening_lines(
    content: Seq<char>,
    proto: Seq<char>,
    row: (u16, Seq<char>, u64),
)
    requires
        proc_net_rows(content, proto).contains(row),
    ensures
        row.1 == proto,
        exists|line: Seq<char>|
            #[trigger] body_lines(content).contains(line) && fields(line).len() >= 10 && fields(
                line,
            )[3] == listen_state() && proc_net_entry(line) == Some((row.0, row.2)),
{
    body_lines(content).lemma_filter_map_contains(proc_net_row(proto), row);
}

/// A line reads as a listening socket only when it has the socket table's
/// columns, its state column (the fourth) is LISTEN (`0A`), the local
/// address column (the second) ends with the port in hexadecimal after its
/// last `:`, and the inode column (the tenth) is the inode in decimal.
pub proof fn lemma_listening_line_columns(line: Seq<char>)
    ensures
        proc_net_entry(line) matches Some((port, inode)) ==> {
            &&& fields(line).len() >= 10
            &&& fields(line)[3] == seq!['0', 'A']
            &&& parse_unsigned(after_last(fields(line)[1], ':'), 16, u16::MAX as nat) == Some(
                port as nat,
            )
            &&& parse_unsigned(fields(line)[9], 10, u64::MAX as nat) == Some(inode as nat)
        },
{
}

/// Every listening socket is reported: a line after the header that gives a
/// port and an inode yields its row.
pub proof fn lemma_listening_lines_are_reported(
    content: Seq<char>,
    proto: Seq<char>,
    line: Seq<char>,
    port: u16,
    inode: u64,
)
    requires
        body_lines(content).contains(line),
        proc_net_entry(line) == Some((port, inode)),
    ensures
        proc_net_rows(content, proto).contains((port, proto, inode)),
{
    lemma_filter_map_keeps(body_lines(content), proc_net_row(proto), line);
}

/// The plain values of socket rows.
pub open spec fn row_views(s: Seq<(u16, String, u64)>) -> Seq<(u16, Seq<char>, u64)> {
    s.map_values(|e: (u16, String, u64)| (e.0, e.1@, e.2))
}

/// Reads one line of `/proc/net/tcp`: `Some((port, proto, inode))` when the
/// socket listens.
pub fn parse_proc_net_line(line: &str, proto: &str) -> (r: Option<(u16, String, u64)>)
    ensures
        match proc_net_entry(line@) {
            Some((port, inode)) => r matches Some(e) && e.0 == port && e.1@ == proto@ && e.2
                == inode,
            None => r is None,
        },
{
    let chars = chars_of(line);
    parse_proc_net_chars(chars.as_slice(), proto)
}

fn parse_proc_net_chars(line: &[char], proto: &str) -> (r: Option<(u16, String, u64)>)
    ensures
        match proc_net_entry(line@) {
            Some((port, inode)) => r matches Some(e) && e.0 == port && e.1@ == proto@ && e.2
                == inode,
            None => r is None,
        },
{
    let f = split_fields(line);
    let ghost fs = fields(line@);
    if f.len() < 10 {
        return None;
    }
    let state = &f[3];
    if !(state.len() == 2 && state[0] == '0' && state[1] == 'A') {
        assert(fs[3] != listen_state()) by {
            if fs[3] == listen_state() {
                assert(state@ == listen_state());
                assert(state@[0] == '0' && state@[1] == 'A');
            }
        }
        return None;
    }
    assert(fs[3] =~= listen_state());
    let port_hex = after_last_char(f[1].as_slice(), ':');
    let port = match parse_u16_radix(port_hex.as_slice(), 16) {
        Some(p) => p,
        None => {
            return None;
        },
    };
    let inode = match parse_u64(f[9].as_slice()) {
        Some(i) => i,
        None => {
            return None;
        },
    };
    Some((port, to_string(proto), inode))
}

/// The listening sockets of a socket table (its lines after the header).
pub fn parse_proc_net(content: &str, proto: &str) -> (r: Vec<(u16, String, u64)>)
    ensures
        row_views(r@) == proc_net_rows(content@, proto@),
{
    let chars = chars_of(content);
    let ls = split_lines(chars.as_slice());
    let ghost all = lines(content@);
    let ghost body = body_lines(content@);
    let ghost f = proc_net_row(proto@);
    let mut r: Vec<(u16, String, u64)> = Vec::new();
    if ls.len() == 0 {
        assert(row_views(r@) =~= Seq::<(u16, Seq<char>, u64)>::empty());
        assert(body.take(0) =~= body);
        return r;
    }
    let n = ls.len();
    assert(body.take(0) =~= Seq::<Seq<char>>::empty());
    assert(row_views(r@) =~= body.take(0).filter_map(f));
    for j in 1..n
        invariant
            n == ls@.len(),
            n == all.len(),
            n > 0,
            body == all.drop_first(),
            forall|i: int| 0 <= i < n ==> #[trigger] ls@[i]@ == all[i],
            f == proc_net_row(proto@),
            row_views(r@) == body.take(j - 1).filter_map(f),
    {
        let ghost k = j - 1;
        proof {
            body.lemma_filter_map_take_succ(f, k);
            assert(body[k] == all[j as int]);
        }
        let ghost before = r@;
        assert(ls@[j as int]@ == body[k]);
        match parse_proc_net_chars(ls[j].as_slice(), proto) {
            Some(e) => {
                assert(f(body[k]) == Some((e.0, e.1@, e.2)));
                r.push(e);
                assert(row_views(r@) =~= row_views(before).push((e.0, e.1@, e.2)));
                assert(body.take(k + 1).filter_map(f) =~= body.take(k).filter_map(f) + seq![
                    (e.0, e.1@, e.2),
                ]);
            },
            None => {
                assert(f(body[k]) is None);
                assert(body.take(k + 1).filter_map(f) =~= body.take(k).filter_map(f) + Seq::<
                    (u16, Seq<char>, u64),
                >::empty());
            },
        }
        assert(body.take(j as int) == body.take(k + 1));
    }
    assert(body.take(n - 1) =~= body);
    r
}

/// The listening sockets of the two socket tables, those of
/// `/proc/net/tcp` (`tcp`) first and then those of `/proc/net/tcp6`
/// (`tcp6`); a table that could not be read contributes none.
pub open spec fn listening_rows(tcp: Option<Seq<char>>, tcp6: Option<Seq<char>>) -> Seq<
    (u16, Seq<char>, u64),
> {
    (match tcp {
        Some(c) => proc_net_rows(c, "tcp"@),
        None => Seq::empty(),
    }) + (match tcp6 {
        Some(c) => proc_net_rows(c, "tcp6"@),
        None => Seq::empty(),
    })
}

/// The view of an optional string slice.
pub open spec fn opt_str_view(s: Option<&str>) -> Option<Seq<char>> {
    match s {
        Some(t) => Some(t@),
        None => None,
    }
}

/// The process id that a `/proc` entry name stands for, when the name is a
/// number (`str::parse::<u32>`).
pub fn pid_of_dir_name(name: &str) -> (r: Option<u32>)
    ensures
        match parse_unsigned(name@, 10, u32::MAX as nat) {
            Some(v) => r == Some(v as u32),
            None => r is None,
        },
{
    let chars = chars_of(name);
    parse_u32(chars.as_slice())
}

/// The text that starts a socket link under `/proc/[pid]/fd`.
pub open spec fn socket_prefix() -> Seq<char> {
    seq!['s', 'o', 'c', 'k', 'e', 't', ':', '[']
}

/// The inode of a link target of the form `socket:[<inode>]`.
pub open spec fn socket_link_inode(link: Seq<char>) -> Option<u64> {
    if link.len() >= 9 && link.take(8) == socket_prefix() && link.last() == ']' {
        match parse_unsigned(link.subrange(8, link.len() - 1), 10, u64::MAX as nat) {
            Some(v) => Some(v as u64),
            None => None,
        }
    } else {
        None
    }
}

/// The inode named by a socket link target (`socket:[<inode>]`), if the
/// target is one.
pub fn socket_inode(link: &str) -> (r: Option<u64>)
    ensures
        r == socket_link_inode(link@),
{
    let v = chars_of(link);
    socket_inode_chars(v.as_slice())
}

fn socket_inode_chars(v: &[char]) -> (r: Option<u64>)
    ensures
        r == socket_link_inode(v@),
{
    let n = v.len();
    if n < 9 {
        return None;
    }
    let prefix_ok = v[0] == 's' && v[1] == 'o' && v[2] == 'c' && v[3] == 'k' && v[4] == 'e'
        && v[5] == 't' && v[6] == ':' && v[7] == '[';
    if !prefix_ok {
        assert(v@.take(8) != socket_prefix()) by {
            if v@.take(8) == socket_prefix() {
                assert(v@.take(8)[0] == v@[0] && v@.take(8)[1] == v@[1] && v@.take(8)[2] == v@[2]
                    && v@.take(8)[3] == v@[3] && v@.take(8)[4] == v@[4] && v@.take(8)[5] == v@[5]
                    && v@.take(8)[6] == v@[6] && v@.take(8)[7] == v@[7]);
            }
        }
        return None;
    }
    assert(v@.take(8) =~= socket_prefix());
    if v[n - 1] != ']' {
        return None;
    }
    let digits = sub_chars(v, 8, n - 1);
    parse_u64(digits.as_slice())
}

/// An entry of `/proc` that names a process: its id and the targets of the
/// links in its `fd` directory that could be read, in directory order.
pub struct ProcFds {
    pub pid: u32,
    pub links: Vec<String>,
}

impl View for ProcFds {
    type V = (u32, Seq<Seq<char>>);

    open spec fn view(&self) -> (u32, Seq<Seq<char>>) {
        (self.pid, self.links.deep_view())
    }
}

/// `m` after recording `pid` as the owner of each socket among `links`, in order.
pub open spec fn record_links(m: Map<u64, u32>, pid: u32, links: Seq<Seq<char>>) -> Map<u64, u32>
    decreases links.len(),
{
    if links.len() == 0 {
        m
    } else {
        let m2 = record_links(m, pid, links.drop_last());
        match socket_link_inode(links.last()) {
            Some(inode) => m2.insert(inode, pid),
            None => m2,
        }
    }
}

/// The owner of each socket inode, processes being visited in order, so that
/// a later owner of the same socket replaces an earlier one.
pub open spec fn inode_owners(procs: Seq<(u32, Seq<Seq<char>>)>) -> Map<u64, u32>
    decreases procs.len(),
{
    if procs.len() == 0 {
        Map::empty()
    } else {
        let last = procs.last();
        record_links(inode_owners(procs.drop_last()), last.0, last.1)
    }
}

/// The link `socket:[<n>]`, `n` in decimal, names inode `n`.
pub proof fn lemma_socket_link_names_its_inode(n: u64)
    ensures
        socket_link_inode(socket_prefix() + decimal(n as nat) + seq![']']) == Some(n),
{
    let link = socket_prefix() + decimal(n as nat) + seq![']'];
    lemma_parse_decimal_roundtrip(n as nat, u64::MAX as nat);
    assert(link.take(8) =~= socket_prefix());
    assert(link.subrange(8, link.len() - 1) =~= decimal(n as nat));
}

/// The sockets kept are exactly those whose inode has an owner, in order,
/// each with its owner's process id.
pub proof fn lemma_owned_rows_keep_owned_sockets(
    entries: Seq<(u16, String, u64)>,
    owners: Map<u64, u32>,
)
    ensures
        owned_rows(entries, owners) == entries.filter(
            |e: (u16, String, u64)| owners.contains_key(e.2),
        ).map_values(|e: (u16, String, u64)| (e.0, e.1, owners[e.2])),
{
    let f = owned_row(owners);
    lemma_filter_map_is_filter_then_map(entries, f);
    let p1 = |x: (u16, String, u64)| f(x) is Some;
    let p2 = |e: (u16, String, u64)| owners.contains_key(e.2);
    assert(p1 =~= p2);
    let g1 = |x: (u16, String, u64)| f(x).unwrap();
    let g2 = |e: (u16, String, u64)| (e.0, e.1, owners[e.2]);
    assert(entries.filter(p2).map_values(g1) =~= entries.filter(p2).map_values(g2));
}

/// Some link among `links` is a socket link to inode `n`.
pub open spec fn has_socket_link(links: Seq<Seq<char>>, n: u64) -> bool {
    exists|j: int| 0 <= j < links.len() && #[trigger] socket_link_inode(links[j]) == Some(n)
}

proof fn lemma_record_links(m: Map<u64, u32>, pid: u32, links: Seq<Seq<char>>, n: u64)
    ensures
        record_links(m, pid, links).contains_key(n) <==> (m.contains_key(n) || has_socket_link(
            links,
            n,
        )),
        has_socket_link(links, n) ==> record_links(m, pid, links)[n] == pid,
        !has_socket_link(links, n) ==> record_links(m, pid, links)[n] == m[n],
    decreases links.len(),
{
    if links.len() > 0 {
        let rest = links.drop_last();
        lemma_record_links(m, pid, rest, n);
        if has_socket_link(rest, n) {
            let j = choose|j: int| 0 <= j < rest.len() && #[trigger] socket_link_inode(rest[j]) == Some(n);
            assert(links[j] == rest[j]);
        }
        if has_socket_link(links, n) && !has_socket_link(rest, n) {
            let j = choose|j: int| 0 <= j < links.len() && #[trigger] socket_link_inode(links[j]) == Some(n);
            if j < links.len() - 1 {
                assert(rest[j] == links[j]);
            }
            assert(socket_link_inode(links.last()) == Some(n));
        }
        if socket_link_inode(links.last()) == Some(n) {
            assert(socket_link_inode(links[links.len() - 1]) == Some(n));
        }
    }
}

/// A socket has an owner exactly when some process has a link to it.
pub proof fn lemma_every_socket_link_has_an_owner(procs: Seq<(u32, Seq<Seq<char>>)>, n: u64)
    ensures
        inode_owners(procs).contains_key(n) <==> exists|k: int|
            0 <= k < procs.len() && #[trigger] has_socket_link(procs[k].1, n),
    decreases procs.len(),
{
    if procs.len() > 0 {
        let rest = procs.drop_last();
        let last = procs.last();
        lemma_every_socket_link_has_an_owner(rest, n);
        lemma_record_links(inode_owners(rest), last.0, last.1, n);
        if exists|k: int| 0 <= k < rest.len() && #[trigger] has_socket_link(rest[k].1, n) {
            let k = choose|k: int| 0 <= k < rest.len() && #[trigger] has_socket_link(rest[k].1, n);
            assert(procs[k] == rest[k]);
        }
        if exists|k: int| 0 <= k < procs.len() && #[trigger] has_socket_link(procs[k].1, n) {
            let k = choose|k: int| 0 <= k < procs.len() && #[trigger] has_socket_link(procs[k].1, n);
            if k < procs.len() - 1 {
                assert(rest[k] == procs[k]);
            }
        }
        assert(procs[procs.len() - 1] == last);
    }
}

/// The owner of a socket is the last process, in order, that has a link to it.
pub proof fn lemma_owner_is_last_linking_process(
    procs: Seq<(u32, Seq<Seq<char>>)>,
    n: u64,
    k: int,
)
    requires
        0 <= k < procs.len(),
        has_socket_link(procs[k].1, n),
        forall|k2: int| k < k2 < procs.len() ==> !(#[trigger] has_socket_link(procs[k2].1, n)),
    ensures
        inode_owners(procs).contains_key(n),
        inode_owners(procs)[n] == procs[k].0,
    decreases procs.len(),
{
    let rest = procs.drop_last();
    let last = procs.last();
    lemma_record_links(inode_owners(rest), last.0, last.1, n);
    assert(procs[procs.len() - 1] == last);
    if k < procs.len() - 1 {
        assert(!has_socket_link(procs[procs.len() - 1].1, n));
        assert(rest[k] == procs[k]);
        assert forall|k2: int| k < k2 < rest.len() implies !(#[trigger] has_socket_link(
            rest[k2].1,
            n,
        )) by {
            assert(rest[k2] == procs[k2]);
            assert(!has_socket_link(procs[k2].1, n));
        }
        lemma_owner_is_last_linking_process(rest, n, k);
    }
}

/// The plain values of a process table.
pub open spec fn proc_views(procs: Seq<ProcFds>) -> Seq<(u32, Seq<Seq<char>>)> {
    procs.map_values(|p: ProcFds| p@)
}

/// Maps each socket inode to the process that holds it.
pub fn build_inode_pid_map(procs: &Vec<ProcFds>) -> (m: HashMap<u64, u32>)
    ensures
        m@ == inode_owners(proc_views(procs@)),
{
    let mut m: HashMap<u64, u32> = HashMap::new();
    let ghost views = proc_views(procs@);
    let n = procs.len();
    assert(views.take(0) =~= Seq::<(u32, Seq<Seq<char>>)>::empty());
    for i in 0..n
        invariant
            n == procs@.len(),
            views == proc_views(procs@),
            m@ == inode_owners(views.take(i as int)),
    {
        let p = &procs[i];
        let ghost base = inode_owners(views.take(i as int));
        let ghost links = p.links.deep_view();
        let k = p.links.len();
        assert(links.take(0) =~= Seq::<Seq<char>>::empty());
        for j in 0..k
            invariant
                k == p.links@.len(),
                links == p.links.deep_view(),
                m@ == record_links(base, p.pid, links.take(j as int)),
        {
            assert(links.take(j + 1).drop_last() =~= links.take(j as int));
            assert(links[j as int] == p.links@[j as int]@);
            match socket_inode(p.links[j].as_str()) {
                Some(inode) => {
                    m.insert(inode, p.pid);
                },
                None => {},
            }
        }
        assert(links.take(k as int) =~= links);
        assert(views.take(i + 1).drop_last() =~= views.take(i as int));
        assert(views[i as int] == p@);
    }
    assert(views.take(n as int) =~= views);
    m
}

/// A socket row with the owner's process id in place of the inode, when its
/// inode has an owner.
pub open spec fn owned_row(owners: Map<u64, u32>) -> spec_fn((u16, String, u64)) -> Option<
    (u16, String, u32),
> {
    |e: (u16, String, u64)|
        if owners.contains_key(e.2) {
            Some((e.0, e.1, owners[e.2]))
        } else {
            None
        }
}

/// The sockets of `entries` whose inode has an owner, with the owner's
/// process id in place of the inode.
pub open spec fn owned_rows(entries: Seq<(u16, String, u64)>, owners: Map<u64, u32>) -> Seq<
    (u16, String, u32),
> {
    entries.filter_map(owned_row(owners))
}

/// Keeps the sockets whose inode some process holds, each with that
/// process's id.
pub fn resolve_entries(entries: &Vec<(u16, String, u64)>, owners: &HashMap<u64, u32>) -> (r: Vec<
    (u16, String, u32),
>)
    ensures
        r@ == owned_rows(entries@, owners@),
{
    let ghost f = owned_row(owners@);
    let n = entries.len();
    let mut r: Vec<(u16, String, u32)> = Vec::new();
    assert(entries@.take(0) =~= Seq::<(u16, String, u64)>::empty());
    for i in 0..n
        invariant
            n == entries@.len(),
            f == owned_row(owners@),
            r@ == entries@.take(i as int).filter_map(f),
    {
        proof {
            entries@.lemma_filter_map_take_succ(f, i as int);
        }
        let e = &entries[i];
        let ghost before = r@;
        match owners.get(&e.2) {
            Some(pid) => {
                let name = e.1.clone();
                assert(f(entries@[i as int]) == Some((e.0, name, *pid)));
                r.push((e.0, name, *pid));
                assert(entries@.take(i + 1).filter_map(f) =~= before + seq![(e.0, name, *pid)]);
            },
            None => {
                assert(f(entries@[i as int]) is None);
                assert(entries@.take(i + 1).filter_map(f) =~= before + Seq::<
                    (u16, String, u32),
                >::empty());
            },
        }
    }
    assert(entries@.take(n as int) =~= entries@);
    r
}

/// A process name made only of lower-case ASCII letters, `-` and `_`.
pub open spec fn is_plain_name(name: Seq<char>) -> bool {
    name.len() > 0 && forall|i: int|
        0 <= i < name.len() ==> ('a' <= #[trigger] name[i] && name[i] <= 'z') || name[i] == '-'
            || name[i] == '_'
}

/// Whether the process name read from `comm` (`raw_comm`, before trimming)
/// needs the name of the executable in its place.
pub fn comm_needs_exe_name(raw_comm: &str) -> (b: bool)
    ensures
        b == !is_plain_name(trim(raw_comm@)),
{
    let v = chars_of(raw_comm);
    let t = trim_chars(v.as_slice());
    !is_plain_chars(t.as_slice())
}

fn is_plain_chars(v: &[char]) -> (b: bool)
    ensures
        b == is_plain_name(v@),
{
    let n = v.len();
    if n == 0 {
        return false;
    }
    for i in 0..n
        invariant
            n == v@.len(),
            forall|k: int|
                0 <= k < i ==> ('a' <= #[trigger] v@[k] && v@[k] <= 'z') || v@[k] == '-' || v@[k]
                    == '_',
    {
        let c = v[i];
        if !(('a' <= c && c <= 'z') || c == '-' || c == '_') {
            return false;
        }
    }
    true
}

/// The process name: the trimmed content of `comm` when it is a plain name,
/// else the file name of the executable when it could be read, else the
/// trimmed content of `comm` all the same.
pub open spec fn process_name_text(raw_comm: Seq<char>, exe_name: Option<Seq<char>>) -> Seq<char> {
    let comm = trim(raw_comm);
    if is_plain_name(comm) {
        comm
    } else {
        match exe_name {
            Some(e) => e,
            None => comm,
        }
    }
}

/// The process name from the content of `comm` and, where that is not a
/// plain name, the file name of the executable.
pub fn process_name(raw_comm: &str, exe_name: Option<String>) -> (r: String)
    ensures
        r@ == process_name_text(
            raw_comm@,
            match exe_name {
                Some(e) => Some(e@),
                None => None,
            },
        ),
{
    let v = chars_of(raw_comm);
    let t = trim_chars(v.as_slice());
    if is_plain_chars(t.as_slice()) {
        string_from_chars(t.as_slice())
    } else {
        match exe_name {
            Some(e) => e,
            None => string_from_chars(t.as_slice()),
        }
    }
}

/// The process name from the content of `comm` alone: that content, trimmed.
pub fn comm_name(raw_comm: &str) -> (r: String)
    ensures
        r@ == trim(raw_comm@),
{
    trim_str(raw_comm)
}

/// The command line from the content of `cmdline`: arguments separated by
/// spaces in place of NULs, trimmed.
pub fn command_line(raw_cmdline: &str) -> (r: String)
    ensures
        r@ == trim(nul_to_space(raw_cmdline@)),
{
    let v = replace_nul_with_space(raw_cmdline);
    let t = trim_chars(v.as_slice());
    string_from_chars(t.as_slice())
}

/// A listening socket with what was read of the process that holds it: the
/// content of its `comm` file, the file name of its executable where that
/// was looked up, and the content of its `cmdline` file (empty text for a
/// file that could not be read).
pub struct OwnedSocket {
    pub port: u16,
    pub protocol: String,
    pub pid: u32,
    pub comm: String,
    pub exe_name: Option<String>,
    pub cmdline: String,
}

/// The port entry that a socket and its process's files give.
pub open spec fn socket_entry(s: OwnedSocket) -> PortInfoView {
    PortInfoView {
        port: s.port,
        protocol: s.protocol@,
        pid: s.pid,
        process_name: process_name_text(
            s.comm@,
            match s.exe_name {
                Some(e) => Some(e@),
                None => None,
            },
        ),
        command: trim(nul_to_space(s.cmdline@)),
    }
}

/// The plain values of port entries.
pub open spec fn port_views(s: Seq<PortInfo>) -> Seq<PortInfoView> {
    s.map_values(|p: PortInfo| p@)
}

/// The port entries of the sockets, ordered by port; entries for the same
/// port keep the order of their sockets.
pub fn assemble_ports(sockets: &Vec<OwnedSocket>) -> (r: Vec<PortInfo>)
    ensures
        exists|u: Seq<PortInfo>|
            #![trigger port_views(u)]
            port_views(u) == sockets@.map_values(|s: OwnedSocket| socket_entry(s))
                && stable_sorted_by_port(r@, u),
{
    let n = sockets.len();
    let mut v: Vec<PortInfo> = Vec::new();
    for i in 0..n
        invariant
            n == sockets@.len(),
            v@.len() == i,
            forall|k: int| 0 <= k < i ==> (#[trigger] v@[k])@ == socket_entry(sockets@[k]),
    {
        let s = &sockets[i];
        let exe = match &s.exe_name {
            Some(e) => Some(e.clone()),
            None => None,
        };
        let entry = PortInfo {
            port: s.port,
            protocol: s.protocol.clone(),
            pid: s.pid,
            process_name: process_name(s.comm.as_str(), exe),
            command: command_line(s.cmdline.as_str()),
        };
        v.push(entry);
    }
    let ghost u = v@;
    assert(port_views(u) =~= sockets@.map_values(|s: OwnedSocket| socket_entry(s)));
    let r = sort_by_port(v);
    assert(stable_sorted_by_port(r@, u));
    r
}

/// Port scanning through `/proc` (Linux).
pub struct LinuxScanner;

impl LinuxScanner {
    /// The listening sockets of `/proc/net/tcp` and then of `/proc/net/tcp6`,
    /// given the contents of those that could be read.
    pub fn listening_entries(tcp: Option<&str>, tcp6: Option<&str>) -> (r: Vec<(u16, String, u64)>)
        ensures
            row_views(r@) == listening_rows(opt_str_view(tcp), opt_str_view(tcp6)),
    {
        let mut r: Vec<(u16, String, u64)> = match tcp {
            Some(c) => parse_proc_net(c, "tcp"),
            None => Vec::new(),
        };
        let ghost first = row_views(r@);
        assert(first == match opt_str_view(tcp) {
            Some(c) => proc_net_rows(c, "tcp"@),
            None => Seq::<(u16, Seq<char>, u64)>::empty(),
        });
        let mut rest: Vec<(u16, String, u64)> = match tcp6 {
            Some(c) => parse_proc_net(c, "tcp6"),
            None => Vec::new(),
        };
        let ghost second = row_views(rest@);
        r.append(&mut rest);
        assert(row_views(r@) =~= first + second);
        r
    }
}

} // verus!
