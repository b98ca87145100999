//! The listing of `lsof -iTCP -sTCP:LISTEN -P -n` (macOS), whose columns are
//! COMMAND PID USER FD TYPE DEVICE SIZE/OFF NODE NAME.
use vstd::prelude::*;
use crate::number::{parse_unsigned, parse_u16_radix, parse_u32};
use crate::port::PortInfo;
use crate::procfs::{body_lines, lemma_filter_map_is_filter_then_map};
use crate::text::{after_last, after_last_char, chars_of, fields, lines, split_fields, split_lines,
    string_from_chars, to_string};

verus! {

/// A listening socket as `lsof` lists it.
pub struct LsofEntry {
    pub process_name: String,
    pub pid: u32,
    pub port: u16,
}

impl View for LsofEntry {
    type V = (Seq<char>, u32, u16);

    open spec fn view(&self) -> (Seq<char>, u32, u16) {
        (self.process_name@, self.pid, self.port)
    }
}

/// The process name, process id and port of a line of the listing: the line
/// has at least the nine columns COMMAND to NAME, the second field is the
/// process id, and the ninth (NAME, such as `*:8080` or `127.0.0.1:3000`)
/// ends, after its last `:`, with the port in decimal.
pub open spec fn lsof_entry(line: Seq<char>) -> Option<(Seq<char>, u32, u16)> {
    let f = fields(line);
    if f.len() < 9 {
        None
    } else {
        match parse_unsigned(f[1], 10, u32::MAX as nat) {
            None => None,
            Some(pid) => match parse_unsigned(after_last(f[8], ':'), 10, u16::MAX as nat) {
                None => None,
                Some(port) => Some((f[0], pid as u32, port as u16)),
            },
        }
    }
}

/// A line reads as an entry only when it has the nine columns; the entry is
/// then the first column (COMMAND), the process id of the second (PID) and
/// the port at the end of the ninth (NAME) after its last `:`.
pub proof fn lemma_lsof_entry_columns(line: Seq<char>)
    ensures
        lsof_entry(line) matches Some((name, pid, port)) ==> {
            &&& fields(line).len() >= 9
            &&& name == fields(line)[0]
            &&& parse_unsigned(fields(line)[1], 10, u32::MAX as nat) == Some(pid as nat)
            &&& parse_unsigned(after_last(fields(line)[8], ':'), 10, u16::MAX as nat) == Some(
                port as nat,
            )
        },
        fields(line).len() >= 9 && parse_unsigned(fields(line)[1], 10, u32::MAX as nat) is Some
            && parse_unsigned(after_last(fields(line)[8], ':'), 10, u16::MAX as nat) is Some
            ==> lsof_entry(line) is Some,
{
}

/// Reads one line of the listing.
pub fn parse_lsof_line(line: &str) -> (r: Option<LsofEntry>)
    ensures
        match lsof_entry(line@) {
            Some(e) => r matches Some(x) && x@ == e,
            None => r is None,
        },
{
    let v = chars_of(line);
    parse_lsof_chars(v.as_slice())
}

fn parse_lsof_chars(line: &[char]) -> (r: Option<LsofEntry>)
    ensures
        match lsof_entry(line@) {
            Some(e) => r matches Some(x) && x@ == e,
            None => r is None,
        },
{
    let f = split_fields(line);
    if f.len() < 9 {
        return None;
    }
    let pid = match parse_u32(f[1].as_slice()) {
        Some(p) => p,
        None => {
            return None;
        },
    };
    let port_text = after_last_char(f[8].as_slice(), ':');
    let port = match parse_u16_radix(port_text.as_slice(), 10) {
        Some(p) => p,
        None => {
            return None;
        },
    };
    let process_name = string_from_chars(f[0].as_slice());
    Some(LsofEntry { process_name, pid, port })
}

/// The entries of a whole listing (its lines after the header).
pub open spec fn lsof_entries(out: Seq<char>) -> Seq<(Seq<char>, u32, u16)> {
    body_lines(out).filter_map(|l: Seq<char>| lsof_entry(l))
}

/// Every line after the header that reads as an entry gives one, in order,
/// and no other line does: the entries of a listing are its readable body
/// lines, each read.
pub proof fn lemma_every_listed_socket_is_read(out: Seq<char>)
    ensures
        lsof_entries(out) == body_lines(out).filter(|l: Seq<char>| lsof_entry(l) is Some).map_values(
            |l: Seq<char>| lsof_entry(l).unwrap(),
        ),
        forall|i: int|
            0 <= i < body_lines(out).len() && (#[trigger] lsof_entry(body_lines(out)[i])) is Some
                ==> lsof_entries(out).contains(lsof_entry(body_lines(out)[i]).unwrap()),
{
    let body = body_lines(out);
    let f = |l: Seq<char>| lsof_entry(l);
    let p = |l: Seq<char>| lsof_entry(l) is Some;
    let g = |l: Seq<char>| lsof_entry(l).unwrap();
    lemma_filter_map_is_filter_then_map(body, f);
    assert(body.filter(|x: Seq<char>| f(x) is Some) =~= body.filter(p)) by {
        assert((|x: Seq<char>| f(x) is Some) =~= p);
    }
    assert(lsof_entries(out) =~= body.filter(p).map_values(g));
    assert forall|i: int|
        0 <= i < body.len() && (#[trigger] lsof_entry(body[i])) is Some implies lsof_entries(
            out,
        ).contains(lsof_entry(body[i]).unwrap()) by {
        body.lemma_filter_contains(p, i);
        let k = choose|k: int| 0 <= k < body.filter(p).len() && body.filter(p)[k] == body[i];
        assert(body.filter(p).map_values(g)[k] == g(body[i]));
        assert(lsof_entries(out)[k] == lsof_entry(body[i]).unwrap());
    }
}

/// The plain values of listed entries.
pub open spec fn entry_views(s: Seq<LsofEntry>) -> Seq<(Seq<char>, u32, u16)> {
    s.map_values(|e: LsofEntry| e@)
}

/// Reads the whole listing, skipping its header line.
pub fn parse_lsof_output(out: &str) -> (r: Vec<LsofEntry>)
    ensures
        entry_views(r@) == lsof_entries(out@),
{
    let chars = chars_of(out);
    let ls = split_lines(chars.as_slice());
    let ghost all = lines(out@);
    let ghost body = body_lines(out@);
    let ghost f = |l: Seq<char>| lsof_entry(l);
    let mut r: Vec<LsofEntry> = Vec::new();
    if ls.len() == 0 {
        assert(entry_views(r@) =~= Seq::<(Seq<char>, u32, u16)>::empty());
        return r;
    }
    let n = ls.len();
    assert(body.take(0) =~= Seq::<Seq<char>>::empty());
    assert(entry_views(r@) =~= body.take(0).filter_map(f));
    for j in 1..n
        invariant
            n == ls@.len(),
            n == all.len(),
            n > 0,
            body == all.drop_first(),
            forall|i: int| 0 <= i < n ==> #[trigger] ls@[i]@ == all[i],
            f == (|l: Seq<char>| lsof_entry(l)),
            entry_views(r@) == body.take(j - 1).filter_map(f),
    {
        let ghost k = j - 1;
        proof {
            body.lemma_filter_map_take_succ(f, k);
            assert(body[k] == all[j as int]);
        }
        let ghost before = r@;
        assert(ls@[j as int]@ == body[k]);
        match parse_lsof_chars(ls[j].as_slice()) {
            Some(e) => {
                let ghost ev = e@;
                assert(f(body[k]) == Some(ev));
                r.push(e);
                assert(entry_views(r@) =~= entry_views(before).push(ev));
                assert(body.take(k + 1).filter_map(f) =~= body.take(k).filter_map(f) + seq![ev]);
            },
            None => {
                assert(f(body[k]) is None);
                assert(body.take(k + 1).filter_map(f) =~= body.take(k).filter_map(f) + Seq::<
                    (Seq<char>, u32, u16),
                >::empty());
            },
        }
        assert(body.take(j as int) == body.take(k + 1));
    }
    assert(body.take(n - 1) =~= body);
    r
}

impl LsofEntry {
    /// The port entry for this socket, with the command line of its process.
    pub fn into_port_info(self, command: String) -> (p: PortInfo)
        ensures
            p.port == self.port,
            p.protocol@ == "tcp"@,
            p.pid == self.pid,
            p.process_name == self.process_name,
            p.command == command,
    {
        PortInfo {
            port: self.port,
            protocol: to_string("tcp"),
            pid: self.pid,
            process_name: self.process_name,
            command,
        }
    }
}

/// Port scanning through `lsof` (macOS).
pub struct MacosScanner;

impl MacosScanner {
    /// The listening sockets of an `lsof` listing.
    pub fn listening_entries(out: &str) -> (r: Vec<LsofEntry>)
        ensures
            entry_views(r@) == lsof_entries(out@),
    {
        parse_lsof_output(out)
    }
}

} // verus!
