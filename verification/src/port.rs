//! Listening ports: what is known of each one, ordering and lookup, and what
//! a kill request sends and reports.
use vstd::prelude::*;
use crate::number::{decimal, push_decimal};
use crate::text::{push_str};

verus! {

/// A listening TCP port and the process that holds it.
#[derive(Debug, Clone)]
pub struct PortInfo {
    pub port: u16,
    pub protocol: String,
    pub pid: u32,
    pub process_name: String,
    pub command: String,
}

/// The plain values of a `PortInfo`.
pub struct PortInfoView {
    pub port: u16,
    pub protocol: Seq<char>,
    pub pid: u32,
    pub process_name: Seq<char>,
    pub command: Seq<char>,
}

impl View for PortInfo {
    type V = PortInfoView;

    open spec fn view(&self) -> PortInfoView {
        PortInfoView {
            port: self.port,
            protocol: self.protocol@,
            pid: self.pid,
            process_name: self.process_name@,
            command: self.command@,
        }
    }
}

/// The entries of `s` for port `p`, in their order in `s`.
pub open spec fn with_port(s: Seq<PortInfo>, p: u16) -> Seq<PortInfo> {
    s.filter(|x: PortInfo| x.port == p)
}

/// The entries of `s` come in ascending order of port.
pub open spec fn sorted_by_port(s: Seq<PortInfo>) -> bool {
    forall|i: int, j: int| 0 <= i <= j < s.len() ==> s[i].port <= s[j].port
}

/// `s` lists the entries of `t` ordered by port, entries with equal ports
/// keeping their order in `t` (what a stable sort by port gives).
pub open spec fn stable_sorted_by_port(s: Seq<PortInfo>, t: Seq<PortInfo>) -> bool {
    &&& s.len() == t.len()
    &&& sorted_by_port(s)
    &&& forall|p: u16| #[trigger] with_port(s, p) == with_port(t, p)
}

proof fn lemma_with_port_none(s: Seq<PortInfo>, p: u16)
    requires
        forall|i: int| 0 <= i < s.len() ==> (#[trigger] s[i]).port != p,
    ensures
        with_port(s, p) == Seq::<PortInfo>::empty(),
    decreases s.len(),
{
    reveal(Seq::filter);
    if s.len() > 0 {
        lemma_with_port_none(s.drop_last(), p);
    }
}

proof fn lemma_with_port_insert(r: Seq<PortInfo>, pos: int, x: PortInfo, p: u16)
    requires
        0 <= pos <= r.len(),
        forall|i: int| pos <= i < r.len() ==> (#[trigger] r[i]).port > x.port,
    ensures
        with_port(r.insert(pos, x), p) == if x.port == p {
            with_port(r, p).push(x)
        } else {
            with_port(r, p)
        },
{
    let a = r.take(pos);
    let b = r.skip(pos);
    assert(r =~= a + b);
    assert(r.insert(pos, x) =~= a + seq![x] + b);
    Seq::filter_distributes_over_add(a, b, |y: PortInfo| y.port == p);
    Seq::filter_distributes_over_add(a + seq![x], b, |y: PortInfo| y.port == p);
    Seq::filter_distributes_over_add(a, seq![x], |y: PortInfo| y.port == p);
    Seq::<PortInfo>::empty().lemma_filter_push(x, |y: PortInfo| y.port == p);
    assert(Seq::<PortInfo>::empty().push(x) =~= seq![x]);
    lemma_with_port_none(Seq::<PortInfo>::empty(), p);
    if x.port == p {
        assert forall|i: int| 0 <= i < b.len() implies (#[trigger] b[i]).port != p by {
            assert(b[i] == r[pos + i]);
        }
        lemma_with_port_none(b, p);
        assert(with_port(a, p) + Seq::<PortInfo>::empty() =~= with_port(a, p));
        assert(with_port(a, p) + seq![x] + Seq::<PortInfo>::empty() =~= with_port(a, p).push(x));
    } else {
        assert(with_port(a, p) + Seq::<PortInfo>::empty() =~= with_port(a, p));
    }
}

/// The entries ordered by port; entries with the same port keep their order
/// (`sort_by_key(|p| p.port)`).
pub fn sort_by_port(v: Vec<PortInfo>) -> (r: Vec<PortInfo>)
    ensures
        stable_sorted_by_port(r@, v@),
{
    let ghost orig = v@;
    let mut rest = v;
    let mut r: Vec<PortInfo> = Vec::new();
    let ghost mut k: int = 0;
    assert(orig.skip(0) =~= orig);
    assert forall|p: u16| #[trigger] with_port(r@, p) == with_port(orig.take(0), p) by {
        assert(orig.take(0) =~= r@);
    }
    while rest.len() > 0
        invariant
            0 <= k <= orig.len(),
            rest@ == orig.skip(k),
            r@.len() == k,
            sorted_by_port(r@),
            forall|p: u16| #[trigger] with_port(r@, p) == with_port(orig.take(k), p),
        decreases rest@.len(),
    {
        let x = rest.remove(0);
        assert(x == orig[k]);
        let n = r.len();
        let mut pos: usize = 0;
        while pos < n && r[pos].port <= x.port
            invariant
                n == r@.len(),
                pos <= n,
                forall|i: int| 0 <= i < pos ==> (#[trigger] r@[i]).port <= x.port,
            decreases n - pos,
        {
            pos = pos + 1;
        }
        let ghost old_r = r@;
        proof {
            assert forall|i: int| pos <= i < n implies (#[trigger] old_r[i]).port > x.port by {
                assert(old_r[pos as int].port > x.port);
                assert(old_r[pos as int].port <= old_r[i].port);
            }
        }
        r.insert(pos, x);
        proof {
            assert forall|p: u16| #[trigger] with_port(r@, p) == with_port(orig.take(k + 1), p) by {
                lemma_with_port_insert(old_r, pos as int, x, p);
                assert(orig.take(k + 1) =~= orig.take(k).push(x));
                orig.take(k).lemma_filter_push(x, |y: PortInfo| y.port == p);
            }
            assert forall|i: int, j: int| 0 <= i <= j < r@.len() implies r@[i].port <= r@[j].port by {
                if i < pos && j < pos {
                    assert(r@[i] == old_r[i] && r@[j] == old_r[j]);
                } else if i < pos && j == pos {
                    assert(r@[i] == old_r[i]);
                } else if i < pos {
                    assert(r@[i] == old_r[i] && r@[j] == old_r[j - 1]);
                } else if i == pos && j > pos {
                    assert(r@[j] == old_r[j - 1]);
                } else if i > pos {
                    assert(r@[i] == old_r[i - 1] && r@[j] == old_r[j - 1]);
                }
            }
            assert(orig.skip(k + 1) =~= orig.skip(k).remove(0));
            k = k + 1;
        }
    }
    assert(orig.take(k) =~= orig);
    r
}

/// The first entry of `s` for port `port`, if any.
pub open spec fn first_with_port(s: Seq<PortInfo>, port: u16) -> Option<PortInfo>
    decreases s.len(),
{
    if s.len() == 0 {
        None
    } else if s[0].port == port {
        Some(s[0])
    } else {
        first_with_port(s.drop_first(), port)
    }
}

proof fn lemma_first_with_port_none(s: Seq<PortInfo>, port: u16)
    ensures
        first_with_port(s, port) is None <==> forall|i: int|
            0 <= i < s.len() ==> (#[trigger] s[i]).port != port,
    decreases s.len(),
{
    if s.len() > 0 {
        let rest = s.drop_first();
        lemma_first_with_port_none(rest, port);
        if s[0].port != port {
            if first_with_port(s, port) is None {
                assert forall|i: int| 0 <= i < s.len() implies (#[trigger] s[i]).port != port by {
                    if i > 0 {
                        assert(s[i] == rest[i - 1]);
                    }
                }
            } else {
                let k = choose|k: int| 0 <= k < rest.len() && (#[trigger] rest[k]).port == port;
                assert(s[k + 1] == rest[k]);
            }
        }
    }
}

proof fn lemma_first_with_port_at(s: Seq<PortInfo>, port: u16, i: int)
    requires
        0 <= i < s.len(),
        s[i].port == port,
        forall|j: int| 0 <= j < i ==> (#[trigger] s[j]).port != port,
    ensures
        first_with_port(s, port) == Some(s[i]),
    decreases i,
{
    if i > 0 {
        let rest = s.drop_first();
        assert(s[0].port != port);
        assert(rest[i - 1] == s[i]);
        assert forall|j: int| 0 <= j < i - 1 implies (#[trigger] rest[j]).port != port by {
            assert(rest[j] == s[j + 1]);
        }
        lemma_first_with_port_at(rest, port, i - 1);
    }
}

/// What `check` finds: nothing exactly when no entry has the port; else the
/// entry at the first position that has it.
pub proof fn lemma_check_finds_first_entry(s: Seq<PortInfo>, port: u16)
    ensures
        first_with_port(s, port) is None <==> forall|i: int|
            0 <= i < s.len() ==> (#[trigger] s[i]).port != port,
        forall|i: int|
            0 <= i < s.len() && (#[trigger] s[i]).port == port && (forall|j: int|
                0 <= j < i ==> s[j].port != port) ==> first_with_port(s, port) == Some(s[i]),
{
    lemma_first_with_port_none(s, port);
    assert forall|i: int|
        0 <= i < s.len() && (#[trigger] s[i]).port == port && (forall|j: int|
            0 <= j < i ==> s[j].port != port) implies first_with_port(s, port) == Some(s[i]) by {
        lemma_first_with_port_at(s, port, i);
    }
}

/// The position of the first entry of `ports` for `port`, if any.
fn position_of_port(ports: &Vec<PortInfo>, port: u16) -> (r: Option<usize>)
    ensures
        match r {
            Some(i) => i < ports@.len() && first_with_port(ports@, port) == Some(ports@[i as int]),
            None => first_with_port(ports@, port) is None,
        },
{
    let n = ports.len();
    let mut i: usize = 0;
    assert(ports@.skip(0) =~= ports@);
    while i < n
        invariant
            n == ports@.len(),
            i <= n,
            first_with_port(ports@, port) == first_with_port(ports@.skip(i as int), port),
        decreases n - i,
    {
        assert(ports@.skip(i as int).drop_first() =~= ports@.skip(i + 1));
        assert(ports@.skip(i as int)[0] == ports@[i as int]);
        if ports[i].port == port {
            return Some(i);
        }
        i = i + 1;
    }
    assert(ports@.skip(n as int) =~= Seq::<PortInfo>::empty());
    None
}

/// The first entry for `port`, if any (`scan().into_iter().find(|p| p.port == port)`).
pub fn check(ports: Vec<PortInfo>, port: u16) -> (r: Option<PortInfo>)
    ensures
        r == first_with_port(ports@, port),
{
    match position_of_port(&ports, port) {
        Some(i) => {
            let mut ports = ports;
            let info = ports.swap_remove(i);
            Some(info)
        },
        None => None,
    }
}

/// The signal that a kill request sends.
#[derive(Debug, Clone, Copy, PartialEq, Eq, Structural)]
pub enum Signal {
    Term,
    Kill,
}

/// `SIGKILL` when the kill is forced, else `SIGTERM`.
pub fn kill_signal(force: bool) -> (s: Signal)
    ensures
        s == (if force {
            Signal::Kill
        } else {
            Signal::Term
        }),
{
    if force {
        Signal::Kill
    } else {
        Signal::Term
    }
}

/// Name of the signal that a kill request sends.
pub fn signal_label(force: bool) -> (label: &'static str)
    ensures
        label@ == (if force {
            "SIGKILL"@
        } else {
            "SIGTERM"@
        }),
{
    if force {
        "SIGKILL"
    } else {
        "SIGTERM"
    }
}

/// Why a signal could not be sent.
#[derive(Debug, Clone)]
pub enum KillError {
    /// The caller may not signal the process (`EPERM`).
    PermissionDenied,
    /// No such process (`ESRCH`).
    NoSuchProcess,
    /// Any other failure, with the system's description of it.
    Other { description: String },
}

/// The message reported when signalling `pid` failed.
pub open spec fn kill_error_text(pid: u32, err: KillError) -> Seq<char> {
    match err {
        KillError::PermissionDenied => "Permission denied (PID "@ + decimal(pid as nat)
            + "). Try: sudo pwatch kill <PORT>"@,
        KillError::NoSuchProcess => "Process "@ + decimal(pid as nat) + " not found (already exited?)"@,
        KillError::Other { description } => "Failed to kill PID "@ + decimal(pid as nat) + ": "@
            + description@,
    }
}

/// The message reported when signalling `pid` failed with `err`.
pub fn kill_error_message(pid: u32, err: &KillError) -> (m: String)
    ensures
        m@ == kill_error_text(pid, *err),
{
    let mut m = String::new();
    match err {
        KillError::PermissionDenied => {
            push_str(&mut m, "Permission denied (PID ");
            push_decimal(&mut m, pid as u64);
            push_str(&mut m, "). Try: sudo pwatch kill <PORT>");
        },
        KillError::NoSuchProcess => {
            push_str(&mut m, "Process ");
            push_decimal(&mut m, pid as u64);
            push_str(&mut m, " not found (already exited?)");
        },
        KillError::Other { description } => {
            push_str(&mut m, "Failed to kill PID ");
            push_decimal(&mut m, pid as u64);
            push_str(&mut m, ": ");
            push_str(&mut m, description.as_str());
        },
    }
    m
}

} // verus!
