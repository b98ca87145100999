//! The state of the interactive port viewer: the ports shown, the search
//! filter, the selection, the mode, and the status message.
use vstd::prelude::*;
use crate::number::{decimal, decimal_string, push_decimal};
use crate::port::{kill_signal, signal_label, PortInfo, Signal};
use crate::text::{chars_of, contains_chars, contains_seq, occurs_at, push_str, to_string};

verus! {

/// What the keys currently do.
#[derive(Debug, Clone, Copy, PartialEq, Eq, Structural)]
pub enum AppMode {
    /// Moving through the list.
    Normal,
    /// Typing a search filter.
    Search,
    /// Asking whether to signal the selected process.
    Confirm { force: bool },
}

impl Default for AppMode {
    fn default() -> (m: Self)
        ensures
            m == AppMode::Normal,
    {
        AppMode::Normal
    }
}

/// The viewer's state.
#[derive(Debug, Clone)]
pub struct App {
    pub ports: Vec<PortInfo>,
    pub selected: usize,
    pub filter: String,
    pub mode: AppMode,
    pub should_quit: bool,
    pub message: Option<String>,
}

/// What became of signalling the selected process: it was sent, and the
/// ports were scanned again afterwards; or it failed, for the reason given.
pub enum KillOutcome {
    Sent { ports: Vec<PortInfo> },
    Failed { reason: String },
}

/// The text of an optional message.
pub open spec fn message_text(m: Option<String>) -> Option<Seq<char>> {
    match m {
        Some(s) => Some(s@),
        None => None,
    }
}

/// The message shown after the ports were scanned again.
pub open spec fn refreshed_text() -> Seq<char> {
    "リフレッシュしました"@
}

/// The message shown when signalling failed for `reason`.
pub open spec fn error_text(reason: Seq<char>) -> Seq<char> {
    "エラー: "@ + reason
}

/// The message for a signal that was sent to process `pid` named `name`.
pub open spec fn sent_text(pid: u32, name: Seq<char>, force: bool) -> Seq<char> {
    "PID "@ + decimal(pid as nat) + " ("@ + name + ") に "@ + (if force {
        "SIGKILL"@
    } else {
        "SIGTERM"@
    }) + " を送信しました"@
}

/// An entry matches the filter when the filter occurs in its port number
/// (in decimal), in its process name or in its command line.
pub open spec fn port_matches(p: PortInfo, filter: Seq<char>) -> bool {
    ||| contains_seq(decimal(p.port as nat), filter)
    ||| contains_seq(p.process_name@, filter)
    ||| contains_seq(p.command@, filter)
}

/// The entries of `ports` that match `filter`, in order.
pub open spec fn filtered(ports: Seq<PortInfo>, filter: Seq<char>) -> Seq<PortInfo> {
    ports.filter(|p: PortInfo| port_matches(p, filter))
}

/// The selection after moving up: one entry up, unless at the top.
pub open spec fn step_up(sel: usize) -> usize {
    if sel > 0 {
        (sel - 1) as usize
    } else {
        sel
    }
}

/// The selection after moving down in a list of `len` entries: one entry
/// down, unless at (or past) the bottom.
pub open spec fn step_down(sel: usize, len: nat) -> usize {
    if len > 0 && sel < len - 1 {
        (sel + 1) as usize
    } else {
        sel
    }
}

/// The selection after the list was replaced by one of `len` entries: moved
/// to the last entry if it is past the end of a list that is not empty.
pub open spec fn clamp_selection(sel: usize, len: nat) -> usize {
    if sel >= len && len > 0 {
        (len - 1) as usize
    } else {
        sel
    }
}

/// Every entry contains the empty text.
proof fn lemma_empty_filter_matches(p: PortInfo)
    ensures
        port_matches(p, Seq::<char>::empty()),
{
    assert(decimal(p.port as nat).subrange(0, 0) =~= Seq::<char>::empty());
    assert(occurs_at(decimal(p.port as nat), Seq::<char>::empty(), 0));
}

/// An empty search filter shows every port, in order.
pub proof fn lemma_empty_filter_shows_all(ports: Seq<PortInfo>)
    ensures
        filtered(ports, Seq::<char>::empty()) == ports,
    decreases ports.len(),
{
    reveal(Seq::filter);
    if ports.len() > 0 {
        lemma_empty_filter_shows_all(ports.drop_last());
        lemma_empty_filter_matches(ports.last());
        assert(ports.drop_last().push(ports.last()) =~= ports);
    }
}

/// The filter keeps only matching entries, and keeps every matching entry.
pub proof fn lemma_filtered_entries_match(ports: Seq<PortInfo>, filter: Seq<char>)
    ensures
        forall|i: int|
            0 <= i < filtered(ports, filter).len() ==> port_matches(
                #[trigger] filtered(ports, filter)[i],
                filter,
            ),
        forall|i: int|
            0 <= i < ports.len() && port_matches(ports[i], filter) ==> #[trigger] filtered(
                ports,
                filter,
            ).contains(ports[i]),
        filtered(ports, filter).len() <= ports.len(),
{
    broadcast use vstd::seq_lib::group_filter_ensures;

}

/// Moving down and then up again comes back to the entry moved from.
pub proof fn lemma_down_then_up(sel: usize, len: nat)
    requires
        sel + 1 < len,
        len <= usize::MAX,
    ensures
        step_up(step_down(sel, len)) == sel,
{
}

/// Moving up or down keeps a selection that lies inside the list inside it.
pub proof fn lemma_moves_stay_in_list(sel: usize, len: nat)
    requires
        sel < len,
    ensures
        step_up(sel) < len,
        step_down(sel, len) < len,
{
}

/// After the list is replaced by one that is not empty, the selection lies
/// inside it.
pub proof fn lemma_refresh_selects_inside(sel: usize, len: nat)
    requires
        len > 0,
    ensures
        clamp_selection(sel, len) < len,
{
}

proof fn lemma_contains_trans(hay: Seq<char>, mid: Seq<char>, needle: Seq<char>)
    requires
        contains_seq(hay, mid),
        contains_seq(mid, needle),
    ensures
        contains_seq(hay, needle),
{
    let i = choose|i: int| occurs_at(hay, mid, i);
    let j = choose|j: int| occurs_at(mid, needle, j);
    assert(hay.subrange(i + j, i + j + needle.len()) =~= mid.subrange(j, j + needle.len()));
    assert(occurs_at(hay, needle, i + j));
}

proof fn lemma_filter_of_filter(s: Seq<PortInfo>, p1: spec_fn(PortInfo) -> bool, p2: spec_fn(
    PortInfo,
) -> bool)
    requires
        forall|x: PortInfo| #[trigger] p2(x) ==> p1(x),
    ensures
        s.filter(p2) == s.filter(p1).filter(p2),
    decreases s.len(),
{
    reveal(Seq::filter);
    if s.len() > 0 {
        let rest = s.drop_last();
        let l = s.last();
        lemma_filter_of_filter(rest, p1, p2);
        if p1(l) {
            rest.filter(p1).lemma_filter_push(l, p2);
        }
    }
}

/// Typing more of a search never adds a match: when the old filter occurs in
/// the new one, the entries shown for the new filter are those shown for the
/// old one that also match the new one, so there are no more of them.
pub proof fn lemma_longer_filter_never_adds(ports: Seq<PortInfo>, f1: Seq<char>, f2: Seq<char>)
    requires
        contains_seq(f2, f1),
    ensures
        filtered(ports, f2) == filtered(ports, f1).filter(|p: PortInfo| port_matches(p, f2)),
        filtered(ports, f2).len() <= filtered(ports, f1).len(),
        filtered(ports, f1).len() <= ports.len(),
{
    broadcast use vstd::seq_lib::group_filter_ensures;

    let p1 = |p: PortInfo| port_matches(p, f1);
    let p2 = |p: PortInfo| port_matches(p, f2);
    assert forall|x: PortInfo| #[trigger] p2(x) implies p1(x) by {
        if contains_seq(decimal(x.port as nat), f2) {
            lemma_contains_trans(decimal(x.port as nat), f2, f1);
        } else if contains_seq(x.process_name@, f2) {
            lemma_contains_trans(x.process_name@, f2, f1);
        } else {
            lemma_contains_trans(x.command@, f2, f1);
        }
    }
    lemma_filter_of_filter(ports, p1, p2);
}

/// Whether `p` matches the filter whose characters are `f`.
fn matches_filter(p: &PortInfo, f: &[char]) -> (b: bool)
    ensures
        b == port_matches(*p, f@),
{
    let port_text = decimal_string(p.port as u64);
    let port_chars = chars_of(port_text.as_str());
    if contains_chars(port_chars.as_slice(), f) {
        return true;
    }
    let name = chars_of(p.process_name.as_str());
    if contains_chars(name.as_slice(), f) {
        return true;
    }
    let command = chars_of(p.command.as_str());
    contains_chars(command.as_slice(), f)
}

impl App {
    /// The entries shown: those that match the filter.
    pub open spec fn visible(&self) -> Seq<PortInfo> {
        filtered(self.ports@, self.filter@)
    }

    /// A viewer showing `ports`, in normal mode, with the first entry
    /// selected, no filter and no message.
    pub fn new(ports: Vec<PortInfo>) -> (a: App)
        ensures
            a.ports == ports,
            a.selected == 0,
            a.filter@ == Seq::<char>::empty(),
            a.mode == AppMode::Normal,
            !a.should_quit,
            a.message is None,
    {
        App {
            ports,
            selected: 0,
            filter: String::new(),
            mode: AppMode::Normal,
            should_quit: false,
            message: None,
        }
    }

    /// Replaces the ports by a new scan, keeps the selection inside a list
    /// that is not empty, and says so.
    pub fn refresh(&mut self, ports: Vec<PortInfo>)
        ensures
            final(self).ports == ports,
            final(self).selected == clamp_selection(old(self).selected, ports@.len()),
            message_text(final(self).message) == Some(refreshed_text()),
            final(self).filter == old(self).filter,
            final(self).mode == old(self).mode,
            final(self).should_quit == old(self).should_quit,
    {
        self.ports = ports;
        if self.selected >= self.ports.len() && self.ports.len() > 0 {
            self.selected = self.ports.len() - 1;
        }
        self.message = Some(to_string("リフレッシュしました"));
    }

    /// The entries that match the filter, in order.
    pub fn filtered_ports(&self) -> (r: Vec<&PortInfo>)
        ensures
            r@.unref() == self.visible(),
    {
        let f = chars_of(self.filter.as_str());
        let n = self.ports.len();
        let mut r: Vec<&PortInfo> = Vec::new();
        if f.len() == 0 {
            proof {
                assert(self.filter@ =~= Seq::<char>::empty());
                lemma_empty_filter_shows_all(self.ports@);
            }
            for i in 0..n
                invariant
                    n == self.ports@.len(),
                    r@.len() == i,
                    forall|k: int| 0 <= k < i ==> *(#[trigger] r@[k]) == self.ports@[k],
            {
                r.push(&self.ports[i]);
            }
            assert(r@.unref() =~= self.ports@);
            return r;
        }
        assert(self.ports@.take(0) =~= Seq::<PortInfo>::empty());
        assert(r@.unref() =~= filtered(self.ports@.take(0), f@)) by {
            reveal(Seq::filter);
        }
        for i in 0..n
            invariant
                n == self.ports@.len(),
                f@ == self.filter@,
                r@.unref() == filtered(self.ports@.take(i as int), f@),
        {
            let ghost before = r@.unref();
            let p = &self.ports[i];
            proof {
                assert(self.ports@.take(i + 1) =~= self.ports@.take(i as int).push(*p));
                self.ports@.take(i as int).lemma_filter_push(
                    *p,
                    |q: PortInfo| port_matches(q, f@),
                );
            }
            if matches_filter(p, f.as_slice()) {
                r.push(p);
                assert(r@.unref() =~= before.push(*p));
            }
        }
        assert(self.ports@.take(n as int) =~= self.ports@);
        r
    }

    /// Moves the selection one entry up, unless at the top.
    pub fn move_up(&mut self)
        ensures
            final(self).selected == step_up(old(self).selected),
            final(self).ports == old(self).ports,
            final(self).filter == old(self).filter,
            final(self).mode == old(self).mode,
            final(self).should_quit == old(self).should_quit,
            final(self).message == old(self).message,
    {
        if self.selected > 0 {
            self.selected -= 1;
        }
    }

    /// Moves the selection one entry down, unless at the last entry shown.
    pub fn move_down(&mut self)
        ensures
            final(self).selected == step_down(old(self).selected, old(self).visible().len()),
            final(self).ports == old(self).ports,
            final(self).filter == old(self).filter,
            final(self).mode == old(self).mode,
            final(self).should_quit == old(self).should_quit,
            final(self).message == old(self).message,
    {
        let len = self.filtered_ports().len();
        if len > 0 && self.selected < len - 1 {
            self.selected += 1;
        }
    }

    /// The selected entry among those shown, if the selection lies inside
    /// the list shown.
    pub fn selected_port(&self) -> (r: Option<&PortInfo>)
        ensures
            match r {
                Some(p) => self.selected < self.visible().len() && *p == self.visible()[self.selected as int],
                None => self.selected >= self.visible().len(),
            },
    {
        let shown = self.filtered_ports();
        if self.selected < shown.len() {
            Some(shown[self.selected])
        } else {
            None
        }
    }

    /// The process to signal for a confirmed kill, and the signal: the
    /// selected entry's process id, with `SIGKILL` when forced, else
    /// `SIGTERM`; `None` when nothing is selected.
    pub fn kill_target(&self, force: bool) -> (r: Option<(u32, Signal)>)
        ensures
            match r {
                Some((pid, sig)) => {
                    &&& self.selected < self.visible().len()
                    &&& pid == self.visible()[self.selected as int].pid
                    &&& sig == (if force {
                        Signal::Kill
                    } else {
                        Signal::Term
                    })
                },
                None => self.selected >= self.visible().len(),
            },
    {
        match self.selected_port() {
            Some(info) => Some((info.pid, kill_signal(force))),
            None => None,
        }
    }

    /// Records what became of signalling the selected process and returns to
    /// normal mode. When nothing is selected, nothing was sent and only the
    /// mode changes; when the signal was sent, the ports are replaced by the
    /// new scan as `refresh` does.
    pub fn kill_selected(&mut self, force: bool, outcome: KillOutcome)
        ensures
            final(self).mode == AppMode::Normal,
            final(self).filter == old(self).filter,
            final(self).should_quit == old(self).should_quit,
            old(self).selected >= old(self).visible().len() ==> {
                &&& final(self).ports == old(self).ports
                &&& final(self).selected == old(self).selected
                &&& final(self).message == old(self).message
            },
            old(self).selected < old(self).visible().len() ==> match outcome {
                KillOutcome::Sent { ports } => {
                    &&& final(self).ports == ports
                    &&& final(self).selected == clamp_selection(old(self).selected, ports@.len())
                    &&& message_text(final(self).message) == Some(refreshed_text())
                },
                KillOutcome::Failed { reason } => {
                    &&& final(self).ports == old(self).ports
                    &&& final(self).selected == old(self).selected
                    &&& message_text(final(self).message) == Some(error_text(reason@))
                },
            },
    {
        let target: Option<(u32, String)> = match self.selected_port() {
            Some(info) => Some((info.pid, info.process_name.clone())),
            None => None,
        };
        match target {
            Some((pid, name)) => match outcome {
                KillOutcome::Sent { ports } => {
                    self.message = Some(sent_message(pid, &name, force));
                    self.refresh(ports);
                },
                KillOutcome::Failed { reason } => {
                    let mut m = to_string("エラー: ");
                    push_str(&mut m, reason.as_str());
                    self.message = Some(m);
                },
            },
            None => {},
        }
        self.mode = AppMode::Normal;
    }
}

/// The message for a signal sent to process `pid` named `name`.
pub fn sent_message(pid: u32, name: &String, force: bool) -> (m: String)
    ensures
        m@ == sent_text(pid, name@, force),
{
    let mut m = to_string("PID ");
    push_decimal(&mut m, pid as u64);
    push_str(&mut m, " (");
    push_str(&mut m, name.as_str());
    push_str(&mut m, ") に ");
    push_str(&mut m, signal_label(force));
    push_str(&mut m, " を送信しました");
    m
}

} // verus!
