//! Firewall rules for packet interception and transparent proxying: the
//! `iptables` command lines that install and remove them, one per port.
//! Running the commands is left to the caller.

use vstd::prelude::*;
use vstd::utf8::encode_utf8;
use crate::bytes::lemma_ascii_valid_utf8;
use crate::search::string_of;
use crate::text::{digits, push_digits, push_text, text};

verus! {

/// The bytes of each argument of a command line.
pub open spec fn arg_bytes(v: Seq<String>) -> Seq<Seq<u8>> {
    v.map_values(|s: String| encode_utf8(s@))
}

/// `-A` (append) when installing, `-D` (delete) when removing.
pub open spec fn action_flag(install: bool) -> Seq<u8> {
    if install {
        text(seq!['-', 'A'])
    } else {
        text(seq!['-', 'D'])
    }
}

/// The `iptables` arguments of the rule that queues the first six packets
/// of each outgoing TCP connection to `port` on NFQUEUE `queue`, letting
/// packets through when no program listens on the queue.
pub open spec fn nfqueue_rule(install: bool, port: u16, queue: u16) -> Seq<Seq<u8>> {
    seq![action_flag(install)] + seq![text(seq!['O', 'U', 'T', 'P', 'U', 'T']), text(seq!['-', 'p']), text(seq!['t', 'c', 'p']), text(seq!['-', '-', 'd', 'p', 'o', 'r', 't'])] + seq![digits(port as nat)] + seq![text(seq!['-', 'm']), text(seq!['c', 'o', 'n', 'n', 'b', 'y', 't', 'e', 's']), text(seq!['-', '-', 'c', 'o', 'n', 'n', 'b', 'y', 't', 'e', 's']), text(seq!['1', ':', '6']), text(seq!['-', '-', 'c', 'o', 'n', 'n', 'b', 'y', 't', 'e', 's', '-', 'd', 'i', 'r']), text(seq!['o', 'r', 'i', 'g', 'i', 'n', 'a', 'l']), text(seq!['-', '-', 'c', 'o', 'n', 'n', 'b', 'y', 't', 'e', 's', '-', 'm', 'o', 'd', 'e']), text(seq!['p', 'a', 'c', 'k', 'e', 't', 's']), text(seq!['-', 'j']), text(seq!['N', 'F', 'Q', 'U', 'E', 'U', 'E']), text(seq!['-', '-', 'q', 'u', 'e', 'u', 'e', '-', 'n', 'u', 'm'])]
        + seq![digits(queue as nat)] + seq![text(seq!['-', '-', 'q', 'u', 'e', 'u', 'e', '-', 'b', 'y', 'p', 'a', 's', 's'])]
}

/// The `iptables` arguments of the NAT rule that redirects outgoing TCP
/// connections to `port` to the local `proxy_port`.
pub open spec fn redirect_rule(install: bool, port: u16, proxy_port: u16) -> Seq<Seq<u8>> {
    seq![text(seq!['-', 't']), text(seq!['n', 'a', 't'])] + seq![action_flag(install)] + seq![text(seq!['O', 'U', 'T', 'P', 'U', 'T']), text(seq!['-', 'p']), text(seq!['t', 'c', 'p']), text(seq!['-', '-', 'd', 'p', 'o', 'r', 't'])] + seq![digits(port as nat)]
        + seq![text(seq!['-', 'j']), text(seq!['R', 'E', 'D', 'I', 'R', 'E', 'C', 'T']), text(seq!['-', '-', 't', 'o', '-', 'p', 'o', 'r', 't', 's'])] + seq![digits(proxy_port as nat)]
}

fn push_arg(v: &mut Vec<String>, a: &str)
    requires
        a.is_ascii(),
    ensures
        arg_bytes(final(v)@) == arg_bytes(old(v)@).push(text(a@)),
{
    let mut b: Vec<u8> = Vec::new();
    push_text(&mut b, a);
    proof {
        lemma_ascii_valid_utf8(b@);
    }
    let s = string_of(&b);
    let ghost before = v@;
    v.push(s);
    assert(arg_bytes(v@) =~= arg_bytes(before).push(text(a@)));
}

fn push_number(v: &mut Vec<String>, n: u16)
    ensures
        arg_bytes(final(v)@) == arg_bytes(old(v)@).push(digits(n as nat)),
{
    let mut b: Vec<u8> = Vec::new();
    push_digits(&mut b, n as u64);
    proof {
        lemma_ascii_valid_utf8(b@);
    }
    let s = string_of(&b);
    let ghost before = v@;
    v.push(s);
    assert(arg_bytes(v@) =~= arg_bytes(before).push(digits(n as nat)));
}

fn push_action(v: &mut Vec<String>, install: bool)
    ensures
        arg_bytes(final(v)@) == arg_bytes(old(v)@).push(action_flag(install)),
{
    if install {
        let a = "-A";
        proof {
            reveal_strlit("-A");
        }
        assert(a@ =~= seq!['-', 'A']);
        push_arg(v, a);
    } else {
        let a = "-D";
        proof {
            reveal_strlit("-D");
        }
        assert(a@ =~= seq!['-', 'D']);
        push_arg(v, a);
    }
}

fn nfqueue_rule_args(install: bool, port: u16, queue: u16) -> (r: Vec<String>)
    ensures
        arg_bytes(r@) == nfqueue_rule(install, port, queue),
{
    let mut v: Vec<String> = Vec::new();
    push_action(&mut v, install);
    let a = "OUTPUT";
    proof {
        reveal_strlit("OUTPUT");
    }
    assert(a@ =~= seq!['O', 'U', 'T', 'P', 'U', 'T']);
    push_arg(&mut v, a);
    let a = "-p";
    proof {
        reveal_strlit("-p");
    }
    assert(a@ =~= seq!['-', 'p']);
    push_arg(&mut v, a);
    let a = "tcp";
    proof {
        reveal_strlit("tcp");
    }
    assert(a@ =~= seq!['t', 'c', 'p']);
    push_arg(&mut v, a);
    let a = "--dport";
    proof {
        reveal_strlit("--dport");
    }
    assert(a@ =~= seq!['-', '-', 'd', 'p', 'o', 'r', 't']);
    push_arg(&mut v, a);
    push_number(&mut v, port);
    let a = "-m";
    proof {
        reveal_strlit("-m");
    }
    assert(a@ =~= seq!['-', 'm']);
    push_arg(&mut v, a);
    let a = "connbytes";
    proof {
        reveal_strlit("connbytes");
    }
    assert(a@ =~= seq!['c', 'o', 'n', 'n', 'b', 'y', 't', 'e', 's']);
    push_arg(&mut v, a);
    let a = "--connbytes";
    proof {
        reveal_strlit("--connbytes");
    }
    assert(a@ =~= seq!['-', '-', 'c', 'o', 'n', 'n', 'b', 'y', 't', 'e', 's']);
    push_arg(&mut v, a);
    let a = "1:6";
    proof {
        reveal_strlit("1:6");
    }
    assert(a@ =~= seq!['1', ':', '6']);
    push_arg(&mut v, a);
    let a = "--connbytes-dir";
    proof {
        reveal_strlit("--connbytes-dir");
    }
    assert(a@ =~= seq!['-', '-', 'c', 'o', 'n', 'n', 'b', 'y', 't', 'e', 's', '-', 'd', 'i', 'r']);
    push_arg(&mut v, a);
    let a = "original";
    proof {
        reveal_strlit("original");
    }
    assert(a@ =~= seq!['o', 'r', 'i', 'g', 'i', 'n', 'a', 'l']);
    push_arg(&mut v, a);
    let a = "--connbytes-mode";
    proof {
        reveal_strlit("--connbytes-mode");
    }
    assert(a@ =~= seq!['-', '-', 'c', 'o', 'n', 'n', 'b', 'y', 't', 'e', 's', '-', 'm', 'o', 'd', 'e']);
    push_arg(&mut v, a);
    let a = "packets";
    proof {
        reveal_strlit("packets");
    }
    assert(a@ =~= seq!['p', 'a', 'c', 'k', 'e', 't', 's']);
    push_arg(&mut v, a);
    let a = "-j";
    proof {
        reveal_strlit("-j");
    }
    assert(a@ =~= seq!['-', 'j']);
    push_arg(&mut v, a);
    let a = "NFQUEUE";
    proof {
        reveal_strlit("NFQUEUE");
    }
    assert(a@ =~= seq!['N', 'F', 'Q', 'U', 'E', 'U', 'E']);
    push_arg(&mut v, a);
    let a = "--queue-num";
    proof {
        reveal_strlit("--queue-num");
    }
    assert(a@ =~= seq!['-', '-', 'q', 'u', 'e', 'u', 'e', '-', 'n', 'u', 'm']);
    push_arg(&mut v, a);
    push_number(&mut v, queue);
    let a = "--queue-bypass";
    proof {
        reveal_strlit("--queue-bypass");
    }
    assert(a@ =~= seq!['-', '-', 'q', 'u', 'e', 'u', 'e', '-', 'b', 'y', 'p', 'a', 's', 's']);
    push_arg(&mut v, a);
    assert(arg_bytes(v@) =~= nfqueue_rule(install, port, queue));
    v
}

fn redirect_rule_args(install: bool, port: u16, proxy_port: u16) -> (r: Vec<String>)
    ensures
        arg_bytes(r@) == redirect_rule(install, port, proxy_port),
{
    let mut v: Vec<String> = Vec::new();
    let a = "-t";
    proof {
        reveal_strlit("-t");
    }
    assert(a@ =~= seq!['-', 't']);
    push_arg(&mut v, a);
    let a = "nat";
    proof {
        reveal_strlit("nat");
    }
    assert(a@ =~= seq!['n', 'a', 't']);
    push_arg(&mut v, a);
    push_action(&mut v, install);
    let a = "OUTPUT";
    proof {
        reveal_strlit("OUTPUT");
    }
    assert(a@ =~= seq!['O', 'U', 'T', 'P', 'U', 'T']);
    push_arg(&mut v, a);
    let a = "-p";
    proof {
        reveal_strlit("-p");
    }
    assert(a@ =~= seq!['-', 'p']);
    push_arg(&mut v, a);
    let a = "tcp";
    proof {
        reveal_strlit("tcp");
    }
    assert(a@ =~= seq!['t', 'c', 'p']);
    push_arg(&mut v, a);
    let a = "--dport";
    proof {
        reveal_strlit("--dport");
    }
    assert(a@ =~= seq!['-', '-', 'd', 'p', 'o', 'r', 't']);
    push_arg(&mut v, a);
    push_number(&mut v, port);
    let a = "-j";
    proof {
        reveal_strlit("-j");
    }
    assert(a@ =~= seq!['-', 'j']);
    push_arg(&mut v, a);
    let a = "REDIRECT";
    proof {
        reveal_strlit("REDIRECT");
    }
    assert(a@ =~= seq!['R', 'E', 'D', 'I', 'R', 'E', 'C', 'T']);
    push_arg(&mut v, a);
    let a = "--to-ports";
    proof {
        reveal_strlit("--to-ports");
    }
    assert(a@ =~= seq!['-', '-', 't', 'o', '-', 'p', 'o', 'r', 't', 's']);
    push_arg(&mut v, a);
    push_number(&mut v, proxy_port);
    assert(arg_bytes(v@) =~= redirect_rule(install, port, proxy_port));
    v
}

/// Rules that queue the first packets of outgoing connections to given
/// ports on an NFQUEUE.
#[derive(Debug)]
pub struct IptablesManager {
    /// The NFQUEUE number to queue to.
    pub queue_num: u16,
    /// The destination ports to intercept.
    pub ports: Vec<u16>,
    installed: bool,
}

impl IptablesManager {
    pub fn new(queue_num: u16, ports: Vec<u16>) -> (r: Self)
        ensures
            r.queue() == queue_num,
            r.port_list() == ports@,
            !r.is_installed(),
    {
        IptablesManager { queue_num, ports, installed: false }
    }

    pub closed spec fn is_installed(&self) -> bool {
        self.installed
    }

    pub closed spec fn queue(&self) -> u16 {
        self.queue_num
    }

    pub closed spec fn port_list(&self) -> Seq<u16> {
        self.ports@
    }

    /// Whether the rules were installed, so that cleanup is due when the
    /// manager goes away.
    pub fn installed(&self) -> (r: bool)
        ensures
            r == self.is_installed(),
    {
        self.installed
    }

    /// Record that the rules were installed.
    pub fn mark_installed(&mut self)
        ensures
            final(self).is_installed(),
            final(self).queue() == old(self).queue(),
            final(self).port_list() == old(self).port_list(),
    {
        self.installed = true;
    }

    /// The command lines to run when the manager goes away: those that
    /// remove the rules once they were installed, none otherwise.
    pub fn drop_commands(&self) -> (r: Vec<Vec<String>>)
        ensures
            r@.len() == if self.is_installed() { self.port_list().len() } else { 0 },
            forall|i: int| 0 <= i < r@.len() ==> arg_bytes((#[trigger] r@[i])@) == nfqueue_rule(false, self.port_list()[i], self.queue()),
    {
        if self.installed {
            self.rule_commands(false)
        } else {
            Vec::new()
        }
    }

    /// The `iptables` command lines that install (`install`) or remove
    /// the rules: one per port, in order.
    pub fn rule_commands(&self, install: bool) -> (r: Vec<Vec<String>>)
        ensures
            r@.len() == self.port_list().len(),
            forall|i: int| 0 <= i < r@.len() ==> arg_bytes((#[trigger] r@[i])@) == nfqueue_rule(install, self.port_list()[i], self.queue()),
    {
        let mut r: Vec<Vec<String>> = Vec::new();
        let mut i: usize = 0;
        while i < self.ports.len()
            invariant
                i <= self.ports@.len(),
                r@.len() == i,
                forall|k: int| 0 <= k < i ==> arg_bytes((#[trigger] r@[k])@) == nfqueue_rule(install, self.ports@[k], self.queue_num),
            decreases self.ports@.len() - i,
        {
            r.push(nfqueue_rule_args(install, self.ports[i], self.queue_num));
            i = i + 1;
        }
        r
    }
}

/// NAT rules that redirect outgoing connections to given ports to the
/// transparent proxy.
#[derive(Debug)]
pub struct IptablesRedirectManager {
    /// The port the transparent proxy listens on.
    pub proxy_port: u16,
    /// The destination ports to intercept.
    pub intercept_ports: Vec<u16>,
    installed: bool,
}

impl IptablesRedirectManager {
    pub fn new(proxy_port: u16, intercept_ports: Vec<u16>) -> (r: Self)
        ensures
            r.listen_port() == proxy_port,
            r.port_list() == intercept_ports@,
            !r.is_installed(),
    {
        IptablesRedirectManager { proxy_port, intercept_ports, installed: false }
    }

    pub closed spec fn is_installed(&self) -> bool {
        self.installed
    }

    pub closed spec fn listen_port(&self) -> u16 {
        self.proxy_port
    }

    pub closed spec fn port_list(&self) -> Seq<u16> {
        self.intercept_ports@
    }

    /// Whether the rules were installed, so that cleanup is due when the
    /// manager goes away.
    pub fn installed(&self) -> (r: bool)
        ensures
            r == self.is_installed(),
    {
        self.installed
    }

    /// Record that the rules were installed.
    pub fn mark_installed(&mut self)
        ensures
            final(self).is_installed(),
            final(self).listen_port() == old(self).listen_port(),
            final(self).port_list() == old(self).port_list(),
    {
        self.installed = true;
    }

    /// The command lines to run when the manager goes away: those that
    /// remove the rules once they were installed, none otherwise.
    pub fn drop_commands(&self) -> (r: Vec<Vec<String>>)
        ensures
            r@.len() == if self.is_installed() { self.port_list().len() } else { 0 },
            forall|i: int| 0 <= i < r@.len() ==> arg_bytes((#[trigger] r@[i])@) == redirect_rule(false, self.port_list()[i], self.listen_port()),
    {
        if self.installed {
            self.rule_commands(false)
        } else {
            Vec::new()
        }
    }

    /// The `iptables` command lines that install (`install`) or remove
    /// the rules: one per intercepted port, in order.
    pub fn rule_commands(&self, install: bool) -> (r: Vec<Vec<String>>)
        ensures
            r@.len() == self.port_list().len(),
            forall|i: int| 0 <= i < r@.len() ==> arg_bytes((#[trigger] r@[i])@) == redirect_rule(install, self.port_list()[i], self.listen_port()),
    {
        let mut r: Vec<Vec<String>> = Vec::new();
        let mut i: usize = 0;
        while i < self.intercept_ports.len()
            invariant
                i <= self.intercept_ports@.len(),
                r@.len() == i,
                forall|k: int| 0 <= k < i ==> arg_bytes((#[trigger] r@[k])@) == redirect_rule(install, self.intercept_ports@[k], self.proxy_port),
            decreases self.intercept_ports@.len() - i,
        {
            r.push(redirect_rule_args(install, self.intercept_ports[i], self.proxy_port));
            i = i + 1;
        }
        r
    }
}

} // verus!
