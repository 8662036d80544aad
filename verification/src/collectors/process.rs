//! Locally-listening TCP ports and the processes behind them.

use crate::event::{opt_raw, port_views, Event, EventView, ListeningPort, ListeningPortView};
use crate::number::{number, parse_number};
use crate::text::{
    lines, opt_view, pieces, same, split_lines, split_on, split_words, strip_prefix, strip_suffix,
    stripped_prefix, stripped_suffix, trim, trimmed, views, words,
};
use std::collections::HashMap;
use vstd::prelude::*;

verus! {

/// The position of the local address in a line of `/proc/net/tcp`.
const LOCAL_ADDRESS: usize = 1;

/// The position of the socket state.
const STATE: usize = 3;

/// The position of the socket inode.
const INODE: usize = 9;

/// The port and inode of a socket that a line of `/proc/net/tcp` lists in
/// the state LISTEN.
pub open spec fn listening_socket(line: Seq<char>) -> Option<(u16, u64)> {
    let fields = words(line);
    if fields.len() < 10 || fields[3] != "0A"@ {
        None
    } else {
        let address = pieces(fields[1], ":"@);
        if address.len() < 2 {
            None
        } else {
            match (
                number(address[1], 16, u16::MAX as nat),
                number(fields[9], 10, u64::MAX as nat),
            ) {
                (Some(port), Some(inode)) => Some((port as u16, inode as u64)),
                _ => None,
            }
        }
    }
}

/// The listening sockets of the lines from position `from` on.
pub open spec fn sockets_from(all: Seq<Seq<char>>, from: int) -> Seq<(u16, u64)>
    decreases all.len() - from,
{
    if from < 0 || from >= all.len() {
        Seq::empty()
    } else {
        match listening_socket(all[from]) {
            Some(socket) => seq![socket] + sockets_from(all, from + 1),
            None => sockets_from(all, from + 1),
        }
    }
}

fn parse_socket(line: &str) -> (r: Option<(u16, u64)>)
    ensures
        r == listening_socket(line@),
{
    let fields = split_words(line);
    assert(views(fields@).len() == fields@.len());
    if fields.len() < 10 {
        return None;
    }
    assert(views(fields@)[1] == fields@[1]@);
    assert(views(fields@)[3] == fields@[3]@);
    assert(views(fields@)[9] == fields@[9]@);
    if !same(fields[STATE].as_str(), "0A") {
        return None;
    }
    proof {
        reveal_strlit(":");
    }
    let address = split_on(fields[LOCAL_ADDRESS].as_str(), ":");
    assert(views(address@).len() == address@.len());
    if address.len() < 2 {
        return None;
    }
    assert(views(address@)[1] == address@[1]@);
    match (
        parse_number(address[1].as_str(), 16, u16::MAX as u64),
        parse_number(fields[INODE].as_str(), 10, u64::MAX),
    ) {
        (Some(port), Some(inode)) => Some((port as u16, inode)),
        _ => None,
    }
}

/// Parses local addresses in LISTEN state out of the content of
/// `/proc/net/tcp{,6}`, returning (port, socket inode) pairs. The first line
/// is a heading.
pub fn parse_proc_net_tcp(content: &str) -> (r: Vec<(u16, u64)>)
    ensures
        r@ == sockets_from(lines(content@), 1),
{
    let all = split_lines(content);
    let ghost ls = lines(content@);
    let mut out: Vec<(u16, u64)> = Vec::new();
    let mut i: usize = 1;
    assert(out@ + sockets_from(ls, 1) =~= sockets_from(ls, 1));
    while i < all.len()
        invariant
            views(all@) == ls,
            1 <= i,
            out@ + sockets_from(ls, i as int) == sockets_from(ls, 1),
        decreases all@.len() - i,
    {
        assert(ls[i as int] == all@[i as int]@);
        let ghost before = out@;
        if let Some(socket) = parse_socket(all[i].as_str()) {
            out.push(socket);
            assert(before + (seq![socket] + sockets_from(ls, i + 1)) =~= out@ + sockets_from(
                ls,
                i + 1,
            ));
        }
        i = i + 1;
    }
    assert(out@ =~= sockets_from(ls, 1));
    out
}

/// The inode that the target of a file descriptor's link names, e.g.
/// `socket:[1234]`.
pub open spec fn link_inode(target: Seq<char>) -> Option<u64> {
    match stripped_prefix(target, "socket:["@) {
        Some(rest) => match stripped_suffix(rest, "]"@) {
            Some(digits) => match number(digits, 10, u64::MAX as nat) {
                Some(n) => Some(n as u64),
                None => None,
            },
            None => None,
        },
        None => None,
    }
}

/// The socket inode that the target of a file descriptor's link names.
pub fn socket_inode(target: &str) -> (r: Option<u64>)
    ensures
        r == link_inode(target@),
{
    match strip_prefix(target, "socket:[") {
        Some(rest) => match strip_suffix(rest.as_str(), "]") {
            Some(digits) => parse_number(digits.as_str(), 10, u64::MAX),
            None => None,
        },
        None => None,
    }
}

/// The process that an entry of `/proc` belongs to, if its name is a number.
pub fn process_id(name: &str) -> (r: Option<u32>)
    ensures
        match r {
            Some(pid) => number(name@, 10, u32::MAX as nat) == Some(pid as nat),
            None => number(name@, 10, u32::MAX as nat) is None,
        },
{
    match parse_number(name, 10, u32::MAX as u64) {
        Some(pid) => Some(pid as u32),
        None => None,
    }
}

/// Notes that `pid` holds the socket `inode`, unless a process is already
/// known for it.
pub fn note_socket(owners: &mut HashMap<u64, u32>, inode: u64, pid: u32)
    ensures
        final(owners)@ == if old(owners)@.contains_key(inode) {
            old(owners)@
        } else {
            old(owners)@.insert(inode, pid)
        },
{
    broadcast use vstd::std_specs::hash::group_hash_axioms;

    if !owners.contains_key(&inode) {
        owners.insert(inode, pid);
    }
}

/// The sockets from position `from` on whose process is known, as port and
/// process.
pub open spec fn owned_from(
    sockets: Seq<(u16, u64)>,
    owners: Map<u64, u32>,
    from: int,
) -> Seq<(u16, u32)>
    decreases sockets.len() - from,
{
    if from < 0 || from >= sockets.len() {
        Seq::empty()
    } else if owners.contains_key(sockets[from].1) {
        seq![(sockets[from].0, owners[sockets[from].1])] + owned_from(sockets, owners, from + 1)
    } else {
        owned_from(sockets, owners, from + 1)
    }
}

/// The listening ports whose process is known.
pub fn owned_ports(sockets: &Vec<(u16, u64)>, owners: &HashMap<u64, u32>) -> (r: Vec<(u16, u32)>)
    ensures
        r@ == owned_from(sockets@, owners@, 0),
{
    broadcast use vstd::std_specs::hash::group_hash_axioms;

    let mut out: Vec<(u16, u32)> = Vec::new();
    let mut i: usize = 0;
    assert(out@ + owned_from(sockets@, owners@, 0) =~= owned_from(sockets@, owners@, 0));
    while i < sockets.len()
        invariant
            i <= sockets@.len(),
            out@ + owned_from(sockets@, owners@, i as int) == owned_from(sockets@, owners@, 0),
        decreases sockets@.len() - i,
    {
        let ghost before = out@;
        let (port, inode) = sockets[i];
        if let Some(pid) = owners.get(&inode) {
            out.push((port, *pid));
            assert(before + (seq![(port, *pid)] + owned_from(sockets@, owners@, i + 1)) =~= out@
                + owned_from(sockets@, owners@, i + 1));
        }
        i = i + 1;
    }
    assert(out@ =~= owned_from(sockets@, owners@, 0));
    out
}

/// The name of a process, from the content of its `comm` file.
pub open spec fn process_label(comm: Option<Seq<char>>) -> Seq<char> {
    match comm {
        Some(c) => trimmed(c),
        None => "unknown"@,
    }
}

/// A port with the name of its process, from the content of the process's
/// `comm` file if that could be read.
pub fn listening_port(port: u16, pid: u32, comm: &Option<String>) -> (r: ListeningPort)
    ensures
        r@ == (ListeningPortView { port, process: process_label(opt_view(*comm)), pid }),
{
    let process = match comm {
        Some(c) => trim(c.as_str()),
        None => "unknown".to_owned(),
    };
    ListeningPort { port, process, pid }
}

/// The ports and processes of a snapshot.
pub open spec fn port_pairs(ports: Seq<ListeningPort>) -> Seq<(u16, u32)> {
    ports.map_values(|p: ListeningPort| (p.port, p.pid))
}

/// The two snapshots list the same ports and processes, in any order.
pub open spec fn equivalent(a: Seq<ListeningPort>, b: Seq<ListeningPort>) -> bool {
    port_pairs(a).to_multiset() == port_pairs(b).to_multiset()
}

fn take_pair(rest: &mut Vec<(u16, u32)>, pair: (u16, u32)) -> (r: bool)
    ensures
        r == old(rest)@.contains(pair),
        r ==> final(rest)@.to_multiset() == old(rest)@.to_multiset().remove(pair),
        r ==> final(rest)@.len() == old(rest)@.len() - 1,
        !r ==> final(rest)@ == old(rest)@,
{
    let mut i: usize = 0;
    while i < rest.len()
        invariant
            rest@ == old(rest)@,
            i <= rest@.len(),
            forall|j: int| 0 <= j < i ==> rest@[j] != pair,
        decreases rest@.len() - i,
    {
        if rest[i].0 == pair.0 && rest[i].1 == pair.1 {
            proof {
                assert(rest@[i as int] == pair);
                vstd::seq_lib::to_multiset_remove(rest@, i as int);
            }
            rest.remove(i);
            return true;
        }
        i = i + 1;
    }
    false
}

/// Whether two snapshots list the same ports and processes, in any order.
pub fn same_ports(a: &Vec<ListeningPort>, b: &Vec<ListeningPort>) -> (r: bool)
    ensures
        r == equivalent(a@, b@),
{
    broadcast use vstd::multiset::group_multiset_axioms;

    let ghost pa = port_pairs(a@);
    let ghost pb = port_pairs(b@);
    proof {
        vstd::seq_lib::to_multiset_len(pa);
        vstd::seq_lib::to_multiset_len(pb);
    }
    if a.len() != b.len() {
        return false;
    }
    let mut rest: Vec<(u16, u32)> = Vec::new();
    for i in 0..b.len()
        invariant
            pb == port_pairs(b@),
            rest@ == pb.take(i as int),
    {
        rest.push((b[i].port, b[i].pid));
        assert(pb.take(i + 1) =~= pb.take(i as int).push(pb[i as int]));
    }
    assert(pb.take(b@.len() as int) =~= pb);
    assert(pa.take(0) =~= Seq::empty());
    assert(pa.take(0).to_multiset() =~= vstd::multiset::Multiset::empty()) by {
        vstd::seq_lib::to_multiset_len(pa.take(0));
    }
    assert(pa.take(0).to_multiset().add(rest@.to_multiset()) =~= pb.to_multiset());
    for i in 0..a.len()
        invariant
            pa == port_pairs(a@),
            pb == port_pairs(b@),
            pa.len() == pb.len(),
            rest@.len() == pa.len() - i,
            pa.take(i as int).to_multiset().add(rest@.to_multiset()) == pb.to_multiset(),
    {
        broadcast use vstd::multiset::group_multiset_axioms;

        let ghost left = rest@;
        let ghost pair = pa[i as int];
        proof {
            assert(pa.take(i + 1) =~= pa.take(i as int).push(pair));
            vstd::seq_lib::to_multiset_build(pa.take(i as int), pair);
            vstd::seq_lib::to_multiset_contains(left, pair);
        }
        let ok = take_pair(&mut rest, (a[i].port, a[i].pid));
        proof {
            if !ok {
                lemma_count_in_prefix(pa, i + 1, pair);
                assert(left.to_multiset().count(pair) == 0);
                assert(pb.to_multiset().count(pair) == pa.take(i as int).to_multiset().count(pair));
                assert(pa.take(i + 1).to_multiset().count(pair) == pa.take(
                    i as int,
                ).to_multiset().count(pair) + 1);
                assert(pa.to_multiset() != pb.to_multiset());
            } else {
                assert(pa.take(i + 1).to_multiset().add(rest@.to_multiset()) =~= pb.to_multiset());
            }
        }
        if !ok {
            return false;
        }
    }
    proof {
        assert(pa.take(a@.len() as int) =~= pa);
        vstd::seq_lib::to_multiset_len(rest@);
        assert(pa.to_multiset() =~= pb.to_multiset());
    }
    true
}

proof fn lemma_count_in_prefix(s: Seq<(u16, u32)>, n: int, x: (u16, u32))
    requires
        0 <= n <= s.len(),
    ensures
        s.take(n).to_multiset().count(x) <= s.to_multiset().count(x),
    decreases s.len() - n,
{
    broadcast use vstd::multiset::group_multiset_axioms;

    if n == s.len() {
        assert(s.take(n) =~= s);
    } else {
        lemma_count_in_prefix(s, n + 1, x);
        assert(s.take(n + 1) =~= s.take(n).push(s[n]));
        vstd::seq_lib::to_multiset_build(s.take(n), s[n]);
    }
}

/// The last snapshot that was published.
pub struct PortWatch {
    pub last: Vec<ListeningPort>,
}

fn copy_ports(ports: &Vec<ListeningPort>) -> (r: Vec<ListeningPort>)
    ensures
        r@ == ports@,
{
    let mut out: Vec<ListeningPort> = Vec::new();
    for i in 0..ports.len()
        invariant
            out@ == ports@.take(i as int),
    {
        out.push(
            ListeningPort {
                port: ports[i].port,
                process: ports[i].process.clone(),
                pid: ports[i].pid,
            },
        );
    }
    assert(ports@.take(ports@.len() as int) =~= ports@);
    out
}

impl PortWatch {
    pub fn new() -> (r: Self)
        ensures
            r.last@.len() == 0,
    {
        PortWatch { last: Vec::new() }
    }

    /// A new snapshot: gives its event unless the last published one lists
    /// the same ports and processes.
    pub fn observe(&mut self, ports: Vec<ListeningPort>, now: u64) -> (r: Option<Event>)
        ensures
            equivalent(old(self).last@, ports@) ==> r is None && final(self).last@ == old(
                self,
            ).last@,
            !equivalent(old(self).last@, ports@) ==> {
                &&& opt_raw(r) == Some(
                    EventView::ProcessActivity {
                        listening_ports: port_views(ports@),
                        timestamp: now,
                    },
                )
                &&& final(self).last@ == ports@
            },
    {
        if same_ports(&self.last, &ports) {
            return None;
        }
        self.last = copy_ports(&ports);
        Some(Event::ProcessActivity { listening_ports: ports, timestamp: now })
    }
}

} // verus!
