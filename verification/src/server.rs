//! The node's command handlers: each wire command becomes a state
//! change plus a reply and outbound messages. The network shell
//! performs the I/O these describe; every decision is made here.
use vstd::prelude::*;

use crate::chunks::{fair_chunk_len, spec_chunk_len, spec_sum_len, sum_len_up_to_inclusive};
use crate::files::{chunk_file_name, node_file_path, spec_chunk_file_name, spec_node_file_path};
use crate::kv::KvList;
use crate::netmap::{spec_entries_str, NodeStatus};
use crate::node::{spec_append_edge, token_known, Node};
use crate::strutil::{
    dec_str, spec_host_of, spec_host_str, spec_port_str, spec_split_all, spec_trim,
    spec_trim_crlf, spec_upper_str, split_first, u64_to_string,
};

verus! {

/// One outbound message: connect to `addr`, write `line`.
pub struct OutMsg {
    pub addr: String,
    pub line: String,
}

/// What a handler asks the shell to do besides replying.
pub enum Action {
    /// Connect to `addr` and write `line`, best effort.
    Send { addr: String, line: String },
    /// Run one heal-walk step against the successor.
    HealCheck { token: String, start_addr: String },
    /// Wait for the topology walk with this token to complete.
    AwaitWalk { token: String },
    /// Wait for the heal walk with this token to complete.
    AwaitHeal { token: String },
    /// A walk this node started has come home: wake its waiter.
    CompleteWalk { token: String, history: String },
    /// A heal walk this node started has finished.
    CompleteHeal { token: String },
    /// A push this node relayed has gone all the way round.
    CompleteFile { token: String },
    /// Fetch `name` from the successor and store it under backup.
    FetchBackup { from: String, name: String },
}

/// A handler's outcome: the reply to write, the side effects, and
/// whether the connection closes after the reply.
pub struct Step {
    pub reply: String,
    pub actions: Vec<Action>,
    pub close: bool,
}

// ---------- wire lines ----------

/// `prefix` and one greedy field.
fn join_line2(prefix: &str, a: &str) -> (r: String)
    ensures
        r@ == prefix@ + a@ + seq!['\n'],
{
    let mut out = String::new();
    out.append(prefix);
    out.append(a);
    out.push('\n');
    proof {
        assert(out@ =~= prefix@ + a@ + seq!['\n']);
    }
    out
}

/// `prefix` and two fields, the second greedy.
fn join_line3(prefix: &str, a: &str, b: &str) -> (r: String)
    ensures
        r@ == prefix@ + a@ + seq![' '] + b@ + seq!['\n'],
{
    let mut out = String::new();
    out.append(prefix);
    out.append(a);
    out.push(' ');
    out.append(b);
    out.push('\n');
    proof {
        assert(out@ =~= prefix@ + a@ + seq![' '] + b@ + seq!['\n']);
    }
    out
}

/// `prefix` and three fields, the third greedy.
fn join_line4(prefix: &str, a: &str, b: &str, c: &str) -> (r: String)
    ensures
        r@ == prefix@ + a@ + seq![' '] + b@ + seq![' '] + c@ + seq!['\n'],
{
    let mut out = String::new();
    out.append(prefix);
    out.append(a);
    out.push(' ');
    out.append(b);
    out.push(' ');
    out.append(c);
    out.push('\n');
    proof {
        assert(out@ =~= prefix@ + a@ + seq![' '] + b@ + seq![' '] + c@ + seq!['\n']);
    }
    out
}

// ---------- NODE ----------

/// `NODE NEXT <addr>`: set the successor.
pub fn handle_node_next(node: &mut Node, addr: String) -> (r: Step)
    ensures
        *final (node) == (Node { next_port: Some(addr), ..*old(node) }),
        r.reply@ == "OK next="@ + addr@ + seq!['\n'],
        r.actions@.len() == 0,
        !r.close,
{
    let reply = join_line2("OK next=", addr.as_str());
    node.set_next(addr);
    Step { reply, actions: Vec::new(), close: false }
}

/// `NODE STATUS`: own port and successor.
pub fn handle_node_status(node: &Node) -> (r: Step)
    ensures
        r.reply@ == "PORT "@ + node.port@ + "\nNEXT "@ + (match node.next_port {
            Some(n) => n@,
            None => "<unset>"@,
        }) + "\nOK\n"@,
        r.actions@.len() == 0,
        !r.close,
{
    let mut reply = String::new();
    reply.append("PORT ");
    reply.append(node.port.as_str());
    reply.append("\nNEXT ");
    match &node.next_port {
        Some(n) => reply.append(n.as_str()),
        None => reply.append("<unset>"),
    }
    reply.append("\nOK\n");
    proof {
        assert(reply@ =~= "PORT "@ + node.port@ + "\nNEXT "@ + (match node.next_port {
            Some(n) => n@,
            None => "<unset>"@,
        }) + "\nOK\n"@);
    }
    Step { reply, actions: Vec::new(), close: false }
}

/// `NODE PING`.
pub fn handle_node_ping() -> (r: Step)
    ensures
        r.reply@ == "PONG\n"@,
        r.actions@.len() == 0,
        !r.close,
{
    Step { reply: "PONG\n".to_owned(), actions: Vec::new(), close: false }
}

/// The line a health check sends.
pub fn ping_line() -> (r: &'static str)
    ensures
        r@ == "NODE PING\n"@,
{
    "NODE PING\n"
}

/// A health check passes exactly when the trimmed reply reads `PONG`,
/// in any case.
pub fn is_pong_reply(line: &str) -> (r: bool)
    ensures
        r == (spec_upper_str(spec_trim(line@)) == "PONG"@),
{
    let t = crate::strutil::upper_str(crate::strutil::trim(line));
    crate::strutil::str_eq(t.as_str(), "PONG")
}

// ---------- RING ----------

/// `RING FORWARD <ttl> <msg>`: pass the message on while the ttl
/// lasts; always acknowledge.
pub fn handle_ring_forward(node: &Node, ttl: u32, msg: &str) -> (r: Step)
    ensures
        r.reply@ == "OK\n"@,
        !r.close,
        ttl > 0 && node.next_port is Some ==> r.actions@.len() == 1 && (r.actions@[0] matches
            Action::Send { addr, line } && addr@ == node.next_port->Some_0@ && line@
            == "RING FORWARD "@ + dec_str((ttl - 1) as nat) + seq![' '] + msg@ + seq!['\n']),
        !(ttl > 0 && node.next_port is Some) ==> r.actions@.len() == 0,
{
    let mut actions: Vec<Action> = Vec::new();
    if ttl > 0 {
        match node.get_next() {
            Some(next) => {
                let line = join_line3(
                    "RING FORWARD ",
                    u64_to_string((ttl - 1) as u64).as_str(),
                    msg,
                );
                actions.push(Action::Send { addr: next, line });
            },
            None => {},
        }
    }
    Step { reply: "OK\n".to_owned(), actions, close: false }
}

// ---------- TOPOLOGY ----------

/// `TOPOLOGY WALK`: mint a token, remember it, and start the walk at
/// the successor; the shell then waits for the walk to come home.
pub fn handle_topology_walk(node: &mut Node) -> (r: Step)
    ensures
        !r.close,
        // whatever the walk's fate, only the counter and the pending
        // tokens move; the maps and the successor stay as they were
        *final (node) == (Node {
            walk_counter: final (node).walk_counter,
            pending_walks: final (node).pending_walks,
            ..*old(node)
        }),
        ({
            let token = old(node).port@ + seq!['-'] + dec_str(old(node).walk_counter as nat);
            match old(node).next_port {
                None => {
                    &&& r.reply@ == "ERR no next hop set\n"@
                    &&& r.actions@.len() == 0
                },
                Some(next) => {
                    let hist = spec_append_edge(Seq::empty(), old(node).port@, next@);
                    &&& r.reply@.len() == 0
                    &&& r.actions@.len() == 2
                    &&& (r.actions@[0] matches Action::Send { addr, line } && addr@ == next@
                        && line@ == "TOPOLOGY HOP "@ + token + seq![' '] + old(node).port@
                        + seq![' '] + hist + seq!['\n'])
                    &&& (r.actions@[1] matches Action::AwaitWalk { token: t } && t@ == token)
                    &&& token_known(final (node).pending_walks@, token)
                },
            }
        }),
{
    let token = node.make_walk_token();
    node.register_walk(token.as_str());
    let mut actions: Vec<Action> = Vec::new();
    match node.first_walk_history() {
        None => Step { reply: "ERR no next hop set\n".to_owned(), actions, close: false },
        Some(hist) => {
            let next = match node.get_next() {
                Some(n) => n,
                None => unreached(),
            };
            let line = join_line4(
                "TOPOLOGY HOP ",
                token.as_str(),
                node.port.as_str(),
                hist.as_str(),
            );
            actions.push(Action::Send { addr: next, line });
            actions.push(Action::AwaitWalk { token });
            proof {
                assert(final (node).pending_walks@.last()@ == old(node).port@ + seq!['-']
                    + dec_str(old(node).walk_counter as nat));
            }
            Step { reply: String::new(), actions, close: false }
        },
    }
}

/// What the walk starter replies when the forward send fails.
pub fn forward_failed_reply(err: &str) -> (r: String)
    ensures
        r@ == "ERR forward failed: "@ + err@ + seq!['\n'],
{
    join_line2("ERR forward failed: ", err)
}

/// `TOPOLOGY HOP <token> <start> <history>`: extend the history with
/// this node's edge; hand it home if the successor is the start,
/// otherwise pass it on.
pub fn handle_topology_hop(node: &Node, token: &str, start_addr: &str, history: String) -> (r:
    Step)
    ensures
        r.reply@ == "OK\n"@,
        !r.close,
        node.next_port is None ==> r.actions@.len() == 0,
        node.next_port matches Some(next) ==> {
            let new_hist = spec_append_edge(history@, node.port@, next@);
            &&& r.actions@.len() == 1
            &&& (spec_port_str(next@) == spec_port_str(start_addr@) ==> (r.actions@[0] matches
                Action::Send { addr, line } && addr@ == start_addr@ && line@ == "TOPOLOGY DONE "@
                + token@ + seq![' '] + new_hist + seq!['\n']))
            &&& (spec_port_str(next@) != spec_port_str(start_addr@) ==> (r.actions@[0] matches
                Action::Send { addr, line } && addr@ == next@ && line@ == "TOPOLOGY HOP "@
                + token@ + seq![' '] + start_addr@ + seq![' '] + new_hist + seq!['\n']))
        },
{
    let mut actions: Vec<Action> = Vec::new();
    match node.get_next() {
        None => {},
        Some(next) => {
            let new_hist = crate::node::append_edge(history, node.port.as_str(), next.as_str());
            let same = crate::strutil::str_eq(
                crate::strutil::port_str(next.as_str()),
                crate::strutil::port_str(start_addr),
            );
            if same {
                let line = join_line3("TOPOLOGY DONE ", token, new_hist.as_str());
                actions.push(Action::Send { addr: start_addr.to_owned(), line });
            } else {
                let line = join_line4("TOPOLOGY HOP ", token, start_addr, new_hist.as_str());
                actions.push(Action::Send { addr: next, line });
            }
        },
    }
    Step { reply: "OK\n".to_owned(), actions, close: false }
}

// ---------- broadcasts ----------

/// The addresses a broadcast reaches: `host:key` for every key, own
/// address skipped.
pub open spec fn bcast_targets(keys: Seq<Seq<char>>, host: Seq<char>, selfaddr: Seq<char>)
    -> Seq<Seq<char>>
    decreases keys.len(),
{
    if keys.len() == 0 {
        Seq::empty()
    } else {
        let addr = host + seq![':'] + keys[0];
        (if addr == selfaddr {
            Seq::empty()
        } else {
            seq![addr]
        }) + bcast_targets(keys.drop_first(), host, selfaddr)
    }
}

proof fn lemma_bcast_snoc(keys: Seq<Seq<char>>, host: Seq<char>, selfaddr: Seq<char>, k: Seq<char>)
    ensures
        bcast_targets(keys.push(k), host, selfaddr) == bcast_targets(keys, host, selfaddr) + (
        if host + seq![':'] + k == selfaddr {
            Seq::<Seq<char>>::empty()
        } else {
            seq![host + seq![':'] + k]
        }),
    decreases keys.len(),
{
    let kp = keys.push(k);
    if keys.len() == 0 {
        assert(kp.drop_first() =~= Seq::<Seq<char>>::empty());
        assert(kp[0] == k);
        assert(bcast_targets(Seq::<Seq<char>>::empty(), host, selfaddr) =~= Seq::<
            Seq<char>,
        >::empty());
        if host + seq![':'] + k == selfaddr {
            assert(bcast_targets(kp, host, selfaddr) =~= bcast_targets(keys, host, selfaddr));
        } else {
            assert(bcast_targets(kp, host, selfaddr) =~= bcast_targets(keys, host, selfaddr)
                + seq![host + seq![':'] + k]);
        }
    } else {
        assert(kp[0] == keys[0]);
        assert(kp.drop_first() =~= keys.drop_first().push(k));
        lemma_bcast_snoc(keys.drop_first(), host, selfaddr, k);
        let head: Seq<Seq<char>> = if host + seq![':'] + keys[0] == selfaddr {
            Seq::empty()
        } else {
            seq![host + seq![':'] + keys[0]]
        };
        let tailk: Seq<Seq<char>> = if host + seq![':'] + k == selfaddr {
            Seq::empty()
        } else {
            seq![host + seq![':'] + k]
        };
        assert(head + (bcast_targets(keys.drop_first(), host, selfaddr) + tailk) =~= (head
            + bcast_targets(keys.drop_first(), host, selfaddr)) + tailk);
    }
}

/// Whether every action is a `Send` of `line` to the broadcast
/// targets, in order.
pub open spec fn is_broadcast(
    actions: Seq<Action>,
    targets: Seq<Seq<char>>,
    line: Seq<char>,
) -> bool {
    &&& actions.len() == targets.len()
    &&& forall|j: int|
        0 <= j < actions.len() ==> (#[trigger] actions[j] matches Action::Send {
            addr,
            line: l,
        } && addr@ == targets[j] && l@ == line)
}

/// One `Send` of `line` to every port of the map, own address
/// skipped; the host is the one this node listens on.
fn broadcast_sends(m: &KvList<NodeStatus>, selfaddr: &str, line: &str) -> (r: Vec<Action>)
    requires
        m.wf(),
    ensures
        is_broadcast(
            r@,
            bcast_targets(m.key_seq(), spec_host_str(selfaddr@), selfaddr@),
            line@,
        ),
{
    let host = crate::strutil::host_str(selfaddr);
    let n = m.len();
    let mut out: Vec<Action> = Vec::new();
    let mut i: usize = 0;
    while i < n
        invariant
            m.wf(),
            i <= n,
            n == m.spec_len(),
            host@ == spec_host_str(selfaddr@),
            is_broadcast(
                out@,
                bcast_targets(m.key_seq().subrange(0, i as int), host@, selfaddr@),
                line@,
            ),
        decreases n - i,
    {
        let key = m.key_at(i);
        let ghost kview = m.key_seq()[i as int];
        let addr = crate::strutil::join_addr(host, key.as_str());
        let ghost prevt = bcast_targets(m.key_seq().subrange(0, i as int), host@, selfaddr@);
        let ghost newt = bcast_targets(m.key_seq().subrange(0, i + 1 as int), host@, selfaddr@);
        proof {
            lemma_bcast_snoc(m.key_seq().subrange(0, i as int), host@, selfaddr@, kview);
            assert(m.key_seq().subrange(0, i as int).push(kview) =~= m.key_seq().subrange(
                0,
                i + 1 as int,
            ));
        }
        if !crate::strutil::str_eq(addr.as_str(), selfaddr) {
            proof {
                assert(newt =~= prevt.push(addr@));
            }
            out.push(Action::Send { addr, line: line.to_owned() });
            proof {
                assert forall|j: int| 0 <= j < out@.len() implies (#[trigger] out@[j] matches
                    Action::Send { addr: a2, line: l2 } && a2@ == newt[j] && l2@ == line@) by {
                    if j < out@.len() - 1 {
                        assert(newt[j] == prevt[j]);
                    }
                }
            }
        } else {
            proof {
                assert(newt =~= prevt);
            }
        }
        i = i + 1;
    }
    proof {
        assert(m.key_seq().subrange(0, n as int) =~= m.key_seq());
    }
    out
}

// ---------- TOPOLOGY, completed ----------

/// `TOPOLOGY DONE <token> <history>`: wake the waiter if the token is
/// ours, store the completed map, and broadcast its canonical form.
pub fn handle_topology_done(node: &mut Node, token: &str, history: &str) -> (r: Step)
    requires
        old(node).wf(),
    ensures
        final (node).wf(),
        r.reply@ == "OK\n"@,
        !r.close,
        *final (node) == (Node {
            pending_walks: final (node).pending_walks,
            topology_map: final (node).topology_map,
            ..*old(node)
        }),
        // the stored topology is the parse of the history
        forall|k: Seq<char>|
            final (node).topology_map.has_key(k) == crate::kv::list_has_key(
                crate::topology::spec_edge_list(history@),
                k,
            ),
        forall|k: Seq<char>|
            crate::kv::list_has_key(crate::topology::spec_edge_list(history@), k) ==> final (
            node).topology_map.spec_get(k)@ == crate::kv::list_last_val(
                crate::topology::spec_edge_list(history@),
                k,
            ),
        // the waiter is woken exactly when the token was pending here
        ({
            let known = token_known(old(node).pending_walks@, token@);
            let hist2 = crate::topology::spec_history_str(final (node).topology_map);
            let off: int = if known {
                1
            } else {
                0
            };
            &&& (known ==> r.actions@.len() >= 1 && (r.actions@[0] matches Action::CompleteWalk {
                token: t,
                history: h,
            } && t@ == token@ && h@ == history@))
            &&& (hist2.len() == 0 ==> r.actions@.len() == off)
            &&& (hist2.len() > 0 ==> is_broadcast(
                r.actions@.skip(off),
                bcast_targets(
                    old(node).network_nodes.key_seq(),
                    spec_host_str(old(node).port@),
                    old(node).port@,
                ),
                "TOPOLOGY SET "@ + hist2 + seq!['\n'],
            ))
        }),
{
    let known = node.finish_walk(token);
    node.set_topology_from_history(history);
    let hist2 = node.get_topology_history();
    let mut actions: Vec<Action> = Vec::new();
    if known {
        actions.push(
            Action::CompleteWalk { token: token.to_owned(), history: history.to_owned() },
        );
    }
    if hist2.unicode_len() > 0 {
        let line = join_line2("TOPOLOGY SET ", hist2.as_str());
        let mut sends = broadcast_sends(&node.network_nodes, node.port.as_str(), line.as_str());
        let ghost pre = actions@;
        let ghost sv = sends@;
        let n = sends.len();
        let mut j: usize = 0;
        while j < n
            invariant
                j <= n,
                n == sv.len(),
                sends@ == sv.skip(j as int),
                actions@ == pre + sv.subrange(0, j as int),
            decreases n - j,
        {
            let a = sends.remove(0);
            proof {
                assert(sv.skip(j as int)[0] == sv[j as int]);
                assert(sv.skip(j as int).subrange(1, sv.skip(j as int).len() as int) =~= sv.skip(
                    j + 1 as int,
                ));
                assert(pre + sv.subrange(0, j as int).push(sv[j as int]) =~= (pre + sv.subrange(
                    0,
                    j as int,
                )).push(sv[j as int]));
                assert(sv.subrange(0, j as int).push(sv[j as int]) =~= sv.subrange(0, j + 1 as int));
            }
            actions.push(a);
            j = j + 1;
        }
        proof {
            assert(sv.subrange(0, n as int) =~= sv);
            assert((pre + sv).skip(pre.len() as int) =~= sv);
        }
    }
    Step { reply: "OK\n".to_owned(), actions, close: false }
}

/// `TOPOLOGY SET <history>`: store the broadcast map.
pub fn handle_topology_set(node: &mut Node, history: &str) -> (r: Step)
    requires
        old(node).wf(),
    ensures
        final (node).wf(),
        r.reply@ == "OK\n"@,
        r.actions@.len() == 0,
        !r.close,
        *final (node) == (Node { topology_map: final (node).topology_map, ..*old(node) }),
        forall|k: Seq<char>|
            final (node).topology_map.has_key(k) == crate::kv::list_has_key(
                crate::topology::spec_edge_list(history@),
                k,
            ),
        forall|k: Seq<char>|
            crate::kv::list_has_key(crate::topology::spec_edge_list(history@), k) ==> final (
            node).topology_map.spec_get(k)@ == crate::kv::list_last_val(
                crate::topology::spec_edge_list(history@),
                k,
            ),
{
    node.set_topology_from_history(history);
    Step { reply: "OK\n".to_owned(), actions: Vec::new(), close: false }
}

// ---------- NETMAP ----------

/// `NETMAP DISCOVER`: mint a token and start the accumulator at the
/// successor with this node marked alive; reply at once.
pub fn handle_netmap_discover(node: &mut Node) -> (r: Step)
    ensures
        !r.close,
        *final (node) == (Node { walk_counter: final (node).walk_counter, ..*old(node) }),
        ({
            let token = old(node).port@ + seq!['-'] + dec_str(old(node).walk_counter as nat);
            match old(node).next_port {
                None => {
                    &&& r.reply@ == "ERR no next hop set\n"@
                    &&& r.actions@.len() == 0
                },
                Some(next) => {
                    &&& r.reply@ == "OK\n"@
                    &&& r.actions@.len() == 1
                    &&& (r.actions@[0] matches Action::Send { addr, line } && addr@ == next@
                        && line@ == "NETMAP HOP "@ + token + seq![' '] + old(node).port@
                        + seq![' '] + spec_port_str(old(node).port@) + "=Alive"@ + seq!['\n'])
                },
            }
        }),
{
    let token = node.make_invest_token();
    match node.get_next() {
        None => Step {
            reply: "ERR no next hop set\n".to_owned(),
            actions: Vec::new(),
            close: false,
        },
        Some(next) => {
            let mut entries = String::new();
            entries.append(crate::strutil::port_str(node.port.as_str()));
            entries.append("=Alive");
            let line = join_line4(
                "NETMAP HOP ",
                token.as_str(),
                node.port.as_str(),
                entries.as_str(),
            );
            proof {
                assert(entries@ =~= spec_port_str(old(node).port@) + "=Alive"@);
            }
            let mut actions: Vec<Action> = Vec::new();
            actions.push(Action::Send { addr: next, line });
            Step { reply: "OK\n".to_owned(), actions, close: false }
        },
    }
}

/// `NETMAP HOP <token> <start> <entries>`: add this node to the
/// accumulator; hand it home if the successor is the start, else pass
/// it on.
pub fn handle_netmap_hop(node: &Node, token: &str, start_addr: &str, entries: &str) -> (r: Step)
    requires
        node.wf(),
    ensures
        r.reply@ == "OK\n"@,
        !r.close,
        node.next_port is None ==> r.actions@.len() == 0,
        node.next_port matches Some(next) ==> exists|m: KvList<NodeStatus>|
            {
                &&& m.wf()
                &&& #[trigger] m.has_key(node.self_port())
                &&& m.spec_get(node.self_port()) == NodeStatus::Alive
                &&& forall|k: Seq<char>|
                    k != node.self_port() ==> (m.has_key(k) == crate::kv::list_has_key(
                        crate::netmap::spec_entry_list(entries@),
                        k,
                    ) && (m.has_key(k) ==> m.spec_get(k) == crate::kv::list_last_val(
                        crate::netmap::spec_entry_list(entries@),
                        k,
                    )))
                &&& r.actions@.len() == 1
                &&& (spec_port_str(next@) == spec_port_str(start_addr@) ==> (r.actions@[0] matches
                    Action::Send { addr, line } && addr@ == start_addr@ && line@
                    == "NETMAP DONE "@ + token@ + seq![' '] + spec_entries_str(m) + seq!['\n']))
                &&& (spec_port_str(next@) != spec_port_str(start_addr@) ==> (r.actions@[0] matches
                    Action::Send { addr, line } && addr@ == next@ && line@ == "NETMAP HOP "@
                    + token@ + seq![' '] + start_addr@ + seq![' '] + spec_entries_str(m)
                    + seq!['\n']))
            },
{
    let mut actions: Vec<Action> = Vec::new();
    match node.get_next() {
        None => {},
        Some(next) => {
            let new_entries = node.entries_with_self(entries);
            let same = crate::strutil::str_eq(
                crate::strutil::port_str(next.as_str()),
                crate::strutil::port_str(start_addr),
            );
            if same {
                let line = join_line3("NETMAP DONE ", token, new_entries.as_str());
                actions.push(Action::Send { addr: start_addr.to_owned(), line });
            } else {
                let line = join_line4("NETMAP HOP ", token, start_addr, new_entries.as_str());
                actions.push(Action::Send { addr: next, line });
            }
        },
    }
    Step { reply: "OK\n".to_owned(), actions, close: false }
}

/// `NETMAP DONE <token> <entries>`: the discovery is home; store the
/// map and broadcast it to every port it names.
pub fn handle_netmap_done(node: &mut Node, entries: &str) -> (r: Step)
    requires
        old(node).wf(),
    ensures
        final (node).wf(),
        r.reply@ == "OK\n"@,
        !r.close,
        *final (node) == (Node { network_nodes: final (node).network_nodes, ..*old(node) }),
        forall|k: Seq<char>|
            final (node).network_nodes.has_key(k) == crate::kv::list_has_key(
                crate::netmap::spec_entry_list(entries@),
                k,
            ),
        forall|k: Seq<char>|
            crate::kv::list_has_key(crate::netmap::spec_entry_list(entries@), k) ==> final (
            node).network_nodes.spec_get(k) == crate::kv::list_last_val(
                crate::netmap::spec_entry_list(entries@),
                k,
            ),
        is_broadcast(
            r.actions@,
            bcast_targets(
                final (node).network_nodes.key_seq(),
                spec_host_str(old(node).port@),
                old(node).port@,
            ),
            "NETMAP SET "@ + entries@ + seq!['\n'],
        ),
{
    node.set_network_nodes_from_entries(entries);
    let line = join_line2("NETMAP SET ", entries);
    let actions = broadcast_sends(&node.network_nodes, node.port.as_str(), line.as_str());
    Step { reply: "OK\n".to_owned(), actions, close: false }
}

/// `NETMAP SET <entries>`: adopt the broadcast map.
pub fn handle_netmap_set(node: &mut Node, entries: &str) -> (r: Step)
    requires
        old(node).wf(),
    ensures
        final (node).wf(),
        r.reply@ == "OK\n"@,
        r.actions@.len() == 0,
        !r.close,
        *final (node) == (Node { network_nodes: final (node).network_nodes, ..*old(node) }),
        forall|k: Seq<char>|
            final (node).network_nodes.has_key(k) == crate::kv::list_has_key(
                crate::netmap::spec_entry_list(entries@),
                k,
            ),
        forall|k: Seq<char>|
            crate::kv::list_has_key(crate::netmap::spec_entry_list(entries@), k) ==> final (
            node).network_nodes.spec_get(k) == crate::kv::list_last_val(
                crate::netmap::spec_entry_list(entries@),
                k,
            ),
{
    node.set_network_nodes_from_entries(entries);
    Step { reply: "OK\n".to_owned(), actions: Vec::new(), close: false }
}

/// The lines `NETMAP GET` prints for the first `i` entries.
pub open spec fn netmap_lines_prefix(ks: Seq<Seq<char>>, vs: Seq<NodeStatus>, i: int)
    -> Seq<char>
    decreases i,
{
    if i <= 0 {
        Seq::empty()
    } else {
        netmap_lines_prefix(ks, vs, i - 1) + ks[i - 1] + seq!['='] + crate::netmap::spec_status_str(
            vs[i - 1],
        ) + seq!['\n']
    }
}

/// The full `NETMAP GET` reply: one `port=Status` line per known
/// node in sorted order, `(empty)` for none, then `OK`.
pub open spec fn spec_netmap_get_reply(m: KvList<NodeStatus>) -> Seq<char> {
    if m.spec_len() == 0 {
        "(empty)\nOK\n"@
    } else {
        netmap_lines_prefix(m.key_seq(), m.val_seq(), m.spec_len() as int) + "OK\n"@
    }
}

/// `NETMAP GET`.
pub fn handle_netmap_get(node: &Node) -> (r: Step)
    requires
        node.wf(),
    ensures
        r.reply@ == spec_netmap_get_reply(node.network_nodes),
        r.actions@.len() == 0,
        !r.close,
{
    let m = &node.network_nodes;
    let n = m.len();
    if n == 0 {
        return Step { reply: "(empty)\nOK\n".to_owned(), actions: Vec::new(), close: false };
    }
    let mut out = String::new();
    let mut i: usize = 0;
    while i < n
        invariant
            m.wf(),
            i <= n,
            n == m.spec_len(),
            out@ == netmap_lines_prefix(m.key_seq(), m.val_seq(), i as int),
        decreases n - i,
    {
        out.append(m.key_at(i).as_str());
        out.push('=');
        out.append(crate::netmap::status_str(*m.val_at(i)));
        out.push('\n');
        proof {
            assert(out@ =~= netmap_lines_prefix(m.key_seq(), m.val_seq(), i + 1 as int));
        }
        i = i + 1;
    }
    out.append("OK\n");
    Step { reply: out, actions: Vec::new(), close: false }
}

// ---------- FILE bookkeeping ----------

/// `FILE TAGS-SET <entries>`: adopt the broadcast tags.
pub fn handle_file_tags_set(node: &mut Node, entries: &str) -> (r: Step)
    requires
        old(node).wf(),
    ensures
        final (node).wf(),
        r.reply@ == "OK\n"@,
        r.actions@.len() == 0,
        !r.close,
        *final (node) == (Node { file_tags: final (node).file_tags, ..*old(node) }),
        forall|k: Seq<char>|
            final (node).file_tags.has_key(k) == crate::kv::list_has_key(
                crate::tags::spec_tag_list(entries@),
                k,
            ),
        forall|k: Seq<char>|
            crate::kv::list_has_key(crate::tags::spec_tag_list(entries@), k) ==> final (
            node).file_tags.spec_get(k) == crate::kv::list_last_val(
                crate::tags::spec_tag_list(entries@),
                k,
            ),
{
    node.set_file_tags_from_entries(entries);
    Step { reply: "OK\n".to_owned(), actions: Vec::new(), close: false }
}

/// One `FILE LIST` row per tag, names CSV-escaped.
pub open spec fn file_rows_prefix(ks: Seq<Seq<char>>, vs: Seq<crate::tags::FileTag>, i: int)
    -> Seq<char>
    decreases i,
{
    if i <= 0 {
        Seq::empty()
    } else {
        file_rows_prefix(ks, vs, i - 1) + crate::files::spec_csv_escape(ks[i - 1]) + seq![',']
            + dec_str(vs[i - 1].start as nat) + seq![','] + dec_str(vs[i - 1].size as nat)
            + seq!['\n']
    }
}

/// The full `FILE LIST` reply: a CSV header and one row per file in
/// name order.
pub open spec fn spec_file_list_reply(m: KvList<crate::tags::FileTag>) -> Seq<char> {
    "name,start,size\n"@ + file_rows_prefix(m.key_seq(), m.val_seq(), m.spec_len() as int)
}

/// `FILE LIST`: pure CSV, then the connection closes, because the
/// client reads until the end of the stream.
pub fn handle_file_list_csv(node: &Node) -> (r: Step)
    requires
        node.wf(),
    ensures
        r.reply@ == spec_file_list_reply(node.file_tags),
        r.actions@.len() == 0,
        r.close,
{
    let m = &node.file_tags;
    let n = m.len();
    let mut out = String::new();
    out.append("name,start,size\n");
    let mut i: usize = 0;
    while i < n
        invariant
            m.wf(),
            i <= n,
            n == m.spec_len(),
            out@ == "name,start,size\n"@ + file_rows_prefix(m.key_seq(), m.val_seq(), i as int),
        decreases n - i,
    {
        let tag = *m.val_at(i);
        out.append(crate::files::csv_escape(m.key_at(i).as_str()).as_str());
        out.push(',');
        out.append(u64_to_string(tag.start as u64).as_str());
        out.push(',');
        out.append(u64_to_string(tag.size).as_str());
        out.push('\n');
        proof {
            assert(out@ =~= "name,start,size\n"@ + file_rows_prefix(
                m.key_seq(),
                m.val_seq(),
                i + 1 as int,
            ));
        }
        i = i + 1;
    }
    Step { reply: out, actions: Vec::new(), close: true }
}

/// `FILE NOTIFY-CHUNK-SAVED <name>`: acknowledge, and have the shell
/// fetch the chunk from the successor into the backup store.
pub fn handle_file_notify_chunk_saved(node: &Node, name: &str) -> (r: Step)
    ensures
        !r.close,
        match node.next_port {
            Some(next) => {
                &&& r.reply@ == "OK\n"@
                &&& r.actions@.len() == 1
                &&& (r.actions@[0] matches Action::FetchBackup { from, name: n2 } && from@
                    == next@ && n2@ == name@)
            },
            None => {
                &&& r.reply@ == "OK (but no next_port)\n"@
                &&& r.actions@.len() == 0
            },
        },
{
    match node.get_next() {
        Some(next) => {
            let mut actions: Vec<Action> = Vec::new();
            actions.push(Action::FetchBackup { from: next, name: name.to_owned() });
            Step { reply: "OK\n".to_owned(), actions, close: false }
        },
        None => Step {
            reply: "OK (but no next_port)\n".to_owned(),
            actions: Vec::new(),
            close: false,
        },
    }
}

// ---------- NODE HEAL ----------

/// `NODE HEAL`: start a heal walk at this node; the shell runs the
/// first check and waits for the walk to come home.
pub fn handle_node_heal(node: &mut Node) -> (r: Step)
    ensures
        !r.close,
        r.reply@.len() == 0,
        *final (node) == (Node {
            walk_counter: final (node).walk_counter,
            pending_heals: final (node).pending_heals,
            ..*old(node)
        }),
        ({
            let token = old(node).port@ + seq!['-'] + dec_str(old(node).walk_counter as nat);
            &&& token_known(final (node).pending_heals@, token)
            &&& r.actions@.len() == 2
            &&& (r.actions@[0] matches Action::HealCheck { token: t, start_addr } && t@ == token
                && start_addr@ == old(node).port@)
            &&& (r.actions@[1] matches Action::AwaitHeal { token: t } && t@ == token)
        }),
{
    let token = node.make_walk_token();
    node.register_heal_walk(token.as_str());
    let mut actions: Vec<Action> = Vec::new();
    actions.push(
        Action::HealCheck { token: token.clone(), start_addr: node.port.clone() },
    );
    actions.push(Action::AwaitHeal { token });
    proof {
        assert(final (node).pending_heals@.last()@ == old(node).port@ + seq!['-'] + dec_str(
            old(node).walk_counter as nat,
        ));
    }
    Step { reply: String::new(), actions, close: false }
}

/// `NODE HEAL-HOP <token> <start>`: acknowledge at once, then check
/// this node's own successor.
pub fn handle_node_heal_hop(token: &str, start_addr: &str) -> (r: Step)
    ensures
        r.reply@ == "OK\n"@,
        !r.close,
        r.actions@.len() == 1,
        r.actions@[0] matches Action::HealCheck { token: t, start_addr: s } && t@ == token@ && s@
            == start_addr@,
{
    let mut actions: Vec<Action> = Vec::new();
    actions.push(
        Action::HealCheck { token: token.to_owned(), start_addr: start_addr.to_owned() },
    );
    Step { reply: "OK\n".to_owned(), actions, close: false }
}

/// `NODE HEAL-DONE <token>`: the walk is home; wake the waiter if the
/// token is ours.
pub fn handle_node_heal_done(node: &mut Node, token: &str) -> (r: Step)
    ensures
        r.reply@ == "OK\n"@,
        !r.close,
        *final (node) == (Node { pending_heals: final (node).pending_heals, ..*old(node) }),
        token_known(old(node).pending_heals@, token@) ==> r.actions@.len() == 1 && (r.actions@[0]
            matches Action::CompleteHeal { token: t } && t@ == token@),
        !token_known(old(node).pending_heals@, token@) ==> r.actions@.len() == 0 && final (
        node).pending_heals@ == old(node).pending_heals@,
{
    let known = node.finish_heal_walk(token);
    let mut actions: Vec<Action> = Vec::new();
    if known {
        actions.push(Action::CompleteHeal { token: token.to_owned() });
    }
    Step { reply: "OK\n".to_owned(), actions, close: false }
}

/// What one heal-walk step does, given this node's successor.
pub enum HealStep {
    /// No successor: the walk stops here.
    Stop,
    /// The successor is the start: tell the start the walk is done.
    Finish { addr: String, line: String },
    /// Check the successor's health; then forward with
    /// `heal_forward_msg`, healing first if the check failed.
    Check { next: String },
}

/// One step of the heal walk: done when the ring closes, otherwise
/// check the neighbour.
pub fn heal_step(node: &Node, token: &str, start_addr: &str) -> (r: HealStep)
    ensures
        match r {
            HealStep::Stop => node.next_port is None,
            HealStep::Finish { addr, line } => node.next_port matches Some(n) && spec_port_str(
                n@,
            ) == spec_port_str(start_addr@) && addr@ == start_addr@ && line@ == "NODE HEAL-DONE "@
                + token@ + seq!['\n'],
            HealStep::Check { next } => node.next_port matches Some(n) && next@ == n@
                && spec_port_str(n@) != spec_port_str(start_addr@),
        },
{
    match node.get_next() {
        None => HealStep::Stop,
        Some(next) => {
            let same = crate::strutil::str_eq(
                crate::strutil::port_str(next.as_str()),
                crate::strutil::port_str(start_addr),
            );
            if same {
                let line = join_line2("NODE HEAL-DONE ", token);
                HealStep::Finish { addr: start_addr.to_owned(), line }
            } else {
                HealStep::Check { next }
            }
        },
    }
}

/// The hop that passes the heal walk to the (possibly respawned)
/// successor.
pub fn heal_forward_msg(next: &str, token: &str, start_addr: &str) -> (r: OutMsg)
    ensures
        r.addr@ == next@,
        r.line@ == "NODE HEAL-HOP "@ + token@ + seq![' '] + start_addr@ + seq!['\n'],
{
    OutMsg { addr: next.to_owned(), line: join_line3("NODE HEAL-HOP ", token, start_addr) }
}

/// The reply written when a heal walk completes in time.
pub fn heal_ok_reply() -> (r: &'static str)
    ensures
        r@ == "OK network healed\n"@,
{
    "OK network healed\n"
}

/// The reply written when the heal waiter is dropped.
pub fn heal_canceled_reply() -> (r: &'static str)
    ensures
        r@ == "ERR heal walk canceled\n"@,
{
    "ERR heal walk canceled\n"
}

/// The reply written when a heal walk exceeds its deadline.
pub fn heal_timeout_reply() -> (r: &'static str)
    ensures
        r@ == "ERR heal walk timed out\n"@,
{
    "ERR heal walk timed out\n"
}

/// The reply written when a topology walk waiter is dropped.
pub fn walk_canceled_reply() -> (r: &'static str)
    ensures
        r@ == "ERR walk canceled\n"@,
{
    "ERR walk canceled\n"
}

/// The reply written when a topology walk exceeds its deadline.
pub fn walk_timeout_reply() -> (r: &'static str)
    ensures
        r@ == "ERR walk timeout\n"@,
{
    "ERR walk timeout\n"
}

/// The walk history printed line by line: one line per non-empty
/// `;`-separated segment.
pub open spec fn walk_lines(parts: Seq<Seq<char>>) -> Seq<char>
    decreases parts.len(),
{
    if parts.len() == 0 {
        Seq::empty()
    } else {
        (if parts[0].len() == 0 {
            Seq::empty()
        } else {
            parts[0] + seq!['\n']
        }) + walk_lines(parts.drop_first())
    }
}

/// The reply a completed topology walk prints: each edge on its own
/// line, then `OK`.
pub open spec fn spec_walk_reply(history: Seq<char>) -> Seq<char> {
    walk_lines(spec_split_all(history, ';')) + "OK\n"@
}

/// The edges from `i` on, one per line, in hop order.
pub open spec fn ring_reply_lines(ps: Seq<(Seq<char>, Seq<char>)>, i: int) -> Seq<char>
    decreases ps.len() - i,
{
    if i < 0 || i >= ps.len() {
        Seq::empty()
    } else {
        crate::topology::edge_str(ps[i].0, ps[i].1) + seq!['\n'] + ring_reply_lines(ps, i + 1)
    }
}

/// What the client of a completed walk reads, for any ring: exactly
/// one `from->to` line per hop, in hop order, then `OK`.
pub proof fn lemma_walk_reply_lines(ps: Seq<(Seq<char>, Seq<char>)>)
    requires
        ps.len() > 0,
        forall|a: int| 0 <= a < ps.len() ==> crate::topology::clean_edge(#[trigger] ps[a]),
    ensures
        spec_walk_reply(crate::topology::edges_joined(ps, 0)) == ring_reply_lines(ps, 0)
            + "OK\n"@,
{
    lemma_walk_lines_joined(ps, 0);
}

proof fn lemma_walk_lines_joined(ps: Seq<(Seq<char>, Seq<char>)>, i: int)
    requires
        forall|a: int| 0 <= a < ps.len() ==> crate::topology::clean_edge(#[trigger] ps[a]),
        0 <= i < ps.len(),
    ensures
        walk_lines(spec_split_all(crate::topology::edges_joined(ps, i), ';'))
            == ring_reply_lines(ps, i),
    decreases ps.len() - i,
{
    reveal_strlit("->");
    let n = ps.len() as int;
    let e = crate::topology::edge_str(ps[i].0, ps[i].1);
    assert(forall|j: int| 0 <= j < ps[i].0.len() ==> e[j] == ps[i].0[j]);
    assert(e[ps[i].0.len() as int] == '-' && e[ps[i].0.len() as int + 1] == '>');
    assert(forall|j: int| 0 <= j < ps[i].1.len() ==> e[ps[i].0.len() + 2 + j] == ps[i].1[j]);
    assert forall|j: int| 0 <= j < e.len() implies (#[trigger] e[j]) != ';' by {
        if j >= ps[i].0.len() + 2 {
            assert(e[j] == ps[i].1[j - ps[i].0.len() - 2]);
        }
    }
    if i == n - 1 {
        let s = crate::topology::edges_joined(ps, i);
        assert(s == e);
        crate::strutil::lemma_find_props(s, ';');
        if crate::strutil::spec_find(s, ';') >= 0 {
            assert(s[crate::strutil::spec_find(s, ';')] == ';');
        }
        assert(spec_split_all(s, ';') =~= seq![s]);
        assert(seq![s].drop_first() =~= Seq::<Seq<char>>::empty());
        assert(walk_lines(Seq::<Seq<char>>::empty()) =~= Seq::<char>::empty());
        assert(walk_lines(seq![s]) =~= e + seq!['\n']);
        assert(ring_reply_lines(ps, i + 1) =~= Seq::<char>::empty());
        assert(ring_reply_lines(ps, i) =~= e + seq!['\n']);
    } else {
        let s = crate::topology::edges_joined(ps, i);
        let rest = crate::topology::edges_joined(ps, i + 1);
        assert(s == e + seq![';'] + rest);
        assert(forall|j: int| 0 <= j < e.len() ==> s[j] == e[j] && s[j] != ';');
        assert(s[e.len() as int] == ';');
        crate::strutil::lemma_find_is_first(s, ';', e.len() as int);
        assert(crate::strutil::spec_split_head(s, ';') =~= e);
        assert(crate::strutil::spec_split_rest(s, ';') =~= rest);
        lemma_walk_lines_joined(ps, i + 1);
        assert(spec_split_all(s, ';') == seq![e] + spec_split_all(rest, ';'));
        assert(walk_lines(seq![e] + spec_split_all(rest, ';')) =~= (e + seq!['\n'])
            + walk_lines(spec_split_all(rest, ';'))) by {
            let parts = seq![e] + spec_split_all(rest, ';');
            assert(parts[0] == e);
            assert(parts.drop_first() =~= spec_split_all(rest, ';'));
        }
        assert((e + seq!['\n']) + ring_reply_lines(ps, i + 1) =~= ring_reply_lines(ps, i));
    }
}

/// Print a returned walk history for the client.
pub fn walk_reply(history: &str) -> (r: String)
    ensures
        r@ == spec_walk_reply(history@),
{
    let ghost full = walk_lines(spec_split_all(history@, ';'));
    let mut out = String::new();
    let mut rest: &str = history;
    loop
        invariant_except_break
            full == out@ + walk_lines(spec_split_all(rest@, ';')),
        ensures
            out@ == full,
        decreases rest@.len(),
    {
        let (part, tail) = split_first(rest, ';');
        let ghost parts = spec_split_all(rest@, ';');
        proof {
            crate::strutil::lemma_find_props(rest@, ';');
            if crate::strutil::spec_find(rest@, ';') < 0 {
                assert(parts =~= seq![rest@]);
            }
            assert(parts.drop_first() =~= if crate::strutil::spec_find(rest@, ';') < 0 {
                Seq::<Seq<char>>::empty()
            } else {
                spec_split_all(tail@, ';')
            });
            if crate::strutil::spec_find(rest@, ';') < 0 {
                assert(walk_lines(parts.drop_first()) =~= Seq::<char>::empty());
            }
        }
        if part.unicode_len() > 0 {
            out.append(part);
            out.push('\n');
        }
        proof {
            if crate::strutil::spec_find(rest@, ';') < 0 {
                assert(full =~= out@);
            } else {
                assert(full =~= out@ + walk_lines(spec_split_all(tail@, ';')));
            }
        }
        if crate::strutil::find_char(rest, ';').is_none() {
            break;
        }
        rest = tail;
    }
    out.append("OK\n");
    out
}

// ---------- FILE PUSH ----------

/// Position just after the last `/` in `s`, or 0 when `s` has none.
pub open spec fn after_last_slash(s: Seq<char>) -> int
    decreases s.len(),
{
    if s.len() == 0 {
        0
    } else if s.last() == '/' {
        s.len() as int
    } else {
        after_last_slash(s.drop_last())
    }
}

/// The last path segment of a pushed name; pushes keep only it.
pub open spec fn spec_base_name(s: Seq<char>) -> Seq<char> {
    s.subrange(after_last_slash(s), s.len() as int)
}

/// A push only proceeds when the last segment is a real name.
pub open spec fn valid_base_name(s: Seq<char>) -> bool {
    spec_base_name(s).len() > 0 && spec_base_name(s) != "."@ && spec_base_name(s) != ".."@
}

proof fn lemma_after_last_slash_bounds(s: Seq<char>)
    ensures
        0 <= after_last_slash(s) <= s.len(),
    decreases s.len(),
{
    if s.len() > 0 && s.last() != '/' {
        lemma_after_last_slash_bounds(s.drop_last());
    }
}

/// The last path segment of a name, when it is a usable file name.
pub fn base_name(name: &str) -> (r: Option<&str>)
    ensures
        match r {
            Some(b) => valid_base_name(name@) && b@ == spec_base_name(name@),
            None => !valid_base_name(name@),
        },
{
    let n = name.unicode_len();
    let mut cut: usize = 0;
    let mut i: usize = 0;
    while i < n
        invariant
            i <= n,
            n == name@.len(),
            cut == after_last_slash(name@.subrange(0, i as int)),
            cut <= i,
        decreases n - i,
    {
        let c = name.get_char(i);
        proof {
            assert(name@.subrange(0, i + 1 as int).drop_last() =~= name@.subrange(0, i as int));
            assert(name@.subrange(0, i + 1 as int).last() == name@[i as int]);
            lemma_after_last_slash_bounds(name@.subrange(0, i as int));
        }
        if c == '/' {
            cut = i + 1;
        }
        i = i + 1;
    }
    proof {
        assert(name@.subrange(0, n as int) =~= name@);
    }
    let base = name.substring_char(cut, n);
    if base.unicode_len() == 0 {
        return None;
    }
    if crate::strutil::str_eq(base, ".") || crate::strutil::str_eq(base, "..") {
        return None;
    }
    Some(base)
}

/// How the origin carries out `FILE PUSH <size> <name>`.
pub enum PushPlan {
    /// The name has no usable last segment: the connection is
    /// dropped without a reply.
    Reject,
    /// This node is alone: read all `size` bytes, store them under
    /// the plain name, notify the predecessor, and reply.
    Local { store_name: String, reply: String },
    /// More than one node but no successor: reply with the error and
    /// drain the body to keep the connection in step.
    NoNext { reply: String },
    /// Read `first_len` bytes as chunk one, store them under
    /// `chunk_name`, open `next`, write `header`, stream the
    /// remaining bytes through, then wait for `token` to complete in
    /// the pending-files table and reply only then: the client's OK
    /// means the push was confirmed end to end.
    Stream {
        first_len: u64,
        chunk_name: String,
        next: String,
        header: String,
        remaining: u64,
        token: String,
        reply: String,
    },
}

/// Decide a push: record the tag, and either store locally or split
/// off chunk one and stream the rest to the successor.
pub fn plan_push(node: &mut Node, size: u64, name: &str) -> (r: PushPlan)
    requires
        old(node).wf(),
    ensures
        final (node).wf(),
        ({
            let base = spec_base_name(name@);
            let known: nat = if old(node).network_nodes.spec_len() == 0 {
                1
            } else {
                old(node).network_nodes.spec_len()
            };
            let parts: nat = if known > u32::MAX {
                u32::MAX as nat
            } else {
                known
            };
            let start: u16 = if crate::strutil::spec_parse_u16(spec_port_str(old(node).port@))
                is Some {
                crate::strutil::spec_parse_u16(spec_port_str(old(node).port@))->Some_0
            } else {
                0
            };
            match r {
                PushPlan::Reject => {
                    &&& !valid_base_name(name@)
                    &&& *final (node) == *old(node)
                },
                PushPlan::Local { store_name, reply } => {
                    &&& valid_base_name(name@)
                    &&& parts == 1
                    &&& store_name@ == base
                    &&& reply@ == "FILE "@ + dec_str(size as nat) + " '"@ + base
                        + "' stored locally\nOK"@
                    &&& final (node).file_tags.has_key(base)
                    &&& final (node).file_tags.spec_get(base) == (crate::tags::FileTag {
                        start,
                        size,
                        parts: 1,
                    })
                    &&& *final (node) == (Node {
                        file_tags: final (node).file_tags,
                        ..*old(node)
                    })
                },
                PushPlan::NoNext { reply } => {
                    &&& valid_base_name(name@)
                    &&& parts > 1
                    &&& old(node).next_port is None
                    &&& reply@ == "ERR no next hop set\n"@
                    &&& *final (node) == (Node {
                        file_tags: final (node).file_tags,
                        ..*old(node)
                    })
                },
                PushPlan::Stream {
                    first_len,
                    chunk_name,
                    next,
                    header,
                    remaining,
                    token,
                    reply,
                } => {
                    &&& valid_base_name(name@)
                    &&& parts > 1
                    &&& old(node).next_port matches Some(n) && next@ == n@
                    &&& first_len == spec_chunk_len(0, size as nat, parts)
                    &&& remaining == size - first_len
                    &&& chunk_name@ == spec_chunk_file_name(base, 0, parts)
                    &&& header@ == "FILE RELAY-STREAM "@ + ("file-"@ + old(node).port@
                        + seq!['-'] + dec_str(old(node).file_counter as nat)) + seq![' ']
                        + old(node).port@
                        + seq![' '] + dec_str(size as nat) + seq![' '] + dec_str(parts)
                        + seq![' '] + seq!['1'] + seq![' '] + base + seq!['\n']
                    &&& reply@ == "FILE "@ + dec_str(size as nat) + " bytes split into "@
                        + dec_str(parts) + " chunks and distributed\nOK"@
                    &&& token@ == "file-"@ + old(node).port@ + seq!['-'] + dec_str(
                        old(node).file_counter as nat,
                    )
                    &&& token_known(final (node).pending_files@, token@)
                    &&& final (node).file_tags.has_key(base)
                    &&& final (node).file_tags.spec_get(base) == (crate::tags::FileTag {
                        start,
                        size,
                        parts: parts as u32,
                    })
                    &&& *final (node) == (Node {
                        file_tags: final (node).file_tags,
                        file_counter: final (node).file_counter,
                        pending_files: final (node).pending_files,
                        ..*old(node)
                    })
                },
            }
        }),
{
    let base = match base_name(name) {
        Some(b) => b,
        None => {
            return PushPlan::Reject;
        },
    };
    let parts_usize = node.network_size();
    let parts: u32 = if parts_usize > u32::MAX as usize {
        u32::MAX
    } else {
        parts_usize as u32
    };
    let start_port: u16 = match crate::strutil::parse_u16(
        crate::strutil::port_str(node.port.as_str()),
    ) {
        Some(p) => p,
        None => 0,
    };
    let base_owned = base.to_owned();
    node.set_file_tag(base, start_port, size, parts);
    if parts == 1 {
        let mut reply = String::new();
        reply.append("FILE ");
        reply.append(u64_to_string(size).as_str());
        reply.append(" '");
        reply.append(base_owned.as_str());
        reply.append("' stored locally\nOK");
        proof {
            assert(reply@ =~= "FILE "@ + dec_str(size as nat) + " '"@ + spec_base_name(
                name@,
            ) + "' stored locally\nOK"@);
        }
        return PushPlan::Local { store_name: base_owned, reply };
    }
    let next = match node.get_next() {
        Some(n) => n,
        None => {
            return PushPlan::NoNext { reply: "ERR no next hop set\n".to_owned() };
        },
    };
    let token = node.make_file_token();
    node.register_file(token.as_str());
    proof {
        assert(final (node).pending_files@.last()@ == "file-"@ + old(node).port@ + seq!['-']
            + dec_str(old(node).file_counter as nat));
        crate::chunks::lemma_sum_len_le_size(1, size as nat, parts as nat);
        assert(spec_sum_len(0, size as nat, parts as nat) == 0);
        assert(spec_sum_len(1, size as nat, parts as nat) == spec_chunk_len(
            0,
            size as nat,
            parts as nat,
        ));
    }
    let first_len = fair_chunk_len(0, size, parts);
    let chunk_name = chunk_file_name(base_owned.as_str(), 0, parts);
    let mut header = String::new();
    header.append("FILE RELAY-STREAM ");
    header.append(token.as_str());
    header.push(' ');
    header.append(node.port.as_str());
    header.push(' ');
    header.append(u64_to_string(size).as_str());
    header.push(' ');
    header.append(u64_to_string(parts as u64).as_str());
    header.push(' ');
    header.push('1');
    header.push(' ');
    header.append(base_owned.as_str());
    header.push('\n');
    let mut reply = String::new();
    reply.append("FILE ");
    reply.append(u64_to_string(size).as_str());
    reply.append(" bytes split into ");
    reply.append(u64_to_string(parts as u64).as_str());
    reply.append(" chunks and distributed\nOK");
    proof {
        assert(header@ =~= "FILE RELAY-STREAM "@ + ("file-"@ + old(node).port@ + seq!['-']
            + dec_str(old(node).file_counter as nat)) + seq![' '] + old(node).port@ + seq![' ']
            + dec_str(size as nat) + seq![' ']
            + dec_str(parts as nat) + seq![' '] + seq!['1'] + seq![' ']
            + spec_base_name(name@) + seq!['\n']);
        assert(reply@ =~= "FILE "@ + dec_str(size as nat) + " bytes split into "@ + dec_str(
            parts as nat,
        ) + " chunks and distributed\nOK"@);
    }
    PushPlan::Stream {
        first_len,
        chunk_name,
        next,
        header,
        remaining: size - first_len,
        token,
        reply,
    }
}

/// How a node carries out `FILE RELAY-STREAM`.
pub enum RelayPlan {
    /// The index is out of range; nothing is read.
    Bad { reply: String },
    /// Read `my_len` bytes and store them under `chunk_name`; then
    /// either stream the rest onward or, for the last chunk, report
    /// completion to the origin, whose pending-files table confirms
    /// the push end to end.
    Store {
        my_len: u64,
        chunk_name: String,
        forward: Option<OutMsg>,
        remaining: u64,
        completed: Option<Action>,
        reply: String,
    },
}

/// Decide one relay-stream hop: take this node's chunk, tag the
/// file, and work out what is left for the ring.
pub fn plan_relay_stream(
    node: &mut Node,
    token: &str,
    start_addr: &str,
    file_size: u64,
    parts: u32,
    index: u32,
    name: &str,
) -> (r: RelayPlan)
    requires
        old(node).wf(),
    ensures
        final (node).wf(),
        ({
            let start: u16 = if crate::strutil::spec_parse_u16(spec_port_str(start_addr@))
                is Some {
                crate::strutil::spec_parse_u16(spec_port_str(start_addr@))->Some_0
            } else {
                0
            };
            let at_start = spec_port_str(old(node).port@) == spec_port_str(start_addr@);
            match r {
                RelayPlan::Bad { reply } => {
                    &&& index >= parts
                    &&& reply@ == "ERR bad FILE RELAY-STREAM index\n"@
                    &&& *final (node) == *old(node)
                },
                RelayPlan::Store { my_len, chunk_name, forward, remaining, completed, reply } => {
                    &&& index < parts
                    &&& my_len == spec_chunk_len(index as nat, file_size as nat, parts as nat)
                    &&& chunk_name@ == spec_chunk_file_name(name@, index as nat, parts as nat)
                    &&& remaining == file_size - spec_sum_len(
                        index as nat + 1,
                        file_size as nat,
                        parts as nat,
                    )
                    &&& reply@ == "OK\n"@
                    &&& final (node).file_tags.has_key(name@)
                    &&& final (node).file_tags.spec_get(name@) == (crate::tags::FileTag {
                        start,
                        size: file_size,
                        parts,
                    })
                    &&& *final (node) == (Node {
                        file_tags: final (node).file_tags,
                        pending_files: final (node).pending_files,
                        ..*old(node)
                    })
                    &&& ((remaining > 0 && old(node).next_port is Some) ==> (
                    forward matches Some(msg) && msg.addr@ == old(node).next_port->Some_0@
                        && msg.line@
                        == "FILE RELAY-STREAM "@ + token@ + seq![' '] + start_addr@ + seq![' ']
                        + dec_str(file_size as nat) + seq![' '] + dec_str(parts as nat)
                        + seq![' '] + dec_str(index as nat + 1) + seq![' '] + name@
                        + seq!['\n']))
                    &&& ((remaining > 0 && old(node).next_port is None) ==> forward is None)
                    // the last chunk away from the origin: report
                    // completion home as an empty relay blob
                    &&& ((remaining == 0 && !at_start) ==> (forward matches Some(msg)
                        && msg.addr@ == start_addr@ && msg.line@ == "FILE RELAY-BLOB "@ + token@
                        + seq![' '] + start_addr@ + seq![' '] + seq!['0'] + seq![' '] + name@
                        + seq!['\n']))
                    &&& ((remaining == 0 && at_start) ==> forward is None)
                    &&& (remaining > 0 ==> completed is None)
                    &&& ((remaining == 0 && !at_start) ==> completed is None)
                    &&& ((remaining == 0 && at_start && token_known(
                        old(node).pending_files@,
                        token@,
                    )) ==> (completed matches Some(a) && a matches Action::CompleteFile {
                        token: t,
                    } && t@ == token@))
                    &&& ((remaining == 0 && at_start && !token_known(
                        old(node).pending_files@,
                        token@,
                    )) ==> completed is None)
                },
            }
        }),
{
    if index >= parts {
        return RelayPlan::Bad { reply: "ERR bad FILE RELAY-STREAM index\n".to_owned() };
    }
    let my_len = fair_chunk_len(index, file_size, parts);
    let start_port: u16 = match crate::strutil::parse_u16(crate::strutil::port_str(start_addr)) {
        Some(p) => p,
        None => 0,
    };
    node.set_file_tag(name, start_port, file_size, parts);
    let chunk_name = chunk_file_name(name, index, parts);
    let consumed = sum_len_up_to_inclusive(index, file_size, parts);
    let remaining = file_size - consumed;
    let mut forward: Option<OutMsg> = None;
    let mut completed: Option<Action> = None;
    if remaining > 0 {
        match node.get_next() {
            Some(next) => {
                let mut line = String::new();
                line.append("FILE RELAY-STREAM ");
                line.append(token);
                line.push(' ');
                line.append(start_addr);
                line.push(' ');
                line.append(u64_to_string(file_size).as_str());
                line.push(' ');
                line.append(u64_to_string(parts as u64).as_str());
                line.push(' ');
                line.append(u64_to_string(index as u64 + 1).as_str());
                line.push(' ');
                line.append(name);
                line.push('\n');
                proof {
                    assert(line@ =~= "FILE RELAY-STREAM "@ + token@ + seq![' '] + start_addr@
                        + seq![' '] + dec_str(file_size as nat) + seq![' '] + dec_str(
                        parts as nat,
                    ) + seq![' '] + dec_str(index as nat + 1) + seq![' '] + name@ + seq!['\n']);
                }
                forward = Some(OutMsg { addr: next, line });
            },
            None => {},
        }
    } else {
        let at_start = crate::strutil::str_eq(
            crate::strutil::port_str(node.port.as_str()),
            crate::strutil::port_str(start_addr),
        );
        if at_start {
            if node.finish_file(token) {
                completed = Some(Action::CompleteFile { token: token.to_owned() });
            }
        } else {
            let mut line = String::new();
            line.append("FILE RELAY-BLOB ");
            line.append(token);
            line.push(' ');
            line.append(start_addr);
            line.push(' ');
            line.push('0');
            line.push(' ');
            line.append(name);
            line.push('\n');
            proof {
                assert(line@ =~= "FILE RELAY-BLOB "@ + token@ + seq![' '] + start_addr@
                    + seq![' '] + seq!['0'] + seq![' '] + name@ + seq!['\n']);
            }
            forward = Some(OutMsg { addr: start_addr.to_owned(), line });
        }
    }
    RelayPlan::Store {
        my_len,
        chunk_name,
        forward,
        remaining,
        completed,
        reply: "OK\n".to_owned(),
    }
}

/// How a node carries out `FILE RELAY-BLOB`: the whole body is read
/// first, then either the loop is closed or the blob is stored and
/// passed on.
pub enum RelayBlobPlan {
    /// The blob came back to its origin: the loop is complete. An
    /// empty blob is how the last relay-stream hop reports a
    /// finished push, so this also confirms a streamed push.
    AtStart { completed: Option<Action>, reply: String },
    /// Store the blob under `name` and forward it unchanged.
    Save { forward: Option<OutMsg>, reply: String },
}

/// Decide one relay-blob hop.
pub fn plan_relay_blob(
    node: &mut Node,
    token: &str,
    start_addr: &str,
    size: u64,
    name: &str,
) -> (r: RelayBlobPlan)
    ensures
        *final (node) == (Node { pending_files: final (node).pending_files, ..*old(node) }),
        ({
            let at_start = spec_port_str(old(node).port@) == spec_port_str(start_addr@);
            match r {
                RelayBlobPlan::AtStart { completed, reply } => {
                    &&& at_start
                    &&& reply@ == "OK\n"@
                    &&& (token_known(old(node).pending_files@, token@) ==> (completed matches Some(
                        a,
                    ) && a matches Action::CompleteFile { token: t } && t@ == token@))
                    &&& (!token_known(old(node).pending_files@, token@) ==> completed is None)
                },
                RelayBlobPlan::Save { forward, reply } => {
                    &&& !at_start
                    &&& reply@ == "OK\n"@
                    &&& (old(node).next_port matches Some(n) ==> (forward matches Some(msg)
                        && msg.addr@ == n@ && msg.line@ == "FILE RELAY-BLOB "@ + token@
                        + seq![' '] + start_addr@ + seq![' '] + dec_str(size as nat) + seq![' ']
                        + name@ + seq!['\n']))
                    &&& (old(node).next_port is None ==> forward is None)
                },
            }
        }),
{
    let at_start = crate::strutil::str_eq(
        crate::strutil::port_str(node.port.as_str()),
        crate::strutil::port_str(start_addr),
    );
    if at_start {
        let completed = if node.finish_file(token) {
            Some(Action::CompleteFile { token: token.to_owned() })
        } else {
            None
        };
        RelayBlobPlan::AtStart { completed, reply: "OK\n".to_owned() }
    } else {
        let forward = match node.get_next() {
            Some(next) => {
                let mut line = String::new();
                line.append("FILE RELAY-BLOB ");
                line.append(token);
                line.push(' ');
                line.append(start_addr);
                line.push(' ');
                line.append(u64_to_string(size).as_str());
                line.push(' ');
                line.append(name);
                line.push('\n');
                proof {
                    assert(line@ =~= "FILE RELAY-BLOB "@ + token@ + seq![' '] + start_addr@
                        + seq![' '] + dec_str(size as nat) + seq![' '] + name@ + seq!['\n']);
                }
                Some(OutMsg { addr: next, line })
            },
            None => None,
        };
        RelayBlobPlan::Save { forward, reply: "OK\n".to_owned() }
    }
}

/// Where the predecessor is told about a fresh chunk, and with what
/// line. None when the topology holds no predecessor.
pub fn notify_predecessor_msg(node: &Node, chunk_name: &str) -> (r: Option<OutMsg>)
    requires
        node.wf(),
    ensures
        match r {
            Some(msg) => {
                &&& exists|i: int|
                    0 <= i < node.topology_map.spec_len() && spec_port_str(
                        node.topology_map.val_seq()[i]@,
                    ) == node.self_port() && msg.addr@ == spec_host_of(node.port@) + seq![':']
                        + node.topology_map.key_seq()[i]
                &&& msg.line@ == "FILE NOTIFY-CHUNK-SAVED "@ + chunk_name@ + seq!['\n']
            },
            None => forall|i: int|
                0 <= i < node.topology_map.spec_len() ==> spec_port_str(
                    node.topology_map.val_seq()[i]@,
                ) != node.self_port(),
        },
{
    let my_port = crate::strutil::port_str(node.port.as_str());
    match crate::topology::pred_of(&node.topology_map, my_port) {
        Some(pred_port) => {
            let addr = crate::strutil::join_addr(
                crate::strutil::host_of(node.port.as_str()),
                pred_port.as_str(),
            );
            let line = join_line2("FILE NOTIFY-CHUNK-SAVED ", chunk_name);
            Some(OutMsg { addr, line })
        },
        None => None,
    }
}

// ---------- FILE PULL ----------

/// One stop of a pull: where the chunk lives, and where its backup
/// would be if that node is down.
pub struct PullStep {
    /// `host:port` of the node holding the chunk.
    pub addr: String,
    /// The port key used to advance through the topology map.
    pub port: String,
    /// The chunk's file name at that node.
    pub chunk_name: String,
    /// The backup holder: the predecessor in the topology, if any.
    pub pred_addr: Option<String>,
}

pub enum PullOutcome {
    /// No tag for this name.
    NotFound { reply: String },
    /// Fetch these chunks in order and concatenate what comes back.
    Steps { size: u64, parts: u32, steps: Vec<PullStep> },
}

/// Whether `steps` walks the topology `topo` for the chunks of
/// `name`, starting at the decimal port `start`.
pub open spec fn pull_steps_ok(
    steps: Seq<PullStep>,
    topo: KvList<String>,
    host: Seq<char>,
    name: Seq<char>,
    start: u16,
    parts: u32,
) -> bool {
    &&& steps.len() <= parts
    &&& forall|i: int|
        0 <= i < steps.len() ==> (#[trigger] steps[i].chunk_name@) == spec_chunk_file_name(
            name,
            i as nat,
            parts as nat,
        )
    &&& forall|i: int|
        0 <= i < steps.len() ==> (#[trigger] steps[i].addr@) == host + seq![':'] + steps[i].port@
    &&& (steps.len() > 0 ==> steps[0].port@ == dec_str(start as nat))
    &&& forall|i: int|
        0 <= i < steps.len() - 1 ==> topo.has_key((#[trigger] steps[i].port@)) && steps[i
            + 1].port@ == topo.spec_get(steps[i].port@)@
    &&& (0 < steps.len() < parts ==> !topo.has_key(steps[steps.len() - 1].port@))
    &&& forall|i: int|
        0 <= i < steps.len() ==> match (#[trigger] steps[i].pred_addr) {
            Some(pa) => exists|j: int|
                0 <= j < topo.spec_len() && spec_port_str(topo.val_seq()[j]@) == spec_port_str(
                    steps[i].port@,
                ) && pa@ == host + seq![':'] + topo.key_seq()[j],
            None => forall|j: int|
                0 <= j < topo.spec_len() ==> spec_port_str(topo.val_seq()[j]@) != spec_port_str(
                    steps[i].port@,
                ),
        }
}

/// Decide a pull: look the tag up and lay out the ring walk that
/// gathers the chunks, each with its backup fallback.
pub fn plan_pull(node: &Node, name: &str) -> (r: PullOutcome)
    requires
        node.wf(),
    ensures
        match r {
            PullOutcome::NotFound { reply } => {
                &&& !node.file_tags.has_key(name@)
                &&& reply@ == "ERR file not found\n"@
            },
            PullOutcome::Steps { size, parts, steps } => {
                &&& node.file_tags.has_key(name@)
                &&& size == node.file_tags.spec_get(name@).size
                &&& parts == node.file_tags.spec_get(name@).parts
                &&& pull_steps_ok(
                    steps@,
                    node.topology_map,
                    spec_host_of(node.port@),
                    name@,
                    node.file_tags.spec_get(name@).start,
                    parts,
                )
                &&& (parts > 0 ==> steps@.len() > 0)
            },
        },
{
    let tag = match node.file_tags.get(name) {
        None => {
            return PullOutcome::NotFound { reply: "ERR file not found\n".to_owned() };
        },
        Some(t) => *t,
    };
    let host = crate::strutil::host_of(node.port.as_str());
    let mut steps: Vec<PullStep> = Vec::new();
    let mut current_port: String = u64_to_string(tag.start as u64);
    let mut i: u32 = 0;
    let mut broke = false;
    while i < tag.parts && !broke
        invariant
            node.wf(),
            host@ == spec_host_of(node.port@),
            i <= tag.parts,
            steps@.len() == i,
            !broke ==> (i > 0 ==> node.topology_map.has_key(steps@[i - 1].port@)
                && current_port@ == node.topology_map.spec_get(steps@[i - 1].port@)@),
            !broke ==> (i == 0 ==> current_port@ == dec_str(tag.start as nat)),
            broke ==> 0 < i,
            broke ==> !node.topology_map.has_key(steps@[i - 1].port@),
            forall|j: int|
                0 <= j < steps@.len() ==> (#[trigger] steps@[j].chunk_name@)
                    == spec_chunk_file_name(name@, j as nat, tag.parts as nat),
            forall|j: int|
                0 <= j < steps@.len() ==> (#[trigger] steps@[j].addr@) == host@ + seq![':']
                    + steps@[j].port@,
            steps@.len() > 0 ==> steps@[0].port@ == dec_str(tag.start as nat),
            forall|j: int|
                0 <= j < steps@.len() - 1 ==> node.topology_map.has_key(
                    (#[trigger] steps@[j].port@),
                ) && steps@[j + 1].port@ == node.topology_map.spec_get(steps@[j].port@)@,
            forall|j: int|
                0 <= j < steps@.len() ==> match (#[trigger] steps@[j].pred_addr) {
                    Some(pa) => exists|k: int|
                        0 <= k < node.topology_map.spec_len() && spec_port_str(
                            node.topology_map.val_seq()[k]@,
                        ) == spec_port_str(steps@[j].port@) && pa@ == host@ + seq![':']
                            + node.topology_map.key_seq()[k],
                    None => forall|k: int|
                        0 <= k < node.topology_map.spec_len() ==> spec_port_str(
                            node.topology_map.val_seq()[k]@,
                        ) != spec_port_str(steps@[j].port@),
                },
        decreases tag.parts - i,
    {
        let chunk_name = chunk_file_name(name, i, tag.parts);
        let pred_addr = match crate::topology::pred_of(
            &node.topology_map,
            crate::strutil::port_str(current_port.as_str()),
        ) {
            Some(p) => Some(crate::strutil::join_addr(host, p.as_str())),
            None => None,
        };
        let addr = crate::strutil::join_addr(host, current_port.as_str());
        let next_port = node.get_next_for_node(current_port.as_str());
        let ghost pre_steps = steps@;
        let step = PullStep { addr, port: current_port.clone(), chunk_name, pred_addr };
        proof {
            assert(step.addr@ == host@ + seq![':'] + step.port@);
        }
        steps.push(step);
        proof {
            assert(steps@[steps@.len() - 1] == step);
            assert(forall|j: int| 0 <= j < pre_steps.len() ==> steps@[j] == pre_steps[j]);
            assert forall|j: int| 0 <= j < steps@.len() implies (#[trigger] steps@[j].addr@)
                == host@ + seq![':'] + steps@[j].port@ by {
                if j < steps@.len() - 1 {
                    assert(steps@[j] == pre_steps[j]);
                    assert(pre_steps[j].addr@ == host@ + seq![':'] + pre_steps[j].port@);
                } else {
                    assert(steps@[j] == step);
                }
            }
        }
        match next_port {
            Some(p) => {
                current_port = p;
            },
            None => {
                broke = true;
            },
        }
        i = i + 1;
    }
    PullOutcome::Steps { size: tag.size, parts: tag.parts, steps }
}

/// Mark a port dead after a failed chunk fetch, then announce the
/// whole netmap.
pub fn pull_mark_dead(node: &mut Node, port: &str) -> (r: Vec<Action>)
    requires
        old(node).wf(),
    ensures
        final (node).wf(),
        *final (node) == (Node { network_nodes: final (node).network_nodes, ..*old(node) }),
        final (node).network_nodes.has_key(port@),
        final (node).network_nodes.spec_get(port@) == NodeStatus::Dead,
        forall|k2: Seq<char>|
            k2 != port@ ==> (final (node).network_nodes.has_key(k2) == old(
                node,
            ).network_nodes.has_key(k2) && (old(node).network_nodes.has_key(k2) ==> final (
            node).network_nodes.spec_get(k2) == old(node).network_nodes.spec_get(k2))),
        is_broadcast(
            r@,
            bcast_targets(
                final (node).network_nodes.key_seq(),
                spec_host_str(old(node).port@),
                old(node).port@,
            ),
            "NETMAP SET "@ + spec_entries_str(final (node).network_nodes) + seq!['\n'],
        ),
{
    node.update_node_status(port.to_owned(), NodeStatus::Dead);
    broadcast_netmap_update(node)
}

/// Announce the current netmap to every known port.
pub fn broadcast_netmap_update(node: &Node) -> (r: Vec<Action>)
    requires
        node.wf(),
    ensures
        is_broadcast(
            r@,
            bcast_targets(
                node.network_nodes.key_seq(),
                spec_host_str(node.port@),
                node.port@,
            ),
            "NETMAP SET "@ + spec_entries_str(node.network_nodes) + seq!['\n'],
        ),
{
    let entries = node.get_network_nodes_entries();
    let line = join_line2("NETMAP SET ", entries.as_str());
    broadcast_sends(&node.network_nodes, node.port.as_str(), line.as_str())
}

// ---------- chunk serving ----------

/// Where `FILE GET-CHUNK` / `FILE GET-BACKUP-CHUNK` read from, and
/// the successor echoed in the response header.
pub fn chunk_source(node: &Node, name: &str, backup: bool) -> (r: (String, String))
    ensures
        r.0@ == spec_node_file_path(spec_port_str(node.port@), if backup {
            "backup"@
        } else {
            "content"@
        }, name@),
        r.1@ == match node.next_port {
            Some(n) => n@,
            None => node.port@,
        },
{
    let path = if backup {
        node_file_path(node.port.as_str(), "backup", name)
    } else {
        node_file_path(node.port.as_str(), "content", name)
    };
    let next = match node.get_next() {
        Some(n) => n,
        None => node.port.clone(),
    };
    (path, next)
}

/// The header that precedes a chunk's bytes on the wire.
pub fn resp_chunk_header(next: &str, len: u64, name: &str) -> (r: String)
    ensures
        r@ == "FILE RESP-CHUNK "@ + next@ + seq![' '] + dec_str(len as nat) + seq![' '] + name@
            + seq!['\n'],
{
    let mut out = String::new();
    out.append("FILE RESP-CHUNK ");
    out.append(next);
    out.push(' ');
    out.append(u64_to_string(len).as_str());
    out.push(' ');
    out.append(name);
    out.push('\n');
    proof {
        assert(out@ =~= "FILE RESP-CHUNK "@ + next@ + seq![' '] + dec_str(len as nat)
            + seq![' '] + name@ + seq!['\n']);
    }
    out
}

/// A parsed `FILE RESP-CHUNK <next> <size> <name>` header.
pub open spec fn spec_parse_resp_chunk(line: Seq<char>) -> Option<(Seq<char>, u64, Seq<char>)> {
    let t = spec_trim_crlf(line);
    let p = "FILE RESP-CHUNK "@;
    if t.len() >= p.len() && t.subrange(0, p.len() as int) == p {
        let rest = t.subrange(p.len() as int, t.len() as int);
        let next = crate::strutil::spec_split_head(rest, ' ');
        let r1 = crate::strutil::spec_split_rest(rest, ' ');
        let size_str = crate::strutil::spec_split_head(r1, ' ');
        let name = crate::strutil::spec_split_rest(r1, ' ');
        match crate::strutil::spec_parse_u64(size_str) {
            Some(size) => Some((next, size, name)),
            None => None,
        }
    } else {
        None
    }
}

/// Read a `FILE RESP-CHUNK` reply header.
pub fn parse_resp_chunk(line: &str) -> (r: Option<(String, u64, String)>)
    ensures
        match r {
            Some((next, size, name)) => spec_parse_resp_chunk(line@) == Some(
                (next@, size, name@),
            ),
            None => spec_parse_resp_chunk(line@) is None,
        },
{
    proof {
        reveal_strlit("FILE RESP-CHUNK ");
    }
    let t = crate::strutil::trim_crlf(line);
    let n = t.unicode_len();
    if n < 16 {
        return None;
    }
    let head = t.substring_char(0, 16);
    if !crate::strutil::str_eq(head, "FILE RESP-CHUNK ") {
        return None;
    }
    let rest = t.substring_char(16, n);
    let (next, r1) = split_first(rest, ' ');
    let (size_str, name) = split_first(r1, ' ');
    match crate::strutil::parse_u64(size_str) {
        Some(size) => Some((next.to_owned(), size, name.to_owned())),
        None => None,
    }
}

/// The eight-byte big-endian length that frames a backup chunk.
pub open spec fn spec_u64_be(n: u64) -> Seq<u8> {
    seq![
        (n >> 56) as u8,
        (n >> 48) as u8,
        (n >> 40) as u8,
        (n >> 32) as u8,
        (n >> 24) as u8,
        (n >> 16) as u8,
        (n >> 8) as u8,
        n as u8,
    ]
}

pub fn u64_to_be_bytes(n: u64) -> (r: Vec<u8>)
    ensures
        r@ == spec_u64_be(n),
{
    let mut out: Vec<u8> = Vec::new();
    out.push(#[verifier::truncate] ((n >> 56) as u8));
    out.push(#[verifier::truncate] ((n >> 48) as u8));
    out.push(#[verifier::truncate] ((n >> 40) as u8));
    out.push(#[verifier::truncate] ((n >> 32) as u8));
    out.push(#[verifier::truncate] ((n >> 24) as u8));
    out.push(#[verifier::truncate] ((n >> 16) as u8));
    out.push(#[verifier::truncate] ((n >> 8) as u8));
    out.push(#[verifier::truncate] (n as u8));
    proof {
        assert(out@ =~= spec_u64_be(n));
    }
    out
}

/// The value those eight bytes carry.
pub open spec fn spec_u64_of_be(b: Seq<u8>) -> u64
    recommends
        b.len() == 8,
{
    (
    (b[0] as u64) << 56 | (b[1] as u64) << 48 | (b[2] as u64) << 40 | (b[3] as u64) << 32 | (
    b[4] as u64) << 24 | (b[5] as u64) << 16 | (b[6] as u64) << 8 | (b[7] as u64)) as u64
}

pub fn u64_from_be_bytes(b: &[u8]) -> (r: u64)
    requires
        b@.len() == 8,
    ensures
        r == spec_u64_of_be(b@),
{
    (b[0] as u64) << 56 | (b[1] as u64) << 48 | (b[2] as u64) << 40 | (b[3] as u64) << 32 | (
    b[4] as u64) << 24 | (b[5] as u64) << 16 | (b[6] as u64) << 8 | (b[7] as u64)
}

// ---------- healing a dead node ----------

/// Where the replacement listens and the arguments it is started
/// with: `run --addr <host:port> --wait-time <gossip ms>`.
pub fn respawn_plan(node: &Node, dead_addr: &str) -> (r: (String, Vec<String>))
    ensures
        r.0@ == spec_host_of(dead_addr@) + seq![':'] + spec_port_str(dead_addr@),
        r.1@.len() == 5,
        r.1@[0]@ == "run"@,
        r.1@[1]@ == "--addr"@,
        r.1@[2]@ == r.0@,
        r.1@[3]@ == "--wait-time"@,
        r.1@[4]@ == dec_str(node.gossip_interval_ms as nat),
{
    let full = crate::strutil::join_addr(
        crate::strutil::host_of(dead_addr),
        crate::strutil::port_str(dead_addr),
    );
    let mut argv: Vec<String> = Vec::new();
    argv.push("run".to_owned());
    argv.push("--addr".to_owned());
    argv.push(full.clone());
    argv.push("--wait-time".to_owned());
    argv.push(u64_to_string(node.gossip_interval_ms));
    (full, argv)
}

/// The lines that re-synchronise a respawned node, in order: the
/// netmap, the topology when there is one, the file tags when there
/// are any, and its successor pointer from the stored topology.
pub open spec fn spec_share_lines(node: Node, new_addr: Seq<char>) -> Seq<Seq<char>> {
    let hist = crate::topology::spec_history_str(node.topology_map);
    let tags = crate::tags::spec_tags_str(node.file_tags);
    let p = spec_port_str(new_addr);
    seq!["NETMAP SET "@ + spec_entries_str(node.network_nodes) + seq!['\n']] + (if hist.len()
        > 0 {
        seq!["TOPOLOGY SET "@ + hist + seq!['\n']]
    } else {
        Seq::empty()
    }) + (if tags.len() > 0 {
        seq!["FILE TAGS-SET "@ + tags + seq!['\n']]
    } else {
        Seq::empty()
    }) + (if node.topology_map.has_key(p) {
        seq![
            "NODE NEXT "@ + spec_host_of(node.port@) + seq![':'] + node.topology_map.spec_get(
                p,
            )@ + seq!['\n'],
        ]
    } else {
        Seq::empty()
    })
}

/// Everything a freshly respawned node is told, over one short
/// connection per line.
pub fn share_data_with_new_node(node: &Node, new_addr: &str) -> (r: Vec<OutMsg>)
    requires
        node.wf(),
    ensures
        r@.len() == spec_share_lines(*node, new_addr@).len(),
        forall|j: int|
            0 <= j < r@.len() ==> (#[trigger] r@[j].addr@) == new_addr@ && r@[j].line@
                == spec_share_lines(*node, new_addr@)[j],
{
    let ghost exp = spec_share_lines(*node, new_addr@);
    let mut out: Vec<OutMsg> = Vec::new();
    let entries = node.get_network_nodes_entries();
    out.push(
        OutMsg { addr: new_addr.to_owned(), line: join_line2("NETMAP SET ", entries.as_str()) },
    );
    let hist = node.get_topology_history();
    if hist.unicode_len() > 0 {
        out.push(
            OutMsg {
                addr: new_addr.to_owned(),
                line: join_line2("TOPOLOGY SET ", hist.as_str()),
            },
        );
    }
    let tags = node.get_file_tags_entries();
    if tags.unicode_len() > 0 {
        out.push(
            OutMsg {
                addr: new_addr.to_owned(),
                line: join_line2("FILE TAGS-SET ", tags.as_str()),
            },
        );
    }
    match node.get_next_for_node(crate::strutil::port_str(new_addr)) {
        Some(port) => {
            let next_addr = crate::strutil::join_addr(
                crate::strutil::host_of(node.port.as_str()),
                port.as_str(),
            );
            out.push(
                OutMsg {
                    addr: new_addr.to_owned(),
                    line: join_line2("NODE NEXT ", next_addr.as_str()),
                },
            );
        },
        None => {},
    }
    proof {
        assert(forall|j: int| 0 <= j < out@.len() ==> (#[trigger] out@[j].addr@) == new_addr@);
        assert forall|j: int| 0 <= j < out@.len() implies (#[trigger] out@[j].line@) == exp[j]
            && out@.len() == exp.len() by {
            assert(exp.len() == out@.len());
            assert(out@[j].line@ == exp[j]);
        }
    }
    out
}

/// Picking the node's listening address: `--addr` wins, then
/// `--port`, then the environment's port, then the default.
pub fn resolve_listen_addr(
    addr: Option<String>,
    port: Option<u16>,
    env_port: Option<String>,
) -> (r: String)
    ensures
        r@ == match addr {
            Some(a) => crate::strutil::spec_normalize_addr(a@),
            None => match port {
                Some(p) => "127.0.0.1:"@ + dec_str(p as nat),
                None => match env_port {
                    Some(e) => crate::strutil::spec_normalize_addr(e@),
                    None => "127.0.0.1:9000"@,
                },
            },
        },
{
    match addr {
        Some(a) => crate::strutil::normalize_addr(a),
        None => match port {
            Some(p) => {
                let mut out = String::new();
                out.append("127.0.0.1:");
                out.append(u64_to_string(p as u64).as_str());
                out
            },
            None => match env_port {
                Some(e) => crate::strutil::normalize_addr(e),
                None => "127.0.0.1:9000".to_owned(),
            },
        },
    }
}

/// What the heal walk may touch while every neighbour answers its
/// ping: nothing but the walk counter and the pending-heal tokens.
/// `NODE HEAL`, `NODE HEAL-HOP`, `NODE HEAL-DONE` and `heal_step` all
/// promise exactly this shape of change on a healthy ring.
pub open spec fn heal_scope(pre: Node, post: Node) -> bool {
    post == (Node {
        walk_counter: post.walk_counter,
        pending_heals: post.pending_heals,
        ..pre
    })
}

/// Heal is idempotent on a healthy ring: any number of heal walks
/// whose checks all pass leaves the netmap, the topology map and the
/// file tags — and so their serialised bytes — exactly as they were.
pub proof fn lemma_heal_idempotent(pre: Node, mid: Node, post: Node)
    requires
        pre.wf(),
        heal_scope(pre, mid),
        heal_scope(mid, post),
    ensures
        heal_scope(pre, post),
        post.network_nodes == pre.network_nodes,
        post.topology_map == pre.topology_map,
        post.file_tags == pre.file_tags,
        post.next_port == pre.next_port,
        spec_entries_str(post.network_nodes) == spec_entries_str(pre.network_nodes),
        crate::topology::spec_history_str(post.topology_map) == crate::topology::spec_history_str(
            pre.topology_map,
        ),
        crate::tags::spec_tags_str(post.file_tags) == crate::tags::spec_tags_str(pre.file_tags),
{
}

/// Which port node `i` of a fresh ring points at: the next one, the
/// last wrapping to the first.
pub fn ring_next_port(i: u16, nodes: u16, base_port: u16) -> (r: u16)
    requires
        i < nodes,
        base_port + nodes <= u16::MAX + 1,
    ensures
        r == if i + 1 == nodes {
            base_port as int
        } else {
            base_port as int + i as int + 1
        },
{
    if i + 1 == nodes {
        base_port
    } else {
        base_port + i + 1
    }
}

} // verus!
