//! Per-node shared state: own address, successor, netmap, topology
//! map, file tags, and the pending-completion token tables.
use vstd::prelude::*;

use crate::kv::KvList;
use crate::netmap::{parse_entries, serialize_entries, spec_entries_str, NodeStatus};
use crate::strutil::{dec_str, spec_port_str, u64_to_string};
use crate::tags::FileTag;

verus! {

/// One node's state. The network shell owns the single instance and
/// hands it to each command handler in turn; every handler says in
/// its contract which fields it touches.
pub struct Node {
    /// Where this node is listening, as `host:port`.
    pub port: String,
    /// Address of the next node in the ring, `None` until set via
    /// `NODE NEXT`.
    pub next_port: Option<String>,
    /// Tokens of topology walks this node started and still awaits.
    pub pending_walks: Vec<String>,
    pub walk_counter: u64,
    /// Tokens of heal walks this node started and still awaits.
    pub pending_heals: Vec<String>,
    /// Tokens of file pushes this node started and still awaits.
    pub pending_files: Vec<String>,
    pub file_counter: u64,
    /// Status of all nodes on the network.
    pub network_nodes: KvList<NodeStatus>,
    /// Mapping of file name to (start port, size, parts).
    pub file_tags: KvList<FileTag>,
    /// Milliseconds between gossip health checks; 0 disables them.
    pub gossip_interval_ms: u64,
    /// Map of `port -> next_port` for the entire ring.
    pub topology_map: KvList<String>,
}

impl Node {
    /// The three maps are well-formed.
    pub open spec fn wf(self) -> bool {
        &&& self.network_nodes.wf()
        &&& self.file_tags.wf()
        &&& self.topology_map.wf()
    }

    /// The port part of this node's own address.
    pub open spec fn self_port(self) -> Seq<char> {
        spec_port_str(self.port@)
    }

    pub fn new(port: String, gossip_interval_ms: u64) -> (r: Node)
        ensures
            r.wf(),
            r.port == port,
            r.next_port is None,
            r.pending_walks@.len() == 0,
            r.pending_heals@.len() == 0,
            r.pending_files@.len() == 0,
            r.walk_counter == 1,
            r.file_counter == 1,
            r.network_nodes.spec_len() == 0,
            r.file_tags.spec_len() == 0,
            r.topology_map.spec_len() == 0,
            r.gossip_interval_ms == gossip_interval_ms,
    {
        Node {
            port,
            next_port: None,
            pending_walks: Vec::new(),
            walk_counter: 1,
            pending_heals: Vec::new(),
            pending_files: Vec::new(),
            file_counter: 1,
            network_nodes: KvList::new(),
            file_tags: KvList::new(),
            gossip_interval_ms,
            topology_map: KvList::new(),
        }
    }

    pub fn set_next(&mut self, addr: String)
        ensures
            *final (self) == (Node { next_port: Some(addr), ..*old(self) }),
    {
        self.next_port = Some(addr);
    }

    pub fn get_next(&self) -> (r: Option<String>)
        ensures
            r == self.next_port,
    {
        match &self.next_port {
            Some(a) => Some(a.clone()),
            None => None,
        }
    }

    /// Mint a walk token `<self_port>-<n>`. The counter wraps around
    /// at the top of its range.
    pub fn make_walk_token(&mut self) -> (r: String)
        ensures
            r@ == old(self).port@ + seq!['-'] + dec_str(old(self).walk_counter as nat),
            *final (self) == (Node {
                walk_counter: if old(self).walk_counter == u64::MAX {
                    0
                } else {
                    (old(self).walk_counter + 1) as u64
                },
                ..*old(self)
            }),
    {
        let n = self.walk_counter;
        self.walk_counter = if n == u64::MAX {
            0
        } else {
            n + 1
        };
        let mut t = self.port.clone();
        t.push('-');
        t.append(u64_to_string(n).as_str());
        t
    }

    /// A netmap-discover walk draws from the same counter.
    pub fn make_invest_token(&mut self) -> (r: String)
        ensures
            r@ == old(self).port@ + seq!['-'] + dec_str(old(self).walk_counter as nat),
            *final (self) == (Node {
                walk_counter: if old(self).walk_counter == u64::MAX {
                    0
                } else {
                    (old(self).walk_counter + 1) as u64
                },
                ..*old(self)
            }),
    {
        self.make_walk_token()
    }

    /// Mint a file token `file-<self_port>-<n>`.
    pub fn make_file_token(&mut self) -> (r: String)
        ensures
            r@ == "file-"@ + old(self).port@ + seq!['-'] + dec_str(old(self).file_counter as nat),
            *final (self) == (Node {
                file_counter: if old(self).file_counter == u64::MAX {
                    0
                } else {
                    (old(self).file_counter + 1) as u64
                },
                ..*old(self)
            }),
    {
        let n = self.file_counter;
        self.file_counter = if n == u64::MAX {
            0
        } else {
            n + 1
        };
        let mut t = String::new();
        t.append("file-");
        t.append(self.port.as_str());
        t.push('-');
        t.append(u64_to_string(n).as_str());
        proof {
            assert(t@ =~= "file-"@ + old(self).port@ + seq!['-'] + dec_str(
                old(self).file_counter as nat,
            ));
        }
        t
    }

    pub fn register_walk(&mut self, token: &str)
        ensures
            *final (self) == (Node {
                pending_walks: final (self).pending_walks,
                ..*old(self)
            }),
            final (self).pending_walks@.len() == old(self).pending_walks@.len() + 1,
            final (self).pending_walks@.last()@ == token@,
            forall|i: int|
                0 <= i < old(self).pending_walks@.len() ==> final (self).pending_walks@[i] == old(
                    self,
                ).pending_walks@[i],
    {
        self.pending_walks.push(token.to_owned());
    }

    pub fn register_heal_walk(&mut self, token: &str)
        ensures
            *final (self) == (Node {
                pending_heals: final (self).pending_heals,
                ..*old(self)
            }),
            final (self).pending_heals@.len() == old(self).pending_heals@.len() + 1,
            final (self).pending_heals@.last()@ == token@,
            forall|i: int|
                0 <= i < old(self).pending_heals@.len() ==> final (self).pending_heals@[i] == old(
                    self,
                ).pending_heals@[i],
    {
        self.pending_heals.push(token.to_owned());
    }

    pub fn register_file(&mut self, token: &str)
        ensures
            *final (self) == (Node {
                pending_files: final (self).pending_files,
                ..*old(self)
            }),
            final (self).pending_files@.len() == old(self).pending_files@.len() + 1,
            final (self).pending_files@.last()@ == token@,
            forall|i: int|
                0 <= i < old(self).pending_files@.len() ==> final (self).pending_files@[i] == old(
                    self,
                ).pending_files@[i],
    {
        self.pending_files.push(token.to_owned());
    }

    /// Complete a topology walk: drop the token, and say whether it
    /// was known here.
    pub fn finish_walk(&mut self, token: &str) -> (r: bool)
        ensures
            *final (self) == (Node {
                pending_walks: final (self).pending_walks,
                ..*old(self)
            }),
            r == token_known(old(self).pending_walks@, token@),
            !r ==> final (self).pending_walks@ == old(self).pending_walks@,
            r ==> exists|i: int|
                0 <= i < old(self).pending_walks@.len() && old(self).pending_walks@[i]@ == token@
                    && final (self).pending_walks@ == old(self).pending_walks@.remove(i),
    {
        token_take(&mut self.pending_walks, token)
    }

    pub fn finish_heal_walk(&mut self, token: &str) -> (r: bool)
        ensures
            *final (self) == (Node {
                pending_heals: final (self).pending_heals,
                ..*old(self)
            }),
            r == token_known(old(self).pending_heals@, token@),
            !r ==> final (self).pending_heals@ == old(self).pending_heals@,
            r ==> exists|i: int|
                0 <= i < old(self).pending_heals@.len() && old(self).pending_heals@[i]@ == token@
                    && final (self).pending_heals@ == old(self).pending_heals@.remove(i),
    {
        token_take(&mut self.pending_heals, token)
    }

    pub fn finish_file(&mut self, token: &str) -> (r: bool)
        ensures
            *final (self) == (Node {
                pending_files: final (self).pending_files,
                ..*old(self)
            }),
            r == token_known(old(self).pending_files@, token@),
            !r ==> final (self).pending_files@ == old(self).pending_files@,
            r ==> exists|i: int|
                0 <= i < old(self).pending_files@.len() && old(self).pending_files@[i]@ == token@
                    && final (self).pending_files@ == old(self).pending_files@.remove(i),
    {
        token_take(&mut self.pending_files, token)
    }

    /// Record a file's tag.
    pub fn set_file_tag(&mut self, name: &str, start_port: u16, size: u64, parts: u32)
        requires
            old(self).wf(),
        ensures
            final (self).wf(),
            *final (self) == (Node { file_tags: final (self).file_tags, ..*old(self) }),
            final (self).file_tags.has_key(name@),
            final (self).file_tags.spec_get(name@) == (FileTag { start: start_port, size, parts }),
            forall|k2: Seq<char>|
                k2 != name@ ==> (final (self).file_tags.has_key(k2) == old(
                    self,
                ).file_tags.has_key(k2) && (old(self).file_tags.has_key(k2) ==> final (
                self).file_tags.spec_get(k2) == old(self).file_tags.spec_get(k2))),
    {
        self.file_tags.insert(name.to_owned(), FileTag { start: start_port, size, parts });
    }

    /// Serialise the file tags for `FILE TAGS-SET`.
    pub fn get_file_tags_entries(&self) -> (r: String)
        requires
            self.wf(),
        ensures
            r@ == crate::tags::spec_tags_str(self.file_tags),
    {
        crate::tags::serialize_tag_entries(&self.file_tags)
    }

    /// Replace the file tags with the parse of one wire line.
    pub fn set_file_tags_from_entries(&mut self, entries: &str)
        requires
            old(self).wf(),
        ensures
            final (self).wf(),
            *final (self) == (Node { file_tags: final (self).file_tags, ..*old(self) }),
            forall|k: Seq<char>|
                final (self).file_tags.has_key(k) == crate::kv::list_has_key(
                    crate::tags::spec_tag_list(entries@),
                    k,
                ),
            forall|k: Seq<char>|
                crate::kv::list_has_key(crate::tags::spec_tag_list(entries@), k) ==> final (
                self).file_tags.spec_get(k) == crate::kv::list_last_val(
                    crate::tags::spec_tag_list(entries@),
                    k,
                ),
    {
        self.file_tags = crate::tags::parse_tag_entries(entries);
    }

    /// Replace the netmap with the parse of one wire line.
    pub fn set_network_nodes_from_entries(&mut self, entries: &str)
        requires
            old(self).wf(),
        ensures
            final (self).wf(),
            *final (self) == (Node { network_nodes: final (self).network_nodes, ..*old(self) }),
            forall|k: Seq<char>|
                final (self).network_nodes.has_key(k) == crate::kv::list_has_key(
                    crate::netmap::spec_entry_list(entries@),
                    k,
                ),
            forall|k: Seq<char>|
                crate::kv::list_has_key(crate::netmap::spec_entry_list(entries@), k) ==> final (
                self).network_nodes.spec_get(k) == crate::kv::list_last_val(
                    crate::netmap::spec_entry_list(entries@),
                    k,
                ),
    {
        self.network_nodes = parse_entries(entries);
    }

    /// How many nodes this node knows of; at least one (itself).
    pub fn network_size(&self) -> (r: usize)
        ensures
            r == if self.network_nodes.spec_len() == 0 {
                1nat
            } else {
                self.network_nodes.spec_len()
            },
            r >= 1,
    {
        let n = self.network_nodes.len();
        if n == 0 {
            1
        } else {
            n
        }
    }

    /// The accumulator of a netmap hop: the incoming entries with
    /// this node's own port marked alive.
    pub fn entries_with_self(&self, entries: &str) -> (r: String)
        requires
            self.wf(),
        ensures
            exists|m: KvList<NodeStatus>|
                {
                    &&& m.wf()
                    &&& r@ == spec_entries_str(m)
                    &&& m.has_key(self.self_port())
                    &&& m.spec_get(self.self_port()) == NodeStatus::Alive
                    &&& forall|k: Seq<char>|
                        k != self.self_port() ==> (m.has_key(k) == crate::kv::list_has_key(
                            crate::netmap::spec_entry_list(entries@),
                            k,
                        ) && (m.has_key(k) ==> m.spec_get(k) == crate::kv::list_last_val(
                            crate::netmap::spec_entry_list(entries@),
                            k,
                        )))
                },
    {
        let mut m = parse_entries(entries);
        m.insert(crate::strutil::port_str(self.port.as_str()).to_owned(), NodeStatus::Alive);
        serialize_entries(&m)
    }

    /// Mark one port alive or dead.
    pub fn update_node_status(&mut self, port: String, status: NodeStatus)
        requires
            old(self).wf(),
        ensures
            final (self).wf(),
            *final (self) == (Node { network_nodes: final (self).network_nodes, ..*old(self) }),
            final (self).network_nodes.has_key(port@),
            final (self).network_nodes.spec_get(port@) == status,
            forall|k2: Seq<char>|
                k2 != port@ ==> (final (self).network_nodes.has_key(k2) == old(
                    self,
                ).network_nodes.has_key(k2) && (old(self).network_nodes.has_key(k2) ==> final (
                self).network_nodes.spec_get(k2) == old(self).network_nodes.spec_get(k2))),
    {
        self.network_nodes.insert(port, status);
    }

    /// The netmap in its wire form.
    pub fn get_network_nodes_entries(&self) -> (r: String)
        requires
            self.wf(),
        ensures
            r@ == spec_entries_str(self.network_nodes),
    {
        serialize_entries(&self.network_nodes)
    }

    /// Replace the topology map with the parse of one history line.
    pub fn set_topology_from_history(&mut self, history: &str)
        requires
            old(self).wf(),
        ensures
            final (self).wf(),
            *final (self) == (Node { topology_map: final (self).topology_map, ..*old(self) }),
            forall|k: Seq<char>|
                final (self).topology_map.has_key(k) == crate::kv::list_has_key(
                    crate::topology::spec_edge_list(history@),
                    k,
                ),
            forall|k: Seq<char>|
                crate::kv::list_has_key(crate::topology::spec_edge_list(history@), k) ==> final (
                self).topology_map.spec_get(k)@ == crate::kv::list_last_val(
                    crate::topology::spec_edge_list(history@),
                    k,
                ),
    {
        self.topology_map = crate::topology::parse_history(history);
    }

    /// The topology map in its wire form.
    pub fn get_topology_history(&self) -> (r: String)
        requires
            self.wf(),
        ensures
            r@ == crate::topology::spec_history_str(self.topology_map),
    {
        crate::topology::serialize_history(&self.topology_map)
    }

    /// The next hop of a specific node, from the stored topology.
    pub fn get_next_for_node(&self, port: &str) -> (r: Option<String>)
        requires
            self.wf(),
        ensures
            match r {
                Some(v) => self.topology_map.has_key(port@) && v@ == self.topology_map.spec_get(
                    port@,
                )@,
                None => !self.topology_map.has_key(port@),
            },
    {
        match self.topology_map.get(port) {
            Some(v) => Some(v.clone()),
            None => None,
        }
    }

    /// The first edge of a walk starting here: own port to successor.
    pub fn first_walk_history(&self) -> (r: Option<String>)
        ensures
            match r {
                Some(h) => self.next_port matches Some(n) && h@ == spec_append_edge(
                    Seq::empty(),
                    self.port@,
                    n@,
                ),
                None => self.next_port is None,
            },
    {
        match self.get_next() {
            Some(next) => Some(append_edge(String::new(), self.port.as_str(), next.as_str())),
            None => None,
        }
    }
}

/// Whether a token list holds `token`.
pub open spec fn token_known(toks: Seq<String>, token: Seq<char>) -> bool {
    exists|i: int| 0 <= i < toks.len() && toks[i]@ == token
}

/// Remove the first occurrence of `token`, saying whether it was there.
fn token_take(toks: &mut Vec<String>, token: &str) -> (r: bool)
    ensures
        r == token_known(old(toks)@, token@),
        !r ==> final (toks)@ == old(toks)@,
        r ==> exists|i: int|
            0 <= i < old(toks)@.len() && old(toks)@[i]@ == token@ && final (toks)@ == old(
                toks,
            )@.remove(i),
{
    let n = toks.len();
    let mut i: usize = 0;
    while i < n
        invariant
            i <= n,
            n == toks@.len(),
            toks@ == old(toks)@,
            forall|j: int| 0 <= j < i ==> toks@[j]@ != token@,
        decreases n - i,
    {
        if crate::strutil::str_eq(toks[i].as_str(), token) {
            toks.remove(i);
            return true;
        }
        i = i + 1;
    }
    false
}

/// `history` extended with the edge `from_port->to_port`, joined to
/// what is there by `;`.
pub open spec fn spec_append_edge(history: Seq<char>, from: Seq<char>, to: Seq<char>)
    -> Seq<char> {
    let edge = spec_port_str(from) + "->"@ + spec_port_str(to);
    if history.len() == 0 {
        edge
    } else {
        history + seq![';'] + edge
    }
}

/// Append the edge `from->to` (ports only) to a walk history.
pub fn append_edge(history: String, from_addr: &str, to_addr: &str) -> (r: String)
    ensures
        r@ == spec_append_edge(history@, from_addr@, to_addr@),
{
    let ghost h0 = history@;
    let mut edge = String::new();
    edge.append(crate::strutil::port_str(from_addr));
    edge.append("->");
    edge.append(crate::strutil::port_str(to_addr));
    if history.unicode_len() == 0 {
        proof {
            assert(edge@ =~= spec_append_edge(history@, from_addr@, to_addr@));
        }
        edge
    } else {
        let mut out = history;
        out.push(';');
        out.append(edge.as_str());
        proof {
            assert(out@ =~= spec_append_edge(h0, from_addr@, to_addr@));
        }
        out
    }
}

} // verus!
