//! A three-node ring driven entirely through the library's handlers:
//! the test plays the network, delivering every outbound line to its
//! addressee and keeping a per-node map in place of the disk.
use std::collections::HashMap;

use ouroboros_fs::server::{
    self, Action, HealStep, PullOutcome, PushPlan, RelayBlobPlan, RelayPlan,
};
use ouroboros_fs::{parse_line, Command, Node, NodeStatus};

struct Ring {
    nodes: Vec<Node>,
    alive: Vec<bool>,
    disk: HashMap<(usize, String), Vec<u8>>,
    walks: Vec<(String, String)>,
    heals: Vec<String>,
    files: Vec<String>,
}

fn addr_of(i: usize) -> String {
    format!("127.0.0.1:{}", 7000 + i)
}

fn idx_of(addr: &str) -> usize {
    let port: usize = addr.rsplit(':').next().unwrap().parse().unwrap();
    port - 7000
}

fn new_ring(n: usize) -> Ring {
    Ring {
        nodes: (0..n).map(|i| Node::new(addr_of(i), 5000)).collect(),
        alive: vec![true; n],
        disk: HashMap::new(),
        walks: Vec::new(),
        heals: Vec::new(),
        files: Vec::new(),
    }
}

fn wire(ring: &mut Ring) {
    let n = ring.nodes.len();
    for i in 0..n {
        let next = addr_of((i + 1) % n);
        let reply = dispatch(ring, i, &format!("NODE NEXT {}\n", next), &[]);
        assert_eq!(reply, format!("OK next={}\n", next));
    }
}

/// Store a freshly saved chunk and tell the predecessor, as the shell
/// does after every save.
fn save_chunk(ring: &mut Ring, i: usize, chunk_name: &str, data: &[u8]) {
    let path = ouroboros_fs::files::node_file_path(&addr_of(i), "content", chunk_name);
    ring.disk.insert((i, path), data.to_vec());
    if let Some(msg) = server::notify_predecessor_msg(&ring.nodes[i], chunk_name) {
        let j = idx_of(&msg.addr);
        if ring.alive[j] {
            dispatch(ring, j, &msg.line, &[]);
        }
    }
}

fn run_actions(ring: &mut Ring, i: usize, actions: Vec<Action>) {
    for a in actions {
        match a {
            Action::Send { addr, line } => {
                let j = idx_of(&addr);
                if ring.alive[j] {
                    dispatch(ring, j, &line, &[]);
                }
            }
            Action::HealCheck { token, start_addr } => heal_check(ring, i, &token, &start_addr),
            Action::AwaitWalk { .. } | Action::AwaitHeal { .. } => {}
            Action::CompleteWalk { token, history } => ring.walks.push((token, history)),
            Action::CompleteHeal { token } => ring.heals.push(token),
            Action::CompleteFile { token } => ring.files.push(token),
            Action::FetchBackup { from, name } => {
                // ask the successor for the chunk, framed by an
                // eight-byte big-endian length, and mirror it
                let j = idx_of(&from);
                let (path, _) = server::chunk_source(&ring.nodes[j], &name, false);
                let data = ring.disk.get(&(j, path)).cloned().unwrap_or_default();
                let framed = server::u64_to_be_bytes(data.len() as u64);
                let len = server::u64_from_be_bytes(&framed);
                if len > 0 {
                    let dst = ouroboros_fs::files::node_file_path(&addr_of(i), "backup", &name);
                    ring.disk.insert((i, dst), data);
                }
            }
        }
    }
}

fn heal_check(ring: &mut Ring, i: usize, token: &str, start_addr: &str) {
    match server::heal_step(&ring.nodes[i], token, start_addr) {
        HealStep::Stop => {}
        HealStep::Finish { addr, line } => {
            let j = idx_of(&addr);
            if ring.alive[j] {
                dispatch(ring, j, &line, &[]);
            }
        }
        HealStep::Check { next } => {
            let j = idx_of(&next);
            let healthy = ring.alive[j] && server::is_pong_reply("PONG\n");
            if !healthy {
                heal_dead(ring, i, &next);
            }
            let msg = server::heal_forward_msg(&next, token, start_addr);
            let k = idx_of(&msg.addr);
            if ring.alive[k] {
                dispatch(ring, k, &msg.line, &[]);
            }
        }
    }
}

/// The death workflow: mark dead, broadcast, respawn, mark alive,
/// share state, broadcast again.
fn heal_dead(ring: &mut Ring, i: usize, dead_addr: &str) {
    let dead_port = ouroboros_fs::port_str(dead_addr).to_string();
    ring.nodes[i].update_node_status(dead_port.clone(), NodeStatus::Dead);
    let acts = server::broadcast_netmap_update(&ring.nodes[i]);
    run_actions(ring, i, acts);
    let (full, argv) = server::respawn_plan(&ring.nodes[i], dead_addr);
    assert_eq!(argv[0], "run");
    assert_eq!(argv[1], "--addr");
    assert_eq!(argv[2], full);
    assert_eq!(argv[3], "--wait-time");
    let j = idx_of(&full);
    ring.nodes[j] = Node::new(full.clone(), 5000);
    ring.alive[j] = true;
    ring.nodes[i].update_node_status(dead_port, NodeStatus::Alive);
    let msgs = server::share_data_with_new_node(&ring.nodes[i], &full);
    for m in msgs {
        let k = idx_of(&m.addr);
        dispatch(ring, k, &m.line, &[]);
    }
    let acts = server::broadcast_netmap_update(&ring.nodes[i]);
    run_actions(ring, i, acts);
}

/// One wire command delivered to node `i`; `body` carries the raw
/// bytes that follow the header, if any.
fn dispatch(ring: &mut Ring, i: usize, line: &str, body: &[u8]) -> String {
    let cmd = parse_line(line).unwrap();
    match cmd {
        Command::NodeNext(a) => {
            let st = server::handle_node_next(&mut ring.nodes[i], a);
            run_actions(ring, i, st.actions);
            st.reply
        }
        Command::NodeStatus => server::handle_node_status(&ring.nodes[i]).reply,
        Command::NodePing => server::handle_node_ping().reply,
        Command::NodeHeal => {
            let st = server::handle_node_heal(&mut ring.nodes[i]);
            run_actions(ring, i, st.actions);
            st.reply
        }
        Command::NodeHealHop { token, start_addr } => {
            let st = server::handle_node_heal_hop(&token, &start_addr);
            run_actions(ring, i, st.actions);
            st.reply
        }
        Command::NodeHealDone { token } => {
            let st = server::handle_node_heal_done(&mut ring.nodes[i], &token);
            run_actions(ring, i, st.actions);
            st.reply
        }
        Command::RingForward { ttl, msg } => {
            let st = server::handle_ring_forward(&ring.nodes[i], ttl, &msg);
            run_actions(ring, i, st.actions);
            st.reply
        }
        Command::TopologyWalk => {
            let st = server::handle_topology_walk(&mut ring.nodes[i]);
            run_actions(ring, i, st.actions);
            st.reply
        }
        Command::TopologyHop { token, start_addr, history } => {
            let st = server::handle_topology_hop(&ring.nodes[i], &token, &start_addr, history);
            run_actions(ring, i, st.actions);
            st.reply
        }
        Command::TopologyDone { token, history } => {
            let st = server::handle_topology_done(&mut ring.nodes[i], &token, &history);
            run_actions(ring, i, st.actions);
            st.reply
        }
        Command::TopologySet { history } => {
            server::handle_topology_set(&mut ring.nodes[i], &history).reply
        }
        Command::NetmapDiscover => {
            let st = server::handle_netmap_discover(&mut ring.nodes[i]);
            run_actions(ring, i, st.actions);
            st.reply
        }
        Command::NetmapHop { token, start_addr, entries } => {
            let st = server::handle_netmap_hop(&ring.nodes[i], &token, &start_addr, &entries);
            run_actions(ring, i, st.actions);
            st.reply
        }
        Command::NetmapDone { entries, .. } => {
            let st = server::handle_netmap_done(&mut ring.nodes[i], &entries);
            run_actions(ring, i, st.actions);
            st.reply
        }
        Command::NetmapSet { entries } => {
            server::handle_netmap_set(&mut ring.nodes[i], &entries).reply
        }
        Command::NetmapGet => server::handle_netmap_get(&ring.nodes[i]).reply,
        Command::FileTagsSet { entries } => {
            server::handle_file_tags_set(&mut ring.nodes[i], &entries).reply
        }
        Command::FileList => server::handle_file_list_csv(&ring.nodes[i]).reply,
        Command::FileNotifyChunkSaved { name } => {
            let st = server::handle_file_notify_chunk_saved(&ring.nodes[i], &name);
            run_actions(ring, i, st.actions);
            st.reply
        }
        Command::FileRelayBlob { token, start_addr, size, name } => {
            let buf = body[..size as usize].to_vec();
            match server::plan_relay_blob(&mut ring.nodes[i], &token, &start_addr, size, &name) {
                RelayBlobPlan::AtStart { completed, reply } => {
                    if let Some(a) = completed {
                        run_actions(ring, i, vec![a]);
                    }
                    reply
                }
                RelayBlobPlan::Save { forward, reply } => {
                    save_chunk(ring, i, &name, &buf);
                    if let Some(msg) = forward {
                        let j = idx_of(&msg.addr);
                        if ring.alive[j] {
                            dispatch(ring, j, &msg.line, &buf);
                        }
                    }
                    reply
                }
            }
        }
        Command::FileRelayStream { token, start_addr, file_size, parts, index, name } => {
            match server::plan_relay_stream(
                &mut ring.nodes[i],
                &token,
                &start_addr,
                file_size,
                parts,
                index,
                &name,
            ) {
                RelayPlan::Bad { reply } => reply,
                RelayPlan::Store { my_len, chunk_name, forward, completed, reply, .. } => {
                    let mine = &body[..my_len as usize];
                    save_chunk(ring, i, &chunk_name, mine);
                    if let Some(msg) = forward {
                        let j = idx_of(&msg.addr);
                        if ring.alive[j] {
                            let rest = body[my_len as usize..].to_vec();
                            dispatch(ring, j, &msg.line, &rest);
                        }
                    }
                    if let Some(a) = completed {
                        run_actions(ring, i, vec![a]);
                    }
                    reply
                }
            }
        }
        other => panic!("the harness does not route {:?}", other),
    }
}

/// The shell's side of a pull: follow the plan, falling back to the
/// predecessor's backup when a node is down.
fn pull_bytes(ring: &mut Ring, i: usize, name: &str) -> Result<Vec<u8>, String> {
    match server::plan_pull(&ring.nodes[i], name) {
        PullOutcome::NotFound { reply } => Err(reply),
        PullOutcome::Steps { steps, .. } => {
            let mut out = Vec::new();
            for s in steps {
                let j = idx_of(&s.addr);
                let mut got: Option<Vec<u8>> = None;
                if ring.alive[j] {
                    let (path, _) = server::chunk_source(&ring.nodes[j], &s.chunk_name, false);
                    got = Some(ring.disk.get(&(j, path)).cloned().unwrap_or_default());
                } else {
                    let acts = server::pull_mark_dead(
                        &mut ring.nodes[i],
                        ouroboros_fs::port_str(&s.port),
                    );
                    run_actions(ring, i, acts);
                    if let Some(pa) = &s.pred_addr {
                        let k = idx_of(pa);
                        let (path, _) =
                            server::chunk_source(&ring.nodes[k], &s.chunk_name, true);
                        got = ring.disk.get(&(k, path)).cloned();
                    }
                }
                if let Some(bytes) = got {
                    out.extend_from_slice(&bytes);
                }
            }
            Ok(out)
        }
    }
}

fn push_ten_bytes(ring: &mut Ring) {
    let confirmed_before = ring.files.len();
    match server::plan_push(&mut ring.nodes[0], 10, "data.bin") {
        PushPlan::Stream { first_len, chunk_name, next, header, remaining, token, reply } => {
            let body = b"ABCDEFGHIJ";
            assert_eq!(first_len, 4);
            assert_eq!(remaining, 6);
            save_chunk(ring, 0, &chunk_name, &body[..4]);
            let j = idx_of(&next);
            dispatch(ring, j, &header, &body[4..]);
            // the loop's completion reached the origin's pending
            // table: only now may the client see its OK
            assert_eq!(ring.files.len(), confirmed_before + 1);
            assert_eq!(ring.files[confirmed_before], token);
            assert_eq!(reply, "FILE 10 bytes split into 3 chunks and distributed\nOK");
        }
        _ => panic!("a three-node push must stream"),
    }
}

fn full_setup() -> Ring {
    let mut ring = new_ring(3);
    wire(&mut ring);
    assert_eq!(dispatch(&mut ring, 0, "NETMAP DISCOVER\n", &[]), "OK\n");
    assert_eq!(dispatch(&mut ring, 0, "TOPOLOGY WALK\n", &[]), "");
    ring
}

#[test]
fn wire_and_walk_three_node_ring() {
    let mut ring = new_ring(3);
    wire(&mut ring);
    dispatch(&mut ring, 0, "TOPOLOGY WALK\n", &[]);
    assert_eq!(ring.walks.len(), 1);
    let (_, history) = &ring.walks[0];
    assert_eq!(history, "7000->7001;7001->7002;7002->7000");
    assert_eq!(
        server::walk_reply(history),
        "7000->7001\n7001->7002\n7002->7000\nOK\n"
    );
}

#[test]
fn netmap_discover_reaches_every_node() {
    let mut ring = new_ring(3);
    wire(&mut ring);
    assert_eq!(dispatch(&mut ring, 0, "NETMAP DISCOVER\n", &[]), "OK\n");
    for i in 0..3 {
        assert_eq!(
            dispatch(&mut ring, i, "NETMAP GET\n", &[]),
            "7000=Alive\n7001=Alive\n7002=Alive\nOK\n"
        );
    }
}

#[test]
fn walk_needs_a_successor() {
    let mut ring = new_ring(1);
    assert_eq!(
        dispatch(&mut ring, 0, "TOPOLOGY WALK\n", &[]),
        "ERR no next hop set\n"
    );
    assert_eq!(
        dispatch(&mut ring, 0, "NETMAP DISCOVER\n", &[]),
        "ERR no next hop set\n"
    );
}

#[test]
fn push_distributes_four_three_three() {
    let mut ring = full_setup();
    push_ten_bytes(&mut ring);
    let chunk = |i: usize, n: u32| {
        let name = ouroboros_fs::files::chunk_file_name("data.bin", n, 3);
        let path = ouroboros_fs::files::node_file_path(&addr_of(i), "content", &name);
        ring.disk.get(&(i, path)).cloned().unwrap()
    };
    assert_eq!(chunk(0, 0), b"ABCD");
    assert_eq!(chunk(1, 1), b"EFG");
    assert_eq!(chunk(2, 2), b"HIJ");
    // every node carries the same tag afterwards
    for i in 0..3 {
        assert_eq!(
            ouroboros_fs::tags::serialize_tag_entries(&ring.nodes[i].file_tags),
            "data.bin:7000:10:3"
        );
    }
    // the listing shows the header and one row, then the stream ends
    let st = server::handle_file_list_csv(&ring.nodes[1]);
    assert_eq!(st.reply, "name,start,size\ndata.bin,7000,10\n");
    assert!(st.close);
}

#[test]
fn pull_reassembles_the_payload() {
    let mut ring = full_setup();
    push_ten_bytes(&mut ring);
    let bytes = pull_bytes(&mut ring, 1, "data.bin").unwrap();
    assert_eq!(bytes, b"ABCDEFGHIJ");
}

#[test]
fn pull_unknown_file_is_an_error() {
    let mut ring = full_setup();
    assert_eq!(
        pull_bytes(&mut ring, 2, "missing.bin").unwrap_err(),
        "ERR file not found\n"
    );
}

#[test]
fn backups_mirror_each_chunk_at_the_predecessor() {
    let mut ring = full_setup();
    push_ten_bytes(&mut ring);
    let backup = |i: usize, n: u32| {
        let name = ouroboros_fs::files::chunk_file_name("data.bin", n, 3);
        let path = ouroboros_fs::files::node_file_path(&addr_of(i), "backup", &name);
        ring.disk.get(&(i, path)).cloned().unwrap()
    };
    // the predecessor of each owner holds its chunk
    assert_eq!(backup(2, 0), b"ABCD");
    assert_eq!(backup(0, 1), b"EFG");
    assert_eq!(backup(1, 2), b"HIJ");
}

#[test]
fn pull_survives_one_dead_node_through_backup() {
    let mut ring = full_setup();
    push_ten_bytes(&mut ring);
    ring.alive[1] = false;
    let bytes = pull_bytes(&mut ring, 0, "data.bin").unwrap();
    assert_eq!(bytes, b"ABCDEFGHIJ");
    // the puller marked the dead node and told the others
    assert_eq!(
        ouroboros_fs::serialize_entries(&ring.nodes[0].network_nodes),
        "7000=Alive,7001=Dead,7002=Alive"
    );
}

fn state_fingerprint(ring: &Ring) -> Vec<(String, String, String, Option<String>)> {
    ring.nodes
        .iter()
        .map(|n| {
            (
                ouroboros_fs::serialize_entries(&n.network_nodes),
                ouroboros_fs::topology::serialize_history(&n.topology_map),
                ouroboros_fs::tags::serialize_tag_entries(&n.file_tags),
                n.next_port.clone(),
            )
        })
        .collect()
}

#[test]
fn heal_on_a_healthy_ring_changes_nothing() {
    let mut ring = full_setup();
    push_ten_bytes(&mut ring);
    let before = state_fingerprint(&ring);
    dispatch(&mut ring, 0, "NODE HEAL\n", &[]);
    assert_eq!(ring.heals.len(), 1);
    assert_eq!(state_fingerprint(&ring), before);
    dispatch(&mut ring, 0, "NODE HEAL\n", &[]);
    assert_eq!(ring.heals.len(), 2);
    assert_eq!(state_fingerprint(&ring), before);
}

#[test]
fn heal_respawns_a_dead_node_and_restores_state() {
    let mut ring = full_setup();
    push_ten_bytes(&mut ring);
    // the node on 7001 dies; its successor pointer and state are gone
    ring.alive[1] = false;
    ring.nodes[1] = Node::new(addr_of(1), 5000);
    dispatch(&mut ring, 0, "NODE HEAL\n", &[]);
    assert_eq!(ring.heals.len(), 1);
    assert!(ring.alive[1]);
    // the respawned node was rewired to its old successor
    assert_eq!(ring.nodes[1].next_port.as_deref(), Some("127.0.0.1:7002"));
    // and it knows the netmap, the topology and the tags again
    assert_eq!(
        ouroboros_fs::serialize_entries(&ring.nodes[1].network_nodes),
        "7000=Alive,7001=Alive,7002=Alive"
    );
    assert_eq!(
        ouroboros_fs::topology::serialize_history(&ring.nodes[1].topology_map),
        "7000->7001;7001->7002;7002->7000"
    );
    assert_eq!(
        ouroboros_fs::tags::serialize_tag_entries(&ring.nodes[1].file_tags),
        "data.bin:7000:10:3"
    );
    // its chunk is gone from disk, but a pull still succeeds via the
    // predecessor's backup
    let bytes = pull_bytes(&mut ring, 0, "data.bin").unwrap();
    assert_eq!(bytes, b"ABCDEFGHIJ");
}

#[test]
fn single_node_push_stores_locally() {
    let mut ring = new_ring(1);
    match server::plan_push(&mut ring.nodes[0], 5, "solo.bin") {
        PushPlan::Local { store_name, reply } => {
            assert_eq!(store_name, "solo.bin");
            assert_eq!(reply, "FILE 5 'solo.bin' stored locally\nOK");
        }
        _ => panic!("a lone node stores locally"),
    }
}

#[test]
fn push_without_successor_fails_cleanly() {
    let mut ring = new_ring(3);
    // the node knows three peers but has no next pointer
    server::handle_netmap_set(
        &mut ring.nodes[0],
        "7000=Alive,7001=Alive,7002=Alive",
    );
    match server::plan_push(&mut ring.nodes[0], 10, "data.bin") {
        PushPlan::NoNext { reply } => assert_eq!(reply, "ERR no next hop set\n"),
        _ => panic!("without a successor the push must fail"),
    }
}

#[test]
fn push_keeps_only_the_last_path_segment() {
    let mut ring = new_ring(1);
    match server::plan_push(&mut ring.nodes[0], 1, "dir/sub/x.bin") {
        PushPlan::Local { store_name, .. } => assert_eq!(store_name, "x.bin"),
        _ => panic!("expected a local store"),
    }
    match server::plan_push(&mut ring.nodes[0], 1, "dir/") {
        PushPlan::Reject => {}
        _ => panic!("a name without a last segment is refused"),
    }
}

#[test]
fn relay_stream_rejects_a_bad_index() {
    let mut ring = new_ring(1);
    match server::plan_relay_stream(&mut ring.nodes[0], "t", "127.0.0.1:7000", 10, 3, 3, "n") {
        RelayPlan::Bad { reply } => assert_eq!(reply, "ERR bad FILE RELAY-STREAM index\n"),
        _ => panic!("an index past the part count is an error"),
    }
}

#[test]
fn node_status_reports_port_and_next() {
    let mut ring = new_ring(2);
    assert_eq!(
        dispatch(&mut ring, 0, "NODE STATUS\n", &[]),
        "PORT 127.0.0.1:7000\nNEXT <unset>\nOK\n"
    );
    wire(&mut ring);
    assert_eq!(
        dispatch(&mut ring, 0, "NODE STATUS\n", &[]),
        "PORT 127.0.0.1:7000\nNEXT 127.0.0.1:7001\nOK\n"
    );
    assert_eq!(dispatch(&mut ring, 0, "NODE PING\n", &[]), "PONG\n");
}

#[test]
fn netmap_get_on_a_fresh_node_is_empty() {
    let mut ring = new_ring(1);
    assert_eq!(dispatch(&mut ring, 0, "NETMAP GET\n", &[]), "(empty)\nOK\n");
}

#[test]
fn ring_forward_decrements_the_ttl() {
    let mut ring = new_ring(3);
    wire(&mut ring);
    // a forward with ttl 5 circles without error and acknowledges
    assert_eq!(dispatch(&mut ring, 0, "RING FORWARD 5 hi\n", &[]), "OK\n");
}

#[test]
fn pull_truncates_on_a_broken_topology() {
    let mut ring = full_setup();
    push_ten_bytes(&mut ring);
    // drop the middle edge of the puller's topology: the walk cannot
    // pass 7001, so only the first two chunks are reachable
    server::handle_topology_set(&mut ring.nodes[0], "7000->7001;7002->7000");
    let bytes = pull_bytes(&mut ring, 0, "data.bin").unwrap();
    assert_eq!(bytes, b"ABCDEFG");
}

#[test]
fn netmap_set_overwrites_previous_state() {
    let mut ring = full_setup();
    assert_eq!(
        dispatch(&mut ring, 2, "NETMAP SET 7000=Dead,7001=Alive\n", &[]),
        "OK\n"
    );
    assert_eq!(
        dispatch(&mut ring, 2, "NETMAP GET\n", &[]),
        "7000=Dead\n7001=Alive\nOK\n"
    );
}

#[test]
fn tags_set_replaces_the_tag_table() {
    let mut ring = new_ring(1);
    assert_eq!(
        dispatch(&mut ring, 0, "FILE TAGS-SET b.bin:7001:20:2;a.bin:7000:10:3\n", &[]),
        "OK\n"
    );
    assert_eq!(
        dispatch(&mut ring, 0, "FILE LIST\n", &[]),
        "name,start,size\na.bin,7000,10\nb.bin,7001,20\n"
    );
}

#[test]
fn relay_blob_circles_and_stops_at_its_origin() {
    let mut ring = full_setup();
    // a blob arriving at a node that is not the origin is stored and
    // passed on unchanged
    match server::plan_relay_blob(&mut ring.nodes[1], "t1", "127.0.0.1:7000", 3, "b.bin") {
        server::RelayBlobPlan::Save { forward, reply } => {
            assert_eq!(reply, "OK\n");
            let msg = forward.unwrap();
            assert_eq!(msg.addr, "127.0.0.1:7002");
            assert_eq!(msg.line, "FILE RELAY-BLOB t1 127.0.0.1:7000 3 b.bin\n");
        }
        _ => panic!("a non-origin node stores and forwards"),
    }
    // back at the origin the loop ends without another forward
    match server::plan_relay_blob(&mut ring.nodes[0], "t1", "127.0.0.1:7000", 3, "b.bin") {
        server::RelayBlobPlan::AtStart { completed, reply } => {
            assert_eq!(reply, "OK\n");
            assert!(completed.is_none());
        }
        _ => panic!("the origin closes the loop"),
    }
}
