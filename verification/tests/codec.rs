use ouroboros_fs::protocol::Command;
use ouroboros_fs::{parse_line, port_str};

#[test]
fn parse_node_next_basic() {
    let r = parse_line("NODE NEXT 127.0.0.1:7001\r\n").unwrap();
    assert_eq!(r, Command::NodeNext("127.0.0.1:7001".to_string()));
}

#[test]
fn parse_is_case_insensitive_on_noun_and_verb() {
    let r = parse_line("node next 127.0.0.1:7001\n").unwrap();
    assert_eq!(r, Command::NodeNext("127.0.0.1:7001".to_string()));
    assert_eq!(parse_line("NoDe PiNg").unwrap(), Command::NodePing);
    assert_eq!(parse_line("topology walk").unwrap(), Command::TopologyWalk);
}

#[test]
fn parse_node_next_missing_address() {
    let e = parse_line("NODE NEXT   \n").unwrap_err();
    assert_eq!(e, "missing address for NODE NEXT");
}

#[test]
fn parse_unknown_namespace() {
    let e = parse_line("bogus cmd\n").unwrap_err();
    assert_eq!(e, "unknown command namespace: 'BOGUS'");
}

#[test]
fn parse_unknown_verbs() {
    assert_eq!(parse_line("NODE FLY").unwrap_err(), "unknown NODE command");
    assert_eq!(parse_line("RING X").unwrap_err(), "unknown RING command");
    assert_eq!(
        parse_line("TOPOLOGY X").unwrap_err(),
        "unknown TOPOLOGY command"
    );
    assert_eq!(parse_line("NETMAP X").unwrap_err(), "unknown NETMAP command");
    assert_eq!(parse_line("FILE X").unwrap_err(), "unknown FILE command");
}

#[test]
fn parse_ring_forward() {
    let r = parse_line("RING FORWARD 3 hello world\n").unwrap();
    assert_eq!(
        r,
        Command::RingForward {
            ttl: 3,
            msg: "hello world".to_string()
        }
    );
    assert_eq!(
        parse_line("RING FORWARD x msg").unwrap_err(),
        "invalid ttl for RING FORWARD"
    );
}

#[test]
fn parse_topology_hop_done_set() {
    assert_eq!(
        parse_line("TOPOLOGY HOP tok1 127.0.0.1:7000 7000->7001\n").unwrap(),
        Command::TopologyHop {
            token: "tok1".to_string(),
            start_addr: "127.0.0.1:7000".to_string(),
            history: "7000->7001".to_string(),
        }
    );
    assert_eq!(
        parse_line("TOPOLOGY HOP  x h").unwrap_err(),
        "malformed TOPOLOGY HOP"
    );
    assert_eq!(
        parse_line("TOPOLOGY DONE tok1 7000->7001;7001->7000\n").unwrap(),
        Command::TopologyDone {
            token: "tok1".to_string(),
            history: "7000->7001;7001->7000".to_string(),
        }
    );
    assert_eq!(
        parse_line("TOPOLOGY SET 7000->7001\n").unwrap(),
        Command::TopologySet {
            history: "7000->7001".to_string()
        }
    );
}

#[test]
fn parse_netmap_commands() {
    assert_eq!(parse_line("NETMAP DISCOVER").unwrap(), Command::NetmapDiscover);
    assert_eq!(parse_line("NETMAP GET\n").unwrap(), Command::NetmapGet);
    assert_eq!(
        parse_line("NETMAP SET  7000=Alive,7001=Dead \n").unwrap(),
        Command::NetmapSet {
            entries: "7000=Alive,7001=Dead".to_string()
        }
    );
    assert_eq!(
        parse_line("NETMAP HOP t 127.0.0.1:7000 7000=Alive").unwrap(),
        Command::NetmapHop {
            token: "t".to_string(),
            start_addr: "127.0.0.1:7000".to_string(),
            entries: "7000=Alive".to_string(),
        }
    );
    assert_eq!(
        parse_line("NETMAP DONE t 7000=Alive").unwrap(),
        Command::NetmapDone {
            token: "t".to_string(),
            entries: "7000=Alive".to_string(),
        }
    );
    assert_eq!(parse_line("NETMAP DONE  ").unwrap_err(), "malformed NETMAP DONE");
    assert_eq!(parse_line("NETMAP HOP t ").unwrap_err(), "malformed NETMAP HOP");
}

#[test]
fn parse_file_push_and_errors() {
    assert_eq!(
        parse_line("FILE PUSH 10 data.bin\n").unwrap(),
        Command::FilePush {
            size: 10,
            name: "data.bin".to_string()
        }
    );
    assert_eq!(
        parse_line("FILE PUSH 10").unwrap_err(),
        "missing file name for FILE PUSH"
    );
    assert_eq!(
        parse_line("FILE PUSH ten data.bin").unwrap_err(),
        "invalid size for FILE PUSH"
    );
    // a name with spaces is greedy
    assert_eq!(
        parse_line("FILE PUSH 3 a b c").unwrap(),
        Command::FilePush {
            size: 3,
            name: "a b c".to_string()
        }
    );
}

#[test]
fn parse_file_pull_list_tags() {
    assert_eq!(
        parse_line("FILE PULL data.bin\n").unwrap(),
        Command::FilePull {
            name: "data.bin".to_string()
        }
    );
    assert_eq!(
        parse_line("FILE PULL  \n").unwrap_err(),
        "missing file name for FILE PULL"
    );
    assert_eq!(parse_line("FILE LIST\n").unwrap(), Command::FileList);
    assert_eq!(
        parse_line("FILE TAGS-SET a:7000:10:3\n").unwrap(),
        Command::FileTagsSet {
            entries: "a:7000:10:3".to_string()
        }
    );
}

#[test]
fn parse_file_relay_stream() {
    assert_eq!(
        parse_line("FILE RELAY-STREAM file-127.0.0.1:7000-1 127.0.0.1:7000 10 3 1 data.bin\n")
            .unwrap(),
        Command::FileRelayStream {
            token: "file-127.0.0.1:7000-1".to_string(),
            start_addr: "127.0.0.1:7000".to_string(),
            file_size: 10,
            parts: 3,
            index: 1,
            name: "data.bin".to_string(),
        }
    );
    assert_eq!(
        parse_line("FILE RELAY-STREAM t s x 3 1 n").unwrap_err(),
        "invalid file_size for FILE RELAY-STREAM"
    );
    assert_eq!(
        parse_line("FILE RELAY-STREAM t s 10 x 1 n").unwrap_err(),
        "invalid parts for FILE RELAY-STREAM"
    );
    assert_eq!(
        parse_line("FILE RELAY-STREAM t s 10 3 x n").unwrap_err(),
        "invalid index for FILE RELAY-STREAM"
    );
    assert_eq!(
        parse_line("FILE RELAY-STREAM t s 10").unwrap_err(),
        "malformed FILE RELAY-STREAM"
    );
}

#[test]
fn parse_file_relay_blob() {
    assert_eq!(
        parse_line("FILE RELAY-BLOB t 127.0.0.1:7000 5 n.bin").unwrap(),
        Command::FileRelayBlob {
            token: "t".to_string(),
            start_addr: "127.0.0.1:7000".to_string(),
            size: 5,
            name: "n.bin".to_string(),
        }
    );
    assert_eq!(
        parse_line("FILE RELAY-BLOB t s x n").unwrap_err(),
        "invalid size for FILE RELAY-BLOB"
    );
    assert_eq!(
        parse_line("FILE RELAY-BLOB t s 5").unwrap_err(),
        "malformed FILE RELAY-BLOB"
    );
}

#[test]
fn parse_backup_commands() {
    assert_eq!(
        parse_line("FILE NOTIFY-CHUNK-SAVED c.part-001-of-003\n").unwrap(),
        Command::FileNotifyChunkSaved {
            name: "c.part-001-of-003".to_string()
        }
    );
    assert_eq!(
        parse_line("FILE GET-CHUNK-FOR-BACKUP c.part-001-of-003").unwrap(),
        Command::FileGetChunkForBackup {
            name: "c.part-001-of-003".to_string()
        }
    );
    assert_eq!(
        parse_line("FILE GET-BACKUP-CHUNK c.part-001-of-003").unwrap(),
        Command::FileGetBackupChunk {
            name: "c.part-001-of-003".to_string()
        }
    );
    assert_eq!(
        parse_line("FILE GET-CHUNK c.part-001-of-003").unwrap(),
        Command::FileGetChunk {
            name: "c.part-001-of-003".to_string()
        }
    );
    assert_eq!(
        parse_line("FILE GET-CHUNK  ").unwrap_err(),
        "missing file name for FILE GET-CHUNK"
    );
}

#[test]
fn parse_heal_commands() {
    assert_eq!(parse_line("NODE HEAL\n").unwrap(), Command::NodeHeal);
    assert_eq!(
        parse_line("NODE HEAL-HOP t 127.0.0.1:7000\n").unwrap(),
        Command::NodeHealHop {
            token: "t".to_string(),
            start_addr: "127.0.0.1:7000".to_string(),
        }
    );
    assert_eq!(
        parse_line("NODE HEAL-DONE t\n").unwrap(),
        Command::NodeHealDone {
            token: "t".to_string()
        }
    );
    assert_eq!(parse_line("NODE HEAL-HOP t ").unwrap_err(), "malformed NODE HEAL-HOP");
    assert_eq!(parse_line("NODE HEAL-DONE ").unwrap_err(), "malformed NODE HEAL-DONE");
}

#[test]
fn parse_node_status_and_ping() {
    assert_eq!(parse_line("NODE STATUS\n").unwrap(), Command::NodeStatus);
    assert_eq!(parse_line("NODE PING\n").unwrap(), Command::NodePing);
}

#[test]
fn port_str_takes_text_after_last_colon() {
    assert_eq!(port_str("127.0.0.1:7000"), "7000");
    assert_eq!(port_str("7000"), "7000");
    assert_eq!(port_str("[a:b]:9"), "9");
}

#[test]
fn resp_chunk_header_round_trips() {
    let h = ouroboros_fs::server::resp_chunk_header("127.0.0.1:7001", 4, "c.part-001-of-003");
    assert_eq!(h, "FILE RESP-CHUNK 127.0.0.1:7001 4 c.part-001-of-003\n");
    let (next, size, name) = ouroboros_fs::server::parse_resp_chunk(&h).unwrap();
    assert_eq!(next, "127.0.0.1:7001");
    assert_eq!(size, 4);
    assert_eq!(name, "c.part-001-of-003");
    assert!(ouroboros_fs::server::parse_resp_chunk("OK\n").is_none());
}

#[test]
fn backup_length_framing_round_trips() {
    let b = ouroboros_fs::server::u64_to_be_bytes(77777);
    assert_eq!(b.len(), 8);
    assert_eq!(ouroboros_fs::server::u64_from_be_bytes(&b), 77777);
    let z = ouroboros_fs::server::u64_to_be_bytes(0);
    assert_eq!(z, vec![0u8; 8]);
}
