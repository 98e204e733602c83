use ouroboros_fs::chunks::{fair_chunk_len, sum_len_up_to_inclusive};
use ouroboros_fs::files::{
    chunk_file_name, csv_escape, csv_unescape, node_dirs, node_file_path, sanitize_filename,
};
use ouroboros_fs::netmap::{parse_entries, serialize_entries};
use ouroboros_fs::tags::{parse_tag_entries, serialize_tag_entries};
use ouroboros_fs::protocol::Command;
use ouroboros_fs::topology::{parse_history, serialize_history};
use ouroboros_fs::NodeStatus;

#[test]
fn ten_bytes_over_three_nodes_split_four_three_three() {
    // the exact distribution of the scenario payload
    assert_eq!(fair_chunk_len(0, 10, 3), 4);
    assert_eq!(fair_chunk_len(1, 10, 3), 3);
    assert_eq!(fair_chunk_len(2, 10, 3), 3);
    assert_eq!(
        fair_chunk_len(0, 10, 3) + fair_chunk_len(1, 10, 3) + fair_chunk_len(2, 10, 3),
        10
    );
}

#[test]
fn chunk_lengths_sum_to_size() {
    for (size, parts) in [(0u64, 1u32), (1, 1), (7, 3), (10, 3), (100, 7), (5, 8)] {
        let mut sum = 0u64;
        for i in 0..parts {
            let len = fair_chunk_len(i, size, parts);
            assert!(len == size / parts as u64 || len == size / parts as u64 + 1);
            sum += len;
        }
        assert_eq!(sum, size);
        if parts >= 1 {
            assert_eq!(sum_len_up_to_inclusive(parts - 1, size, parts), size);
        }
    }
}

#[test]
fn sum_len_is_prefix_sum() {
    assert_eq!(sum_len_up_to_inclusive(0, 10, 3), 4);
    assert_eq!(sum_len_up_to_inclusive(1, 10, 3), 7);
    assert_eq!(sum_len_up_to_inclusive(2, 10, 3), 10);
}

#[test]
fn sanitize_replaces_every_separator() {
    assert_eq!(sanitize_filename("a/b\\c:d|e;f\ng\rh"), "a_b_c_d_e_f_g_h");
    assert_eq!(sanitize_filename("plain.txt"), "plain.txt");
    assert_eq!(sanitize_filename(""), "_");
    assert_eq!(sanitize_filename("\0"), "_");
}

#[test]
fn chunk_names_are_one_based_and_padded() {
    assert_eq!(chunk_file_name("data.bin", 0, 3), "data.bin.part-001-of-003");
    assert_eq!(chunk_file_name("data.bin", 2, 3), "data.bin.part-003-of-003");
    assert_eq!(chunk_file_name("a/b", 9, 120), "a_b.part-010-of-120");
    assert_eq!(chunk_file_name("x", 999, 1000), "x.part-1000-of-1000");
}

#[test]
fn node_paths_follow_the_layout() {
    assert_eq!(
        node_file_path("127.0.0.1:7000", "content", "c.part-001-of-003"),
        "nodes/7000/content/c.part-001-of-003"
    );
    let (content, backup) = node_dirs("127.0.0.1:7001");
    assert_eq!(content, "nodes/7001/content");
    assert_eq!(backup, "nodes/7001/backup");
}

#[test]
fn csv_escape_quotes_and_doubles() {
    assert_eq!(csv_escape("plain.txt"), "plain.txt");
    assert_eq!(csv_escape("a,b"), "\"a,b\"");
    assert_eq!(csv_escape("say \"hi\""), "\"say \"\"hi\"\"\"");
    assert_eq!(csv_escape("line\nbreak"), "\"line\nbreak\"");
}

#[test]
fn csv_escape_round_trips() {
    for name in ["plain.txt", "a,b", "say \"hi\"", "line\nbreak", "", "\"", "a\r\nb,c\"d"] {
        let enc = csv_escape(name);
        assert_eq!(csv_unescape(&enc).unwrap(), name);
    }
    // a lone inner quote cannot come from the encoder
    assert!(csv_unescape("\"a\"b\"").is_none());
}

#[test]
fn netmap_entries_parse_and_serialize_sorted() {
    let m = parse_entries("7001=Alive, 7000=Dead ,x,=y,7002=bogus");
    // keys come back sorted; an unknown or missing status reads as
    // Alive; an empty key is dropped
    assert_eq!(serialize_entries(&m), "7000=Dead,7001=Alive,7002=Alive,x=Alive");
}

#[test]
fn netmap_entries_last_wins() {
    let m = parse_entries("7000=Alive,7000=Dead");
    assert_eq!(serialize_entries(&m), "7000=Dead");
    let m2 = parse_entries("7000=dead");
    assert_eq!(serialize_entries(&m2), "7000=Dead");
    let m3 = parse_entries("");
    assert_eq!(serialize_entries(&m3), "");
}

#[test]
fn topology_history_parses_and_serializes() {
    let m = parse_history("7001->7002;7000->7001;;junk;7002->7000");
    assert_eq!(
        serialize_history(&m),
        "7000->7001;7001->7002;7002->7000"
    );
}

#[test]
fn tag_entries_round_trip() {
    let m = parse_tag_entries("b.bin:7001:20:2;a.bin:7000:10:3;bad;x:y:z:w");
    assert_eq!(
        serialize_tag_entries(&m),
        "a.bin:7000:10:3;b.bin:7001:20:2"
    );
    let a = m.get("a.bin").unwrap();
    assert_eq!(a.start, 7000);
    assert_eq!(a.size, 10);
    assert_eq!(a.parts, 3);
}

#[test]
fn tag_serialization_masks_separators_in_names() {
    let mut m = parse_tag_entries("");
    m.insert("a:b;c".to_string(), ouroboros_fs::FileTag { start: 7000, size: 1, parts: 1 });
    assert_eq!(serialize_tag_entries(&m), "a_b_c:7000:1:1");
}

#[test]
fn number_parsing_limits() {
    // the largest u64 still parses, one more does not
    assert_eq!(
        ouroboros_fs::parse_line("FILE PUSH 18446744073709551615 n").unwrap(),
        Command::FilePush { size: u64::MAX, name: "n".to_string() }
    );
    assert_eq!(
        ouroboros_fs::parse_line("FILE PUSH 18446744073709551616 n").unwrap_err(),
        "invalid size for FILE PUSH"
    );
}

#[test]
fn status_values_survive_a_round_trip() {
    let m = parse_entries("7000=Dead,7001=Alive");
    assert_eq!(*m.get("7000").unwrap(), NodeStatus::Dead);
    assert_eq!(*m.get("7001").unwrap(), NodeStatus::Alive);
    assert!(m.get("7002").is_none());
}

#[test]
fn normalize_addr_adds_loopback() {
    assert_eq!(ouroboros_fs::normalize_addr("7001".to_string()), "127.0.0.1:7001");
    assert_eq!(
        ouroboros_fs::normalize_addr("10.0.0.5:7001".to_string()),
        "10.0.0.5:7001"
    );
}

#[test]
fn host_helpers_split_addresses() {
    assert_eq!(ouroboros_fs::host_of("10.0.0.5:7001"), "10.0.0.5");
    assert_eq!(ouroboros_fs::host_of("7001"), "127.0.0.1");
    assert_eq!(ouroboros_fs::host_str("10.0.0.5:7001"), "10.0.0.5");
    assert_eq!(ouroboros_fs::host_str("7001"), "7001");
}

#[test]
fn listen_addr_priority() {
    assert_eq!(
        ouroboros_fs::server::resolve_listen_addr(Some("9.9.9.9:1".to_string()), Some(2), Some("3".to_string())),
        "9.9.9.9:1"
    );
    assert_eq!(ouroboros_fs::server::resolve_listen_addr(None, Some(2), Some("3".to_string())), "127.0.0.1:2");
    assert_eq!(ouroboros_fs::server::resolve_listen_addr(None, None, Some("3".to_string())), "127.0.0.1:3");
    assert_eq!(ouroboros_fs::server::resolve_listen_addr(None, None, None), "127.0.0.1:9000");
}

#[test]
fn ring_wiring_wraps_to_the_base() {
    assert_eq!(ouroboros_fs::server::ring_next_port(0, 3, 7000), 7001);
    assert_eq!(ouroboros_fs::server::ring_next_port(1, 3, 7000), 7002);
    assert_eq!(ouroboros_fs::server::ring_next_port(2, 3, 7000), 7000);
    assert_eq!(ouroboros_fs::server::ring_next_port(0, 1, 7000), 7000);
}

#[test]
fn walk_reply_skips_empty_segments() {
    assert_eq!(ouroboros_fs::server::walk_reply("7000->7001;;7001->7000"), "7000->7001\n7001->7000\nOK\n");
    assert_eq!(ouroboros_fs::server::walk_reply(""), "OK\n");
}

#[test]
fn append_edge_uses_ports_only() {
    let h = ouroboros_fs::append_edge(String::new(), "127.0.0.1:7000", "127.0.0.1:7001");
    assert_eq!(h, "7000->7001");
    let h2 = ouroboros_fs::append_edge(h, "127.0.0.1:7001", "127.0.0.1:7002");
    assert_eq!(h2, "7000->7001;7001->7002");
}

#[test]
fn backup_framing_is_big_endian() {
    let b = ouroboros_fs::server::u64_to_be_bytes(0x0102030405060708);
    assert_eq!(b, vec![1, 2, 3, 4, 5, 6, 7, 8]);
}
