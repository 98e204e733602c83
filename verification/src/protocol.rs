//! Line-based text protocol for the ring: one newline-terminated
//! header per command, `NOUN VERB [params...]`, noun and verb
//! case-insensitive, the last parameter greedy where noted. Any raw
//! body follows the header line and is exactly as long as the header
//! declares.
use vstd::prelude::*;

use crate::strutil::{
    dec_str, spec_parse_u32, spec_parse_u64, spec_split_head, spec_split_rest, spec_trim,
    spec_trim_crlf, spec_upper, spec_upper_str, parse_u32, parse_u64, split_first, str_eq, trim,
    trim_crlf, upper_str,
};

verus! {

/// Parsed representation of a command line.
#[derive(Debug, Clone, PartialEq, Eq)]
pub enum Command {
    NodeNext(String),
    NodeStatus,
    NodePing,
    NodeHeal,
    NodeHealHop { token: String, start_addr: String },
    NodeHealDone { token: String },
    RingForward { ttl: u32, msg: String },
    TopologyWalk,
    TopologyHop { token: String, start_addr: String, history: String },
    TopologyDone { token: String, history: String },
    TopologySet { history: String },
    NetmapDiscover,
    NetmapHop { token: String, start_addr: String, entries: String },
    NetmapDone { token: String, entries: String },
    NetmapSet { entries: String },
    NetmapGet,
    FilePush { size: u64, name: String },
    FilePull { name: String },
    FileList,
    FileTagsSet { entries: String },
    FileRelayBlob { token: String, start_addr: String, size: u64, name: String },
    FileRelayStream {
        token: String,
        start_addr: String,
        file_size: u64,
        parts: u32,
        index: u32,
        name: String,
    },
    FileGetChunk { name: String },
    FileNotifyChunkSaved { name: String },
    FileGetChunkForBackup { name: String },
    FileGetBackupChunk { name: String },
}

/// The mathematical shape of a command: the same variants over
/// character sequences.
pub enum CommandView {
    NodeNext(Seq<char>),
    NodeStatus,
    NodePing,
    NodeHeal,
    NodeHealHop { token: Seq<char>, start_addr: Seq<char> },
    NodeHealDone { token: Seq<char> },
    RingForward { ttl: u32, msg: Seq<char> },
    TopologyWalk,
    TopologyHop { token: Seq<char>, start_addr: Seq<char>, history: Seq<char> },
    TopologyDone { token: Seq<char>, history: Seq<char> },
    TopologySet { history: Seq<char> },
    NetmapDiscover,
    NetmapHop { token: Seq<char>, start_addr: Seq<char>, entries: Seq<char> },
    NetmapDone { token: Seq<char>, entries: Seq<char> },
    NetmapSet { entries: Seq<char> },
    NetmapGet,
    FilePush { size: u64, name: Seq<char> },
    FilePull { name: Seq<char> },
    FileList,
    FileTagsSet { entries: Seq<char> },
    FileRelayBlob { token: Seq<char>, start_addr: Seq<char>, size: u64, name: Seq<char> },
    FileRelayStream {
        token: Seq<char>,
        start_addr: Seq<char>,
        file_size: u64,
        parts: u32,
        index: u32,
        name: Seq<char>,
    },
    FileGetChunk { name: Seq<char> },
    FileNotifyChunkSaved { name: Seq<char> },
    FileGetChunkForBackup { name: Seq<char> },
    FileGetBackupChunk { name: Seq<char> },
}

impl View for Command {
    type V = CommandView;

    closed spec fn view(&self) -> CommandView {
        match self {
            Command::NodeNext(a) => CommandView::NodeNext(a@),
            Command::NodeStatus => CommandView::NodeStatus,
            Command::NodePing => CommandView::NodePing,
            Command::NodeHeal => CommandView::NodeHeal,
            Command::NodeHealHop { token, start_addr } => CommandView::NodeHealHop {
                token: token@,
                start_addr: start_addr@,
            },
            Command::NodeHealDone { token } => CommandView::NodeHealDone { token: token@ },
            Command::RingForward { ttl, msg } => CommandView::RingForward {
                ttl: *ttl,
                msg: msg@,
            },
            Command::TopologyWalk => CommandView::TopologyWalk,
            Command::TopologyHop { token, start_addr, history } => CommandView::TopologyHop {
                token: token@,
                start_addr: start_addr@,
                history: history@,
            },
            Command::TopologyDone { token, history } => CommandView::TopologyDone {
                token: token@,
                history: history@,
            },
            Command::TopologySet { history } => CommandView::TopologySet { history: history@ },
            Command::NetmapDiscover => CommandView::NetmapDiscover,
            Command::NetmapHop { token, start_addr, entries } => CommandView::NetmapHop {
                token: token@,
                start_addr: start_addr@,
                entries: entries@,
            },
            Command::NetmapDone { token, entries } => CommandView::NetmapDone {
                token: token@,
                entries: entries@,
            },
            Command::NetmapSet { entries } => CommandView::NetmapSet { entries: entries@ },
            Command::NetmapGet => CommandView::NetmapGet,
            Command::FilePush { size, name } => CommandView::FilePush {
                size: *size,
                name: name@,
            },
            Command::FilePull { name } => CommandView::FilePull { name: name@ },
            Command::FileList => CommandView::FileList,
            Command::FileTagsSet { entries } => CommandView::FileTagsSet { entries: entries@ },
            Command::FileRelayBlob { token, start_addr, size, name } => CommandView::FileRelayBlob {
                token: token@,
                start_addr: start_addr@,
                size: *size,
                name: name@,
            },
            Command::FileRelayStream {
                token,
                start_addr,
                file_size,
                parts,
                index,
                name,
            } => CommandView::FileRelayStream {
                token: token@,
                start_addr: start_addr@,
                file_size: *file_size,
                parts: *parts,
                index: *index,
                name: name@,
            },
            Command::FileGetChunk { name } => CommandView::FileGetChunk { name: name@ },
            Command::FileNotifyChunkSaved { name } => CommandView::FileNotifyChunkSaved {
                name: name@,
            },
            Command::FileGetChunkForBackup { name } => CommandView::FileGetChunkForBackup {
                name: name@,
            },
            Command::FileGetBackupChunk { name } => CommandView::FileGetBackupChunk {
                name: name@,
            },
        }
    }
}

// ---------- the grammar, as spec functions ----------

pub open spec fn spec_parse_node_cmd(rest: Seq<char>) -> Result<CommandView, Seq<char>> {
    let verb = spec_upper_str(spec_split_head(rest, ' '));
    let args = spec_split_rest(rest, ' ');
    if verb == "NEXT"@ {
        let addr = spec_trim(args);
        if addr.len() == 0 {
            Err("missing address for NODE NEXT"@)
        } else {
            Ok(CommandView::NodeNext(addr))
        }
    } else if verb == "STATUS"@ {
        Ok(CommandView::NodeStatus)
    } else if verb == "PING"@ {
        Ok(CommandView::NodePing)
    } else if verb == "HEAL"@ {
        Ok(CommandView::NodeHeal)
    } else if verb == "HEAL-HOP"@ {
        let token = spec_trim(spec_split_head(args, ' '));
        let start_addr = spec_trim(spec_split_rest(args, ' '));
        if token.len() == 0 || start_addr.len() == 0 {
            Err("malformed NODE HEAL-HOP"@)
        } else {
            Ok(CommandView::NodeHealHop { token, start_addr })
        }
    } else if verb == "HEAL-DONE"@ {
        let token = spec_trim(args);
        if token.len() == 0 {
            Err("malformed NODE HEAL-DONE"@)
        } else {
            Ok(CommandView::NodeHealDone { token })
        }
    } else {
        Err("unknown NODE command"@)
    }
}

pub open spec fn spec_parse_ring_cmd(rest: Seq<char>) -> Result<CommandView, Seq<char>> {
    let verb = spec_upper_str(spec_split_head(rest, ' '));
    let args = spec_split_rest(rest, ' ');
    if verb == "FORWARD"@ {
        let ttl_str = spec_trim(spec_split_head(args, ' '));
        let msg = spec_split_rest(args, ' ');
        match spec_parse_u32(ttl_str) {
            Some(ttl) => Ok(CommandView::RingForward { ttl, msg }),
            None => Err("invalid ttl for RING FORWARD"@),
        }
    } else {
        Err("unknown RING command"@)
    }
}

pub open spec fn spec_parse_topology_cmd(rest: Seq<char>) -> Result<CommandView, Seq<char>> {
    let verb = spec_upper_str(spec_split_head(rest, ' '));
    let args = spec_split_rest(rest, ' ');
    if verb == "WALK"@ {
        Ok(CommandView::TopologyWalk)
    } else if verb == "HOP"@ {
        let token = spec_trim(spec_split_head(args, ' '));
        let r1 = spec_split_rest(args, ' ');
        let start_addr = spec_trim(spec_split_head(r1, ' '));
        let history = spec_split_rest(r1, ' ');
        if token.len() == 0 || start_addr.len() == 0 {
            Err("malformed TOPOLOGY HOP"@)
        } else {
            Ok(CommandView::TopologyHop { token, start_addr, history })
        }
    } else if verb == "DONE"@ {
        let token = spec_trim(spec_split_head(args, ' '));
        let history = spec_split_rest(args, ' ');
        if token.len() == 0 {
            Err("malformed TOPOLOGY DONE"@)
        } else {
            Ok(CommandView::TopologyDone { token, history })
        }
    } else if verb == "SET"@ {
        Ok(CommandView::TopologySet { history: args })
    } else {
        Err("unknown TOPOLOGY command"@)
    }
}

pub open spec fn spec_parse_netmap_cmd(rest: Seq<char>) -> Result<CommandView, Seq<char>> {
    let verb = spec_upper_str(spec_split_head(rest, ' '));
    let args = spec_split_rest(rest, ' ');
    if verb == "DISCOVER"@ {
        Ok(CommandView::NetmapDiscover)
    } else if verb == "HOP"@ {
        let token = spec_trim(spec_split_head(args, ' '));
        let r1 = spec_split_rest(args, ' ');
        let start_addr = spec_trim(spec_split_head(r1, ' '));
        let entries = spec_split_rest(r1, ' ');
        if token.len() == 0 || start_addr.len() == 0 {
            Err("malformed NETMAP HOP"@)
        } else {
            Ok(CommandView::NetmapHop { token, start_addr, entries })
        }
    } else if verb == "DONE"@ {
        let token = spec_trim(spec_split_head(args, ' '));
        let entries = spec_split_rest(args, ' ');
        if token.len() == 0 {
            Err("malformed NETMAP DONE"@)
        } else {
            Ok(CommandView::NetmapDone { token, entries })
        }
    } else if verb == "SET"@ {
        Ok(CommandView::NetmapSet { entries: spec_trim(args) })
    } else if verb == "GET"@ {
        Ok(CommandView::NetmapGet)
    } else {
        Err("unknown NETMAP command"@)
    }
}

pub open spec fn spec_parse_file_cmd(rest: Seq<char>) -> Result<CommandView, Seq<char>> {
    let verb = spec_upper_str(spec_split_head(rest, ' '));
    let args = spec_split_rest(rest, ' ');
    if verb == "PUSH"@ {
        let size_str = spec_trim(spec_split_head(args, ' '));
        let name = spec_split_rest(args, ' ');
        if name.len() == 0 {
            Err("missing file name for FILE PUSH"@)
        } else {
            match spec_parse_u64(size_str) {
                Some(size) => Ok(CommandView::FilePush { size, name }),
                None => Err("invalid size for FILE PUSH"@),
            }
        }
    } else if verb == "PULL"@ {
        if spec_trim(args).len() == 0 {
            Err("missing file name for FILE PULL"@)
        } else {
            Ok(CommandView::FilePull { name: args })
        }
    } else if verb == "LIST"@ {
        Ok(CommandView::FileList)
    } else if verb == "TAGS-SET"@ {
        Ok(CommandView::FileTagsSet { entries: args })
    } else if verb == "GET-CHUNK"@ {
        if spec_trim(args).len() == 0 {
            Err("missing file name for FILE GET-CHUNK"@)
        } else {
            Ok(CommandView::FileGetChunk { name: args })
        }
    } else if verb == "RELAY-BLOB"@ {
        let token = spec_trim(spec_split_head(args, ' '));
        let r1 = spec_split_rest(args, ' ');
        let start_addr = spec_trim(spec_split_head(r1, ' '));
        let r2 = spec_split_rest(r1, ' ');
        let size_str = spec_trim(spec_split_head(r2, ' '));
        let name = spec_split_rest(r2, ' ');
        if token.len() == 0 || start_addr.len() == 0 || name.len() == 0 {
            Err("malformed FILE RELAY-BLOB"@)
        } else {
            match spec_parse_u64(size_str) {
                Some(size) => Ok(CommandView::FileRelayBlob { token, start_addr, size, name }),
                None => Err("invalid size for FILE RELAY-BLOB"@),
            }
        }
    } else if verb == "RELAY-STREAM"@ {
        let token = spec_trim(spec_split_head(args, ' '));
        let r1 = spec_split_rest(args, ' ');
        let start_addr = spec_trim(spec_split_head(r1, ' '));
        let r2 = spec_split_rest(r1, ' ');
        let size_str = spec_trim(spec_split_head(r2, ' '));
        let r3 = spec_split_rest(r2, ' ');
        let parts_str = spec_trim(spec_split_head(r3, ' '));
        let r4 = spec_split_rest(r3, ' ');
        let index_str = spec_trim(spec_split_head(r4, ' '));
        let name = spec_split_rest(r4, ' ');
        if token.len() == 0 || start_addr.len() == 0 || name.len() == 0 {
            Err("malformed FILE RELAY-STREAM"@)
        } else {
            match spec_parse_u64(size_str) {
                Some(file_size) => match spec_parse_u32(parts_str) {
                    Some(parts) => match spec_parse_u32(index_str) {
                        Some(index) => Ok(
                            CommandView::FileRelayStream {
                                token,
                                start_addr,
                                file_size,
                                parts,
                                index,
                                name,
                            },
                        ),
                        None => Err("invalid index for FILE RELAY-STREAM"@),
                    },
                    None => Err("invalid parts for FILE RELAY-STREAM"@),
                },
                None => Err("invalid file_size for FILE RELAY-STREAM"@),
            }
        }
    } else if verb == "NOTIFY-CHUNK-SAVED"@ {
        if spec_trim(args).len() == 0 {
            Err("missing file name for FILE NOTIFY-CHUNK-SAVED"@)
        } else {
            Ok(CommandView::FileNotifyChunkSaved { name: args })
        }
    } else if verb == "GET-CHUNK-FOR-BACKUP"@ {
        if spec_trim(args).len() == 0 {
            Err("missing file name for FILE GET-CHUNK-FOR-BACKUP"@)
        } else {
            Ok(CommandView::FileGetChunkForBackup { name: args })
        }
    } else if verb == "GET-BACKUP-CHUNK"@ {
        if spec_trim(args).len() == 0 {
            Err("missing file name for FILE GET-BACKUP-CHUNK"@)
        } else {
            Ok(CommandView::FileGetBackupChunk { name: args })
        }
    } else {
        Err("unknown FILE command"@)
    }
}

/// The whole grammar: trailing line breaks dropped, the noun picked
/// off, the rest handed to that noun's parser.
pub open spec fn spec_parse_line(line: Seq<char>) -> Result<CommandView, Seq<char>> {
    let t = spec_trim_crlf(line);
    let noun = spec_upper_str(spec_split_head(t, ' '));
    let rest = spec_split_rest(t, ' ');
    if noun == "NODE"@ {
        spec_parse_node_cmd(rest)
    } else if noun == "RING"@ {
        spec_parse_ring_cmd(rest)
    } else if noun == "TOPOLOGY"@ {
        spec_parse_topology_cmd(rest)
    } else if noun == "NETMAP"@ {
        spec_parse_netmap_cmd(rest)
    } else if noun == "FILE"@ {
        spec_parse_file_cmd(rest)
    } else {
        Err("unknown command namespace: '"@ + noun + seq!['\''])
    }
}

// ---------- the parser ----------

/// How an executable parse result relates to the grammar.
pub open spec fn parse_matches(r: Result<Command, String>, s: Result<CommandView, Seq<char>>)
    -> bool {
    match r {
        Ok(c) => s == Ok::<CommandView, Seq<char>>(c@),
        Err(e) => s == Err::<CommandView, Seq<char>>(e@),
    }
}

/// Parse the parameters of a `NODE` command.
pub fn parse_node_cmd(rest: &str) -> (r: Result<Command, String>)
    ensures
        parse_matches(r, spec_parse_node_cmd(rest@)),
{
    let (verb_raw, args) = split_first(rest, ' ');
    let verb = upper_str(verb_raw);
    if str_eq(verb.as_str(), "NEXT") {
        let addr = trim(args);
        if addr.unicode_len() == 0 {
            Err("missing address for NODE NEXT".to_owned())
        } else {
            Ok(Command::NodeNext(addr.to_owned()))
        }
    } else if str_eq(verb.as_str(), "STATUS") {
        Ok(Command::NodeStatus)
    } else if str_eq(verb.as_str(), "PING") {
        Ok(Command::NodePing)
    } else if str_eq(verb.as_str(), "HEAL") {
        Ok(Command::NodeHeal)
    } else if str_eq(verb.as_str(), "HEAL-HOP") {
        let (t_raw, rest1) = split_first(args, ' ');
        let token = trim(t_raw);
        let start_addr = trim(rest1);
        if token.unicode_len() == 0 || start_addr.unicode_len() == 0 {
            Err("malformed NODE HEAL-HOP".to_owned())
        } else {
            Ok(
                Command::NodeHealHop {
                    token: token.to_owned(),
                    start_addr: start_addr.to_owned(),
                },
            )
        }
    } else if str_eq(verb.as_str(), "HEAL-DONE") {
        let token = trim(args);
        if token.unicode_len() == 0 {
            Err("malformed NODE HEAL-DONE".to_owned())
        } else {
            Ok(Command::NodeHealDone { token: token.to_owned() })
        }
    } else {
        Err("unknown NODE command".to_owned())
    }
}

/// Parse the parameters of a `RING` command.
pub fn parse_ring_cmd(rest: &str) -> (r: Result<Command, String>)
    ensures
        parse_matches(r, spec_parse_ring_cmd(rest@)),
{
    let (verb_raw, args) = split_first(rest, ' ');
    let verb = upper_str(verb_raw);
    if str_eq(verb.as_str(), "FORWARD") {
        let (ttl_raw, msg) = split_first(args, ' ');
        match parse_u32(trim(ttl_raw)) {
            Some(ttl) => Ok(Command::RingForward { ttl, msg: msg.to_owned() }),
            None => Err("invalid ttl for RING FORWARD".to_owned()),
        }
    } else {
        Err("unknown RING command".to_owned())
    }
}

/// Parse the parameters of a `TOPOLOGY` command.
pub fn parse_topology_cmd(rest: &str) -> (r: Result<Command, String>)
    ensures
        parse_matches(r, spec_parse_topology_cmd(rest@)),
{
    let (verb_raw, args) = split_first(rest, ' ');
    let verb = upper_str(verb_raw);
    if str_eq(verb.as_str(), "WALK") {
        Ok(Command::TopologyWalk)
    } else if str_eq(verb.as_str(), "HOP") {
        let (t_raw, r1) = split_first(args, ' ');
        let token = trim(t_raw);
        let (s_raw, history) = split_first(r1, ' ');
        let start_addr = trim(s_raw);
        if token.unicode_len() == 0 || start_addr.unicode_len() == 0 {
            Err("malformed TOPOLOGY HOP".to_owned())
        } else {
            Ok(
                Command::TopologyHop {
                    token: token.to_owned(),
                    start_addr: start_addr.to_owned(),
                    history: history.to_owned(),
                },
            )
        }
    } else if str_eq(verb.as_str(), "DONE") {
        let (t_raw, history) = split_first(args, ' ');
        let token = trim(t_raw);
        if token.unicode_len() == 0 {
            Err("malformed TOPOLOGY DONE".to_owned())
        } else {
            Ok(
                Command::TopologyDone {
                    token: token.to_owned(),
                    history: history.to_owned(),
                },
            )
        }
    } else if str_eq(verb.as_str(), "SET") {
        Ok(Command::TopologySet { history: args.to_owned() })
    } else {
        Err("unknown TOPOLOGY command".to_owned())
    }
}

/// Parse the parameters of a `NETMAP` command.
pub fn parse_netmap_cmd(rest: &str) -> (r: Result<Command, String>)
    ensures
        parse_matches(r, spec_parse_netmap_cmd(rest@)),
{
    let (verb_raw, args) = split_first(rest, ' ');
    let verb = upper_str(verb_raw);
    if str_eq(verb.as_str(), "DISCOVER") {
        Ok(Command::NetmapDiscover)
    } else if str_eq(verb.as_str(), "HOP") {
        let (t_raw, r1) = split_first(args, ' ');
        let token = trim(t_raw);
        let (s_raw, entries) = split_first(r1, ' ');
        let start_addr = trim(s_raw);
        if token.unicode_len() == 0 || start_addr.unicode_len() == 0 {
            Err("malformed NETMAP HOP".to_owned())
        } else {
            Ok(
                Command::NetmapHop {
                    token: token.to_owned(),
                    start_addr: start_addr.to_owned(),
                    entries: entries.to_owned(),
                },
            )
        }
    } else if str_eq(verb.as_str(), "DONE") {
        let (t_raw, entries) = split_first(args, ' ');
        let token = trim(t_raw);
        if token.unicode_len() == 0 {
            Err("malformed NETMAP DONE".to_owned())
        } else {
            Ok(
                Command::NetmapDone {
                    token: token.to_owned(),
                    entries: entries.to_owned(),
                },
            )
        }
    } else if str_eq(verb.as_str(), "SET") {
        Ok(Command::NetmapSet { entries: trim(args).to_owned() })
    } else if str_eq(verb.as_str(), "GET") {
        Ok(Command::NetmapGet)
    } else {
        Err("unknown NETMAP command".to_owned())
    }
}

/// Parse the parameters of a `FILE` command.
pub fn parse_file_cmd(rest: &str) -> (r: Result<Command, String>)
    ensures
        parse_matches(r, spec_parse_file_cmd(rest@)),
{
    let (verb_raw, args) = split_first(rest, ' ');
    let verb = upper_str(verb_raw);
    if str_eq(verb.as_str(), "PUSH") {
        let (size_raw, name) = split_first(args, ' ');
        if name.unicode_len() == 0 {
            Err("missing file name for FILE PUSH".to_owned())
        } else {
            match parse_u64(trim(size_raw)) {
                Some(size) => Ok(Command::FilePush { size, name: name.to_owned() }),
                None => Err("invalid size for FILE PUSH".to_owned()),
            }
        }
    } else if str_eq(verb.as_str(), "PULL") {
        if trim(args).unicode_len() == 0 {
            Err("missing file name for FILE PULL".to_owned())
        } else {
            Ok(Command::FilePull { name: args.to_owned() })
        }
    } else if str_eq(verb.as_str(), "LIST") {
        Ok(Command::FileList)
    } else if str_eq(verb.as_str(), "TAGS-SET") {
        Ok(Command::FileTagsSet { entries: args.to_owned() })
    } else if str_eq(verb.as_str(), "GET-CHUNK") {
        if trim(args).unicode_len() == 0 {
            Err("missing file name for FILE GET-CHUNK".to_owned())
        } else {
            Ok(Command::FileGetChunk { name: args.to_owned() })
        }
    } else if str_eq(verb.as_str(), "RELAY-BLOB") {
        let (t_raw, r1) = split_first(args, ' ');
        let token = trim(t_raw);
        let (s_raw, r2) = split_first(r1, ' ');
        let start_addr = trim(s_raw);
        let (size_raw, name) = split_first(r2, ' ');
        if token.unicode_len() == 0 || start_addr.unicode_len() == 0 || name.unicode_len() == 0 {
            Err("malformed FILE RELAY-BLOB".to_owned())
        } else {
            match parse_u64(trim(size_raw)) {
                Some(size) => Ok(
                    Command::FileRelayBlob {
                        token: token.to_owned(),
                        start_addr: start_addr.to_owned(),
                        size,
                        name: name.to_owned(),
                    },
                ),
                None => Err("invalid size for FILE RELAY-BLOB".to_owned()),
            }
        }
    } else if str_eq(verb.as_str(), "RELAY-STREAM") {
        let (t_raw, r1) = split_first(args, ' ');
        let token = trim(t_raw);
        let (s_raw, r2) = split_first(r1, ' ');
        let start_addr = trim(s_raw);
        let (size_raw, r3) = split_first(r2, ' ');
        let (parts_raw, r4) = split_first(r3, ' ');
        let (index_raw, name) = split_first(r4, ' ');
        if token.unicode_len() == 0 || start_addr.unicode_len() == 0 || name.unicode_len() == 0 {
            Err("malformed FILE RELAY-STREAM".to_owned())
        } else {
            match parse_u64(trim(size_raw)) {
                Some(file_size) => match parse_u32(trim(parts_raw)) {
                    Some(parts) => match parse_u32(trim(index_raw)) {
                        Some(index) => Ok(
                            Command::FileRelayStream {
                                token: token.to_owned(),
                                start_addr: start_addr.to_owned(),
                                file_size,
                                parts,
                                index,
                                name: name.to_owned(),
                            },
                        ),
                        None => Err("invalid index for FILE RELAY-STREAM".to_owned()),
                    },
                    None => Err("invalid parts for FILE RELAY-STREAM".to_owned()),
                },
                None => Err("invalid file_size for FILE RELAY-STREAM".to_owned()),
            }
        }
    } else if str_eq(verb.as_str(), "NOTIFY-CHUNK-SAVED") {
        if trim(args).unicode_len() == 0 {
            Err("missing file name for FILE NOTIFY-CHUNK-SAVED".to_owned())
        } else {
            Ok(Command::FileNotifyChunkSaved { name: args.to_owned() })
        }
    } else if str_eq(verb.as_str(), "GET-CHUNK-FOR-BACKUP") {
        if trim(args).unicode_len() == 0 {
            Err("missing file name for FILE GET-CHUNK-FOR-BACKUP".to_owned())
        } else {
            Ok(Command::FileGetChunkForBackup { name: args.to_owned() })
        }
    } else if str_eq(verb.as_str(), "GET-BACKUP-CHUNK") {
        if trim(args).unicode_len() == 0 {
            Err("missing file name for FILE GET-BACKUP-CHUNK".to_owned())
        } else {
            Ok(Command::FileGetBackupChunk { name: args.to_owned() })
        }
    } else {
        Err("unknown FILE command".to_owned())
    }
}

/// Parse one incoming line from the wire into a `Command`. The result
/// is exactly what the grammar `spec_parse_line` says, error text
/// included.
pub fn parse_line(line: &str) -> (r: Result<Command, String>)
    ensures
        parse_matches(r, spec_parse_line(line@)),
{
    let trimmed = trim_crlf(line);
    let (noun_raw, rest) = split_first(trimmed, ' ');
    let noun = upper_str(noun_raw);
    if str_eq(noun.as_str(), "NODE") {
        parse_node_cmd(rest)
    } else if str_eq(noun.as_str(), "RING") {
        parse_ring_cmd(rest)
    } else if str_eq(noun.as_str(), "TOPOLOGY") {
        parse_topology_cmd(rest)
    } else if str_eq(noun.as_str(), "NETMAP") {
        parse_netmap_cmd(rest)
    } else if str_eq(noun.as_str(), "FILE") {
        parse_file_cmd(rest)
    } else {
        let mut e = String::new();
        e.append("unknown command namespace: '");
        e.append(noun.as_str());
        e.push('\'');
        proof {
            assert(e@ =~= "unknown command namespace: '"@ + spec_upper_str(
                spec_split_head(spec_trim_crlf(line@), ' '),
            ) + seq!['\'']);
        }
        Err(e)
    }
}

// ---------- reading back what the handlers write ----------

/// A parameter that rides the wire as one token: non-empty and free
/// of whitespace. Tokens, addresses and ports are.
pub open spec fn clean_token(t: Seq<char>) -> bool {
    t.len() > 0 && forall|j: int|
        0 <= j < t.len() ==> !crate::strutil::is_space(#[trigger] t[j])
}

/// A greedy trailing parameter: free of line breaks, so the line
/// framing keeps it whole.
pub open spec fn clean_tail(t: Seq<char>) -> bool {
    forall|j: int| 0 <= j < t.len() ==> (#[trigger] t[j]) != '\r' && t[j] != '\n'
}

/// Upper-casing changes nothing in a string already free of lower
/// case letters.
proof fn lemma_upper_id(s: Seq<char>)
    requires
        forall|j: int| 0 <= j < s.len() ==> spec_upper(#[trigger] s[j]) == s[j],
    ensures
        spec_upper_str(s) == s,
{
    assert(spec_upper_str(s) =~= s);
}

/// The noun and verb prefix of a hop line, peeled off: what the
/// namespace parser receives.
proof fn lemma_hop_prelude(
    noun: Seq<char>,
    verb: Seq<char>,
    prefix: Seq<char>,
    body: Seq<char>,
    args: Seq<char>,
)
    requires
        prefix == noun + seq![' '] + verb + seq![' '],
        body == prefix + args,
        forall|j: int|
            0 <= j < noun.len() ==> !crate::strutil::is_space(#[trigger] noun[j]) && spec_upper(
                noun[j],
            ) == noun[j],
        forall|j: int|
            0 <= j < verb.len() ==> !crate::strutil::is_space(#[trigger] verb[j]) && spec_upper(
                verb[j],
            ) == verb[j],
    ensures
        spec_upper_str(spec_split_head(body, ' ')) == noun,
        spec_upper_str(spec_split_head(spec_split_rest(body, ' '), ' ')) == verb,
        spec_split_rest(spec_split_rest(body, ' '), ' ') == args,
{
    let rest0 = verb + seq![' '] + args;
    assert(body =~= noun + seq![' '] + rest0);
    crate::strutil::lemma_split_token(body, noun, rest0);
    lemma_upper_id(noun);
    crate::strutil::lemma_split_token(rest0, verb, args);
    lemma_upper_id(verb);
}

/// A `TOPOLOGY HOP` line written by a hop handler parses back to the
/// command it encodes.
pub proof fn lemma_parse_topology_hop_line(
    token: Seq<char>,
    start_addr: Seq<char>,
    history: Seq<char>,
)
    requires
        clean_token(token),
        clean_token(start_addr),
        clean_tail(history),
    ensures
        spec_parse_line("TOPOLOGY HOP "@ + token + seq![' '] + start_addr + seq![' '] + history
            + seq!['\n']) == Ok::<CommandView, Seq<char>>(
            CommandView::TopologyHop { token, start_addr, history },
        ),
{
    reveal_strlit("TOPOLOGY HOP ");
    reveal_strlit("TOPOLOGY");
    reveal_strlit("HOP");
    reveal_strlit("NODE");
    reveal_strlit("RING");
    reveal_strlit("WALK");
    let args = token + seq![' '] + (start_addr + seq![' '] + history);
    let body = "TOPOLOGY HOP "@ + args;
    let line = "TOPOLOGY HOP "@ + token + seq![' '] + start_addr + seq![' '] + history
        + seq!['\n'];
    assert(line =~= body.push('\n'));
    assert(forall|j: int| 0 <= j < body.len() ==> (#[trigger] body[j]) != '\r' && body[j] != '\n')
        by {
        assert("TOPOLOGY HOP "@ =~= "TOPOLOGY"@ + seq![' '] + "HOP"@ + seq![' ']);
    }
    crate::strutil::lemma_trim_crlf_line(body);
    assert("TOPOLOGY HOP "@ =~= "TOPOLOGY"@ + seq![' '] + "HOP"@ + seq![' ']);
    lemma_hop_prelude("TOPOLOGY"@, "HOP"@, "TOPOLOGY HOP "@, body, args);
    let r1 = start_addr + seq![' '] + history;
    crate::strutil::lemma_split_token(args, token, r1);
    crate::strutil::lemma_trim_clean(token);
    crate::strutil::lemma_split_token(r1, start_addr, history);
    crate::strutil::lemma_trim_clean(start_addr);
}

/// A `NETMAP HOP` line written by a hop handler parses back to the
/// command it encodes.
pub proof fn lemma_parse_netmap_hop_line(
    token: Seq<char>,
    start_addr: Seq<char>,
    entries: Seq<char>,
)
    requires
        clean_token(token),
        clean_token(start_addr),
        clean_tail(entries),
    ensures
        spec_parse_line("NETMAP HOP "@ + token + seq![' '] + start_addr + seq![' '] + entries
            + seq!['\n']) == Ok::<CommandView, Seq<char>>(
            CommandView::NetmapHop { token, start_addr, entries },
        ),
{
    reveal_strlit("NETMAP HOP ");
    reveal_strlit("NETMAP");
    reveal_strlit("HOP");
    reveal_strlit("NODE");
    reveal_strlit("RING");
    reveal_strlit("TOPOLOGY");
    reveal_strlit("DISCOVER");
    let args = token + seq![' '] + (start_addr + seq![' '] + entries);
    let body = "NETMAP HOP "@ + args;
    let line = "NETMAP HOP "@ + token + seq![' '] + start_addr + seq![' '] + entries
        + seq!['\n'];
    assert(line =~= body.push('\n'));
    assert(forall|j: int| 0 <= j < body.len() ==> (#[trigger] body[j]) != '\r' && body[j] != '\n')
        by {
        assert("NETMAP HOP "@ =~= "NETMAP"@ + seq![' '] + "HOP"@ + seq![' ']);
    }
    crate::strutil::lemma_trim_crlf_line(body);
    assert("NETMAP HOP "@ =~= "NETMAP"@ + seq![' '] + "HOP"@ + seq![' ']);
    lemma_hop_prelude("NETMAP"@, "HOP"@, "NETMAP HOP "@, body, args);
    let r1 = start_addr + seq![' '] + entries;
    crate::strutil::lemma_split_token(args, token, r1);
    crate::strutil::lemma_trim_clean(token);
    crate::strutil::lemma_split_token(r1, start_addr, entries);
    crate::strutil::lemma_trim_clean(start_addr);
}

/// A `FILE RELAY-STREAM` header written by the push engine parses
/// back to the command it encodes: the numbers survive the trip.
#[verifier::rlimit(100)]
pub proof fn lemma_parse_relay_stream_line(
    token: Seq<char>,
    start_addr: Seq<char>,
    file_size: u64,
    parts: u32,
    index: u32,
    name: Seq<char>,
)
    requires
        clean_token(token),
        clean_token(start_addr),
        name.len() > 0,
        clean_tail(name),
    ensures
        spec_parse_line(
            "FILE RELAY-STREAM "@ + token + seq![' '] + start_addr + seq![' '] + dec_str(
                file_size as nat,
            ) + seq![' '] + dec_str(parts as nat) + seq![' '] + dec_str(index as nat)
                + seq![' '] + name + seq!['\n'],
        ) == Ok::<CommandView, Seq<char>>(
            CommandView::FileRelayStream { token, start_addr, file_size, parts, index, name },
        ),
{
    reveal_strlit("FILE RELAY-STREAM ");
    reveal_strlit("FILE");
    reveal_strlit("RELAY-STREAM");
    reveal_strlit("NODE");
    reveal_strlit("RING");
    reveal_strlit("TOPOLOGY");
    reveal_strlit("NETMAP");
    reveal_strlit("PUSH");
    reveal_strlit("PULL");
    reveal_strlit("LIST");
    reveal_strlit("TAGS-SET");
    reveal_strlit("GET-CHUNK");
    reveal_strlit("RELAY-BLOB");
    let d1 = dec_str(file_size as nat);
    let d2 = dec_str(parts as nat);
    let d3 = dec_str(index as nat);
    crate::strutil::lemma_dec_str_digits(file_size as nat);
    crate::strutil::lemma_dec_str_digits(parts as nat);
    crate::strutil::lemma_dec_str_digits(index as nat);
    crate::strutil::lemma_dec_str_val(file_size as nat);
    crate::strutil::lemma_dec_str_val(parts as nat);
    crate::strutil::lemma_dec_str_val(index as nat);
    let tail3 = d3 + seq![' '] + name;
    let tail2 = d2 + seq![' '] + tail3;
    let tail1 = d1 + seq![' '] + tail2;
    let r1 = start_addr + seq![' '] + tail1;
    let args = token + seq![' '] + r1;
    let body = "FILE RELAY-STREAM "@ + args;
    let line = "FILE RELAY-STREAM "@ + token + seq![' '] + start_addr + seq![' '] + d1
        + seq![' '] + d2 + seq![' '] + d3 + seq![' '] + name + seq!['\n'];
    assert(line =~= body.push('\n'));
    assert(forall|j: int| 0 <= j < body.len() ==> (#[trigger] body[j]) != '\r' && body[j] != '\n')
        by {
        assert("FILE RELAY-STREAM "@ =~= "FILE"@ + seq![' '] + "RELAY-STREAM"@ + seq![' ']);
    }
    crate::strutil::lemma_trim_crlf_line(body);
    assert("FILE RELAY-STREAM "@ =~= "FILE"@ + seq![' '] + "RELAY-STREAM"@ + seq![' ']);
    lemma_hop_prelude("FILE"@, "RELAY-STREAM"@, "FILE RELAY-STREAM "@, body, args);
    crate::strutil::lemma_split_token(args, token, r1);
    crate::strutil::lemma_trim_clean(token);
    crate::strutil::lemma_split_token(r1, start_addr, tail1);
    crate::strutil::lemma_trim_clean(start_addr);
    crate::strutil::lemma_split_token(tail1, d1, tail2);
    crate::strutil::lemma_trim_clean(d1);
    crate::strutil::lemma_split_token(tail2, d2, tail3);
    crate::strutil::lemma_trim_clean(d2);
    crate::strutil::lemma_split_token(tail3, d3, name);
    crate::strutil::lemma_trim_clean(d3);
    assert(crate::strutil::spec_parse_u64(d1) == Some(file_size));
    assert(crate::strutil::spec_parse_u32(d2) == Some(parts));
    assert(crate::strutil::spec_parse_u32(d3) == Some(index));
}

} // verus!
