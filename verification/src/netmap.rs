//! The netmap: which port is alive, and the wire form of that map,
//! `port=Status` entries joined by commas.
use vstd::prelude::*;

use crate::kv::{lemma_list_push, list_has_key, list_last_val, KvList};
use crate::strutil::{
    spec_find, spec_split_all, spec_split_head, spec_split_rest, spec_trim, split_first, trim,
};

verus! {

#[derive(Debug, Clone, PartialEq, Eq, Copy, Structural)]
pub enum NodeStatus {
    Alive,
    Dead,
}

pub open spec fn spec_status_str(v: NodeStatus) -> Seq<char> {
    match v {
        NodeStatus::Alive => "Alive"@,
        NodeStatus::Dead => "Dead"@,
    }
}

pub fn status_str(v: NodeStatus) -> (r: &'static str)
    ensures
        r@ == spec_status_str(v),
{
    match v {
        NodeStatus::Alive => "Alive",
        NodeStatus::Dead => "Dead",
    }
}

/// The status named by a value string: `Dead`/`dead` kill, anything
/// else (the usual `Alive` included) keeps a node alive.
pub open spec fn spec_status_of(v: Seq<char>) -> NodeStatus {
    if v == "Dead"@ || v == "dead"@ {
        NodeStatus::Dead
    } else {
        NodeStatus::Alive
    }
}

fn status_of(v: &str) -> (r: NodeStatus)
    ensures
        r == spec_status_of(v@),
{
    if crate::strutil::str_eq(v, "Dead") || crate::strutil::str_eq(v, "dead") {
        NodeStatus::Dead
    } else {
        NodeStatus::Alive
    }
}

// ---------- the wire form, parsed ----------

/// One comma-separated part read as a netmap entry: key before `=`,
/// status after it, both trimmed; empty parts and empty keys dropped.
pub open spec fn spec_entry_kv(part: Seq<char>) -> Option<(Seq<char>, NodeStatus)> {
    let kv = spec_trim(part);
    if kv.len() == 0 {
        None
    } else {
        let k = spec_trim(spec_split_head(kv, '='));
        let v = spec_trim(spec_split_rest(kv, '='));
        if k.len() == 0 {
            None
        } else {
            Some((k, spec_status_of(v)))
        }
    }
}

pub open spec fn clean_entries(parts: Seq<Seq<char>>) -> Seq<(Seq<char>, NodeStatus)>
    decreases parts.len(),
{
    if parts.len() == 0 {
        Seq::empty()
    } else {
        match spec_entry_kv(parts[0]) {
            Option::None => clean_entries(parts.drop_first()),
            Option::Some(p) => seq![p] + clean_entries(parts.drop_first()),
        }
    }
}

/// The well-formed entries of an entry string, in their wire order.
pub open spec fn spec_entry_list(s: Seq<char>) -> Seq<(Seq<char>, NodeStatus)> {
    clean_entries(spec_split_all(s, ','))
}

proof fn lemma_clean_cons(parts: Seq<Seq<char>>)
    requires
        parts.len() > 0,
    ensures
        clean_entries(parts) == match spec_entry_kv(parts[0]) {
            Option::None => clean_entries(parts.drop_first()),
            Option::Some(p) => seq![p] + clean_entries(parts.drop_first()),
        },
{
}

/// Parse a comma-separated `port=Status` line. A later entry for the
/// same key overrides an earlier one; the result is the canonical map.
pub fn parse_entries(entries: &str) -> (r: KvList<NodeStatus>)
    ensures
        r.wf(),
        forall|k: Seq<char>| r.has_key(k) == list_has_key(spec_entry_list(entries@), k),
        forall|k: Seq<char>|
            list_has_key(spec_entry_list(entries@), k) ==> r.spec_get(k) == list_last_val(
                spec_entry_list(entries@),
                k,
            ),
{
    let ghost full = spec_entry_list(entries@);
    let mut m: KvList<NodeStatus> = KvList::new();
    let mut rest: &str = entries;
    let ghost mut done: Seq<(Seq<char>, NodeStatus)> = Seq::empty();
    loop
        invariant_except_break
            full == done + spec_entry_list(rest@),
        invariant
            m.wf(),
            forall|k: Seq<char>| m.has_key(k) == list_has_key(done, k),
            forall|k: Seq<char>| list_has_key(done, k) ==> m.spec_get(k) == list_last_val(done, k),
        ensures
            m.wf(),
            forall|k: Seq<char>| m.has_key(k) == list_has_key(full, k),
            forall|k: Seq<char>| list_has_key(full, k) ==> m.spec_get(k) == list_last_val(full, k),
        decreases rest@.len(),
    {
        let (part, tail) = split_first(rest, ',');
        let ghost parts = spec_split_all(rest@, ',');
        proof {
            crate::strutil::lemma_find_props(rest@, ',');
            if spec_find(rest@, ',') < 0 {
                assert(parts =~= seq![rest@]);
            }
            lemma_clean_cons(parts);
            assert(parts.drop_first() =~= if spec_find(rest@, ',') < 0 {
                Seq::<Seq<char>>::empty()
            } else {
                spec_split_all(tail@, ',')
            });
            if spec_find(rest@, ',') < 0 {
                assert(clean_entries(parts.drop_first()) =~= Seq::<
                    (Seq<char>, NodeStatus),
                >::empty());
            }
        }
        // take this part in, when it is a well-formed entry
        let kv = trim(part);
        if kv.unicode_len() > 0 {
            let (kh, vh) = split_first(kv, '=');
            let k = trim(kh);
            let v = trim(vh);
            if k.unicode_len() > 0 {
                let st = status_of(v);
                let ghost p = (k@, st);
                proof {
                    assert(spec_entry_kv(part@) == Option::Some(p));
                }
                m.insert(k.to_owned(), st);
                proof {
                    assert(done.push(p) =~= done + seq![p]);
                    assert forall|k2: Seq<char>|
                        m.has_key(k2) == list_has_key(done.push(p), k2) by {
                        lemma_list_push(done, p, k2);
                    }
                    assert forall|k2: Seq<char>| list_has_key(done.push(p), k2) implies m.spec_get(
                        k2,
                    ) == list_last_val(done.push(p), k2) by {
                        lemma_list_push(done, p, k2);
                    }
                    done = done.push(p);
                    assert(seq![p] + clean_entries(parts.drop_first()) =~= seq![p]
                        + clean_entries(parts.drop_first()));
                }
            } else {
                proof {
                    assert(spec_entry_kv(part@) is None);
                }
            }
        } else {
            proof {
                assert(spec_entry_kv(part@) is None);
            }
        }
        proof {
            if spec_find(rest@, ',') < 0 {
                assert(full == done);
            } else {
                assert(full == done + spec_entry_list(tail@)) by {
                    if spec_entry_kv(part@) is Some {
                        let p0 = spec_entry_kv(part@)->Some_0;
                        assert(done.drop_last() + (seq![p0] + clean_entries(parts.drop_first()))
                            =~= done + clean_entries(parts.drop_first()));
                    }
                }
            }
        }
        if find_done(rest) {
            break;
        }
        rest = tail;
    }
    m
}

/// Whether `rest` holds no further comma.
fn find_done(rest: &str) -> (r: bool)
    ensures
        r == (spec_find(rest@, ',') < 0),
{
    crate::strutil::find_char(rest, ',').is_none()
}

// ---------- what a discover walk accumulates ----------

/// One hop of a netmap discover: the accumulator gains exactly the
/// visiting node, marked alive; everything else is carried through.
/// This is what `NETMAP HOP` handling promises of its output map.
pub open spec fn discover_step(m1: KvList<NodeStatus>, m2: KvList<NodeStatus>, p: Seq<char>)
    -> bool {
    &&& m2.has_key(p)
    &&& m2.spec_get(p) == NodeStatus::Alive
    &&& forall|k: Seq<char>|
        k != p ==> (m2.has_key(k) == m1.has_key(k) && (m1.has_key(k) ==> m2.spec_get(k)
            == m1.spec_get(k)))
}

/// After a discover walk completes, the accumulated map holds
/// exactly the ports that took part, each marked alive: the origin's
/// seed plus one entry per hop.
pub proof fn lemma_discover_accumulates(ms: Seq<KvList<NodeStatus>>, ports: Seq<Seq<char>>)
    requires
        ms.len() == ports.len(),
        ports.len() > 0,
        // the walk starts with only the origin marked alive
        ms[0].has_key(ports[0]),
        ms[0].spec_get(ports[0]) == NodeStatus::Alive,
        forall|k: Seq<char>| ms[0].has_key(k) ==> k == ports[0],
        // each hop adds exactly the visiting node
        forall|i: int| 1 <= i < ms.len() ==> discover_step(ms[i - 1], #[trigger] ms[i], ports[i]),
    ensures
        forall|k: Seq<char>| #[trigger] ms.last().has_key(k) <==> ports.contains(k),
        forall|k: Seq<char>|
            ports.contains(k) ==> #[trigger] ms.last().spec_get(k) == NodeStatus::Alive,
    decreases ms.len(),
{
    let n = ms.len() as int;
    if n == 1 {
        assert forall|k: Seq<char>| #[trigger] ms.last().has_key(k) <==> ports.contains(k) by {
            if ms.last().has_key(k) {
                assert(k == ports[0]);
            }
            if ports.contains(k) {
                let i = choose|i: int| 0 <= i < ports.len() && ports[i] == k;
                assert(i == 0);
            }
        }
        assert forall|k: Seq<char>| ports.contains(k) implies #[trigger] ms.last().spec_get(k)
            == NodeStatus::Alive by {
            assert(ms.last().has_key(k));
        }
    } else {
        let mp = ms.drop_last();
        let pp = ports.drop_last();
        assert(mp[0] == ms[0] && pp[0] == ports[0]);
        assert forall|i: int| 1 <= i < mp.len() implies discover_step(
            mp[i - 1],
            #[trigger] mp[i],
            pp[i],
        ) by {
            assert(ms[i] == mp[i] && ms[i - 1] == mp[i - 1] && ports[i] == pp[i]);
        }
        lemma_discover_accumulates(mp, pp);
        let last = ms.last();
        let prev = ms[n - 2];
        let p = ports[n - 1];
        assert(discover_step(prev, ms[n - 1], ports[n - 1]));
        assert(mp.last() == prev);
        assert forall|k: Seq<char>| #[trigger] last.has_key(k) <==> ports.contains(k) by {
            if last.has_key(k) {
                if k == p {
                    assert(ports[n - 1] == k);
                } else {
                    assert(prev.has_key(k));
                    assert(pp.contains(k));
                    let i = choose|i: int| 0 <= i < pp.len() && pp[i] == k;
                    assert(ports[i] == k);
                }
            }
            if ports.contains(k) {
                let i = choose|i: int| 0 <= i < ports.len() && ports[i] == k;
                if i < n - 1 {
                    assert(pp[i] == k);
                    assert(pp.contains(k));
                    assert(prev.has_key(k));
                    if k != p {
                        assert(last.has_key(k));
                    }
                }
            }
        }
        assert forall|k: Seq<char>| ports.contains(k) implies #[trigger] last.spec_get(k)
            == NodeStatus::Alive by {
            if k != p {
                let i = choose|i: int| 0 <= i < ports.len() && ports[i] == k;
                assert(i < n - 1);
                assert(pp[i] == k);
                assert(pp.contains(k));
                assert(prev.spec_get(k) == NodeStatus::Alive);
            }
        }
    }
}

// ---------- the wire form, written ----------

pub open spec fn entry_str(k: Seq<char>, v: NodeStatus) -> Seq<char> {
    k + seq!['='] + spec_status_str(v)
}

/// The first `i` entries of the map, joined by commas.
pub open spec fn entries_prefix(ks: Seq<Seq<char>>, vs: Seq<NodeStatus>, i: int) -> Seq<char>
    decreases i,
{
    if i <= 0 {
        Seq::empty()
    } else if i == 1 {
        entry_str(ks[0], vs[0])
    } else {
        entries_prefix(ks, vs, i - 1) + seq![','] + entry_str(ks[i - 1], vs[i - 1])
    }
}

/// The full wire form of a netmap: sorted `port=Status` entries joined
/// by commas.
pub open spec fn spec_entries_str(m: KvList<NodeStatus>) -> Seq<char> {
    entries_prefix(m.key_seq(), m.val_seq(), m.spec_len() as int)
}

/// Serialise a netmap into its comma-joined `port=Status` wire form,
/// keys in sorted order.
pub fn serialize_entries(m: &KvList<NodeStatus>) -> (r: String)
    requires
        m.wf(),
    ensures
        r@ == spec_entries_str(*m),
{
    let n = m.len();
    let mut out = String::new();
    let mut i: usize = 0;
    while i < n
        invariant
            m.wf(),
            i <= n,
            n == m.spec_len(),
            out@ == entries_prefix(m.key_seq(), m.val_seq(), i as int),
        decreases n - i,
    {
        if i > 0 {
            out.push(',');
        }
        out.append(m.key_at(i).as_str());
        out.push('=');
        out.append(status_str(*m.val_at(i)));
        proof {
            assert(out@ =~= entries_prefix(m.key_seq(), m.val_seq(), i + 1 as int));
        }
        i = i + 1;
    }
    out
}

// ---------- the wire round trip ----------

/// A key that survives the wire unchanged: non-empty, and free of
/// the entry and key separators and of whitespace. Ports are.
pub open spec fn wire_safe_key(k: Seq<char>) -> bool {
    k.len() > 0 && forall|j: int|
        0 <= j < k.len() ==> !(k[j] == ',' || k[j] == '=' || crate::strutil::is_space(k[j]))
}

pub open spec fn wire_safe_map(m: KvList<NodeStatus>) -> bool {
    forall|i: int| 0 <= i < m.spec_len() ==> wire_safe_key(#[trigger] m.key_seq()[i])
}

/// The map's entries as parsed pairs, in storage order.
pub open spec fn pair_seq(m: KvList<NodeStatus>) -> Seq<(Seq<char>, NodeStatus)> {
    Seq::new(m.spec_len(), |i: int| (m.key_seq()[i], m.val_seq()[i]))
}

/// The status words hold no separator and no whitespace.
proof fn lemma_status_str_clean(v: NodeStatus)
    ensures
        spec_status_str(v).len() > 0,
        forall|j: int|
            0 <= j < spec_status_str(v).len() ==> !(#[trigger] spec_status_str(v)[j] == ','
                || spec_status_str(v)[j] == '=' || crate::strutil::is_space(
                spec_status_str(v)[j],
            )),
{
    reveal_strlit("Alive");
    reveal_strlit("Dead");
    match v {
        NodeStatus::Alive => {
            assert forall|j: int| 0 <= j < spec_status_str(v).len() implies !(
            #[trigger] spec_status_str(v)[j] == ',' || spec_status_str(v)[j] == '='
                || crate::strutil::is_space(spec_status_str(v)[j])) by {
                assert(spec_status_str(v) == "Alive"@);
            }
        },
        NodeStatus::Dead => {
            assert forall|j: int| 0 <= j < spec_status_str(v).len() implies !(
            #[trigger] spec_status_str(v)[j] == ',' || spec_status_str(v)[j] == '='
                || crate::strutil::is_space(spec_status_str(v)[j])) by {
                assert(spec_status_str(v) == "Dead"@);
            }
        },
    }
}

/// A wire-safe entry reads back as exactly its key and status.
proof fn lemma_entry_kv_exact(k: Seq<char>, v: NodeStatus)
    requires
        wire_safe_key(k),
    ensures
        spec_entry_kv(entry_str(k, v)) == Some((k, v)),
        forall|j: int|
            0 <= j < entry_str(k, v).len() ==> #[trigger] entry_str(k, v)[j] != ',',
{
    lemma_status_str_clean(v);
    reveal_strlit("Alive");
    reveal_strlit("Dead");
    let s = entry_str(k, v);
    let st = spec_status_str(v);
    assert(s.len() == k.len() + 1 + st.len());
    assert(forall|j: int| 0 <= j < k.len() ==> s[j] == k[j]);
    assert(s[k.len() as int] == '=');
    assert(forall|j: int| 0 <= j < st.len() ==> s[k.len() + 1 + j] == st[j]);
    assert forall|j: int| 0 <= j < s.len() implies #[trigger] s[j] != ',' by {
        if j > k.len() {
            assert(s[j] == st[j - k.len() - 1]);
        }
    }
    // the entry carries no whitespace, so trimming is the identity
    assert forall|j: int| 0 <= j < s.len() implies !crate::strutil::is_space(#[trigger] s[j]) by {
        if j > k.len() {
            assert(s[j] == st[j - k.len() - 1]);
        }
    }
    lemma_trim_clean(s);
    // the first `=` sits right after the key
    crate::strutil::lemma_find_is_first(s, '=', k.len() as int);
    assert(spec_split_head(s, '=') =~= k);
    assert(spec_split_rest(s, '=') =~= st);
    lemma_trim_clean(k);
    lemma_trim_clean(st);
    assert(spec_status_of(st) == v) by {
        reveal_strlit("dead");
        if v is Alive {
            assert(st[0] == 'A');
            assert(st != "Dead"@ && st != "dead"@);
        }
    }
}

/// Trimming a string without whitespace changes nothing.
proof fn lemma_trim_clean(s: Seq<char>)
    requires
        forall|j: int| 0 <= j < s.len() ==> !crate::strutil::is_space(#[trigger] s[j]),
    ensures
        spec_trim(s) == s,
{
    if s.len() > 0 {
        assert(!crate::strutil::is_space(s[0]));
        assert(!crate::strutil::is_space(s.last()));
    }
}

/// The wire form from entry `i` on: the remaining entries joined by
/// commas.
spec fn entries_suffix(ks: Seq<Seq<char>>, vs: Seq<NodeStatus>, i: int) -> Seq<char>
    decreases ks.len() - i,
{
    if i < 0 || i >= ks.len() {
        Seq::empty()
    } else if i == ks.len() - 1 {
        entry_str(ks[i], vs[i])
    } else {
        entry_str(ks[i], vs[i]) + seq![','] + entries_suffix(ks, vs, i + 1)
    }
}

/// The left-joined and the right-joined spelling agree.
proof fn lemma_prefix_is_suffix(ks: Seq<Seq<char>>, vs: Seq<NodeStatus>, i: int)
    requires
        ks.len() > 0,
        1 <= i <= ks.len(),
    ensures
        entries_prefix(ks, vs, ks.len() as int) == entries_prefix(ks, vs, i) + (if i
            == ks.len() {
            Seq::empty()
        } else {
            seq![','] + entries_suffix(ks, vs, i)
        }),
    decreases ks.len() - i,
{
    let n = ks.len() as int;
    if i == n {
        assert(entries_prefix(ks, vs, n) + Seq::<char>::empty() =~= entries_prefix(ks, vs, n));
    } else {
        lemma_prefix_is_suffix(ks, vs, i + 1);
        if i + 1 == n {
            assert(entries_prefix(ks, vs, n) == entries_prefix(ks, vs, i) + seq![','] + entry_str(
                ks[i],
                vs[i],
            ));
            assert(entries_suffix(ks, vs, i) == entry_str(ks[i], vs[i]));
            assert(entries_prefix(ks, vs, i) + seq![','] + entry_str(ks[i], vs[i])
                =~= entries_prefix(ks, vs, i) + (seq![','] + entries_suffix(ks, vs, i)));
        } else {
            assert(entries_prefix(ks, vs, i + 1) == entries_prefix(ks, vs, i) + seq![',']
                + entry_str(ks[i], vs[i]));
            assert(entries_suffix(ks, vs, i) == entry_str(ks[i], vs[i]) + seq![',']
                + entries_suffix(ks, vs, i + 1));
            assert((entries_prefix(ks, vs, i) + seq![','] + entry_str(ks[i], vs[i])) + (
            seq![','] + entries_suffix(ks, vs, i + 1)) =~= entries_prefix(ks, vs, i) + (
            seq![','] + entries_suffix(ks, vs, i)));
        }
    }
}

/// Parsing the suffix gives back exactly the remaining pairs.
proof fn lemma_suffix_parses(m: KvList<NodeStatus>, i: int)
    requires
        m.wf(),
        wire_safe_map(m),
        0 <= i < m.spec_len(),
    ensures
        clean_entries(
            spec_split_all(entries_suffix(m.key_seq(), m.val_seq(), i), ','),
        ) =~= pair_seq(m).subrange(i, m.spec_len() as int),
    decreases m.spec_len() - i,
{
    let ks = m.key_seq();
    let vs = m.val_seq();
    let n = m.spec_len() as int;
    let e = entry_str(ks[i], vs[i]);
    lemma_entry_kv_exact(ks[i], vs[i]);
    if i == n - 1 {
        let s = entries_suffix(ks, vs, i);
        assert(s == e);
        crate::strutil::lemma_find_props(s, ',');
        if crate::strutil::spec_find(s, ',') >= 0 {
            assert(s[crate::strutil::spec_find(s, ',')] == ',');
        }
        assert(spec_split_all(s, ',') =~= seq![s]);
        assert(seq![s].drop_first() =~= Seq::<Seq<char>>::empty());
        assert(clean_entries(Seq::<Seq<char>>::empty()) =~= Seq::<
            (Seq<char>, NodeStatus),
        >::empty());
        assert(clean_entries(seq![s]) =~= seq![(ks[i], vs[i])]);
        assert(pair_seq(m).subrange(i, n) =~= seq![(ks[i], vs[i])]);
    } else {
        let s = entries_suffix(ks, vs, i);
        let rest = entries_suffix(ks, vs, i + 1);
        assert(s == e + seq![','] + rest);
        assert(forall|j: int| 0 <= j < e.len() ==> s[j] == e[j] && s[j] != ',');
        assert(s[e.len() as int] == ',');
        crate::strutil::lemma_find_is_first(s, ',', e.len() as int);
        assert(spec_split_head(s, ',') =~= e);
        assert(spec_split_rest(s, ',') =~= rest);
        lemma_suffix_parses(m, i + 1);
        assert(spec_split_all(s, ',') == seq![e] + spec_split_all(rest, ','));
        assert(clean_entries(seq![e] + spec_split_all(rest, ','))
            =~= seq![(ks[i], vs[i])] + clean_entries(spec_split_all(rest, ','))) by {
            let parts = seq![e] + spec_split_all(rest, ',');
            assert(parts[0] == e);
            assert(parts.drop_first() =~= spec_split_all(rest, ','));
        }
        assert(seq![(ks[i], vs[i])] + pair_seq(m).subrange(i + 1, n) =~= pair_seq(m).subrange(
            i,
            n,
        ));
    }
}

/// The wire round trip: parsing a serialised netmap reads back
/// exactly its entries, in order.
pub proof fn lemma_entries_round_trip(m: KvList<NodeStatus>)
    requires
        m.wf(),
        wire_safe_map(m),
    ensures
        spec_entry_list(spec_entries_str(m)) =~= pair_seq(m),
{
    let n = m.spec_len() as int;
    if n == 0 {
        let s = spec_entries_str(m);
        assert(s =~= Seq::<char>::empty());
        assert(spec_split_all(s, ',') =~= seq![s]);
        assert(spec_entry_kv(s) is None);
        assert(seq![s].drop_first() =~= Seq::<Seq<char>>::empty());
        assert(clean_entries(Seq::<Seq<char>>::empty()) =~= Seq::<
            (Seq<char>, NodeStatus),
        >::empty());
        assert(pair_seq(m) =~= Seq::<(Seq<char>, NodeStatus)>::empty());
    } else {
        lemma_prefix_is_suffix(m.key_seq(), m.val_seq(), 1);
        if n == 1 {
            assert(spec_entries_str(m) == entries_prefix(m.key_seq(), m.val_seq(), 1));
            assert(entries_prefix(m.key_seq(), m.val_seq(), 1) == entries_suffix(
                m.key_seq(),
                m.val_seq(),
                0,
            ));
        } else {
            assert(entries_prefix(m.key_seq(), m.val_seq(), 1) == entry_str(
                m.key_seq()[0],
                m.val_seq()[0],
            ));
            assert(spec_entries_str(m) =~= entries_suffix(m.key_seq(), m.val_seq(), 0));
        }
        lemma_suffix_parses(m, 0);
        assert(pair_seq(m).subrange(0, n) =~= pair_seq(m));
    }
}

/// The round trip in terms of lookups: the parsed list holds the
/// same keys with the same statuses.
pub proof fn lemma_entries_round_trip_content(m: KvList<NodeStatus>)
    requires
        m.wf(),
        wire_safe_map(m),
    ensures
        forall|k: Seq<char>|
            #[trigger] list_has_key(spec_entry_list(spec_entries_str(m)), k) == m.has_key(k),
        forall|k: Seq<char>|
            m.has_key(k) ==> #[trigger] list_last_val(spec_entry_list(spec_entries_str(m)), k)
                == m.spec_get(k),
{
    lemma_entries_round_trip(m);
    let l = spec_entry_list(spec_entries_str(m));
    assert(l == pair_seq(m));
    assert forall|k: Seq<char>| #[trigger] list_has_key(l, k) == m.has_key(k) by {
        if list_has_key(l, k) {
            let i = choose|i: int| 0 <= i < l.len() && l[i].0 == k;
            assert(m.key_seq()[i] == k);
        }
        if m.has_key(k) {
            let i = m.key_idx(k);
            assert(l[i].0 == k);
        }
    }
    assert forall|a: int, b: int|
        0 <= a < l.len() && 0 <= b < l.len() && a != b implies (#[trigger] l[a].0) != (
    #[trigger] l[b].0) by {
        m.lemma_distinct(a, b);
    }
    assert forall|k: Seq<char>| m.has_key(k) implies #[trigger] list_last_val(l, k)
        == m.spec_get(k) by {
        let i = m.key_idx(k);
        assert(l[i].0 == k && l[i].1 == m.spec_get(k));
        crate::kv::lemma_list_last_distinct(l, i, k);
    }
}

} // verus!
