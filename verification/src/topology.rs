//! The topology map: the directed ring as `from->to` edges joined by
//! semicolons, and its parsed form.
use vstd::prelude::*;

use crate::kv::{lemma_list_push, list_has_key, list_last_val, KvList};
use crate::strutil::{spec_find, spec_port_str, spec_split_all, spec_split_head, spec_split_rest, split_first};

verus! {

/// Whether an edge arrow `->` starts at position `j` of `s`.
pub open spec fn arrow_at(s: Seq<char>, j: int) -> bool {
    0 <= j && j + 1 < s.len() && s[j] == '-' && s[j + 1] == '>'
}

/// Index of the first `->` in `s`, or -1 when there is none.
pub open spec fn spec_find_arrow(s: Seq<char>) -> int
    decreases s.len(),
{
    if s.len() < 2 {
        -1
    } else if s[0] == '-' && s[1] == '>' {
        0
    } else {
        let r = spec_find_arrow(s.drop_first());
        if r < 0 {
            -1
        } else {
            r + 1
        }
    }
}

pub proof fn lemma_find_arrow_props(s: Seq<char>)
    ensures
        spec_find_arrow(s) < 0 ==> forall|j: int| !#[trigger] arrow_at(s, j),
        spec_find_arrow(s) >= 0 ==> arrow_at(s, spec_find_arrow(s)) && forall|j: int|
            0 <= j < spec_find_arrow(s) ==> !#[trigger] arrow_at(s, j),
    decreases s.len(),
{
    if s.len() >= 2 && !(s[0] == '-' && s[1] == '>') {
        let t = s.drop_first();
        lemma_find_arrow_props(t);
        assert(forall|j: int| 1 <= j < s.len() ==> s[j] == t[j - 1]);
        assert forall|j: int| arrow_at(s, j) implies arrow_at(t, j - 1) || j == 0 by {}
    }
}

proof fn lemma_find_arrow_skip(s: Seq<char>, k: int)
    requires
        0 <= k,
        k + 1 <= s.len(),
        forall|j: int| 0 <= j < k ==> !#[trigger] arrow_at(s, j),
    ensures
        spec_find_arrow(s) == if spec_find_arrow(s.subrange(k, s.len() as int)) < 0 {
            -1
        } else {
            k + spec_find_arrow(s.subrange(k, s.len() as int))
        },
    decreases k,
{
    if k == 0 {
        assert(s.subrange(0, s.len() as int) =~= s);
    } else {
        assert(!arrow_at(s, 0));
        let t = s.drop_first();
        assert(forall|j: int| 1 <= j < s.len() ==> s[j] == t[j - 1]);
        assert forall|j: int| 0 <= j < k - 1 implies !#[trigger] arrow_at(t, j) by {
            assert(!arrow_at(s, j + 1));
            if arrow_at(t, j) {
                assert(s[j + 1] == t[j]);
                assert(s[j + 2] == t[j + 1]);
                assert(arrow_at(s, j + 1));
            }
        }
        lemma_find_arrow_skip(t, k - 1);
        assert(t.subrange(k - 1, t.len() as int) =~= s.subrange(k, s.len() as int));
    }
}

/// The edge `from->to` of one part: text before the first `->` and
/// text after it; None without an arrow or for an empty part.
pub open spec fn spec_edge_kv(part: Seq<char>) -> Option<(Seq<char>, Seq<char>)> {
    if part.len() == 0 {
        None
    } else if spec_find_arrow(part) < 0 {
        None
    } else {
        let i = spec_find_arrow(part);
        Some((part.subrange(0, i), part.subrange(i + 2, part.len() as int)))
    }
}

/// Split one part at its first `->`.
fn split_arrow<'a>(part: &'a str) -> (r: Option<(&'a str, &'a str)>)
    ensures
        match r {
            Some((f, t)) => spec_find_arrow(part@) >= 0 && f@ == part@.subrange(
                0,
                spec_find_arrow(part@),
            ) && t@ == part@.subrange(spec_find_arrow(part@) + 2, part@.len() as int),
            None => spec_find_arrow(part@) < 0,
        },
{
    let n = part.unicode_len();
    if n < 2 {
        proof {
            lemma_find_arrow_props(part@);
            if spec_find_arrow(part@) >= 0 {
                assert(arrow_at(part@, spec_find_arrow(part@)));
            }
        }
        return None;
    }
    let mut i: usize = 0;
    while i + 1 < n
        invariant
            i + 1 <= n,
            n == part@.len(),
            n >= 2,
            forall|j: int| 0 <= j < i ==> !#[trigger] arrow_at(part@, j),
        decreases n - i,
    {
        if part.get_char(i) == '-' && part.get_char(i + 1) == '>' {
            proof {
                lemma_find_arrow_skip(part@, i as int);
                let t = part@.subrange(i as int, n as int);
                assert(t[0] == '-' && t[1] == '>');
            }
            return Some((part.substring_char(0, i), part.substring_char(i + 2, n)));
        }
        proof {
            assert(!arrow_at(part@, i as int));
        }
        i = i + 1;
    }
    proof {
        assert(forall|j: int| !#[trigger] arrow_at(part@, j));
        lemma_find_arrow_props(part@);
        if spec_find_arrow(part@) >= 0 {
            assert(arrow_at(part@, spec_find_arrow(part@)));
        }
    }
    None
}

pub open spec fn clean_edges(parts: Seq<Seq<char>>) -> Seq<(Seq<char>, Seq<char>)>
    decreases parts.len(),
{
    if parts.len() == 0 {
        Seq::empty()
    } else {
        match spec_edge_kv(parts[0]) {
            Option::None => clean_edges(parts.drop_first()),
            Option::Some(p) => seq![p] + clean_edges(parts.drop_first()),
        }
    }
}

/// The well-formed edges of a history string, in wire order.
pub open spec fn spec_edge_list(s: Seq<char>) -> Seq<(Seq<char>, Seq<char>)> {
    clean_edges(spec_split_all(s, ';'))
}

/// Parse `7000->7001;7001->7002` into a map from port to next port.
/// A later edge for the same port overrides an earlier one.
pub fn parse_history(history: &str) -> (r: KvList<String>)
    ensures
        r.wf(),
        forall|k: Seq<char>| r.has_key(k) == list_has_key(spec_edge_list(history@), k),
        forall|k: Seq<char>|
            list_has_key(spec_edge_list(history@), k) ==> r.spec_get(k)@ == list_last_val(
                spec_edge_list(history@),
                k,
            ),
{
    let ghost full = spec_edge_list(history@);
    let mut m: KvList<String> = KvList::new();
    let mut rest: &str = history;
    let ghost mut done: Seq<(Seq<char>, Seq<char>)> = Seq::empty();
    loop
        invariant_except_break
            full == done + spec_edge_list(rest@),
        invariant
            m.wf(),
            forall|k: Seq<char>| m.has_key(k) == list_has_key(done, k),
            forall|k: Seq<char>|
                list_has_key(done, k) ==> m.spec_get(k)@ == list_last_val(done, k),
        ensures
            m.wf(),
            forall|k: Seq<char>| m.has_key(k) == list_has_key(full, k),
            forall|k: Seq<char>|
                list_has_key(full, k) ==> m.spec_get(k)@ == list_last_val(full, k),
        decreases rest@.len(),
    {
        let (part, tail) = split_first(rest, ';');
        let ghost parts = spec_split_all(rest@, ';');
        proof {
            crate::strutil::lemma_find_props(rest@, ';');
            if spec_find(rest@, ';') < 0 {
                assert(parts =~= seq![rest@]);
            }
            assert(parts.drop_first() =~= if spec_find(rest@, ';') < 0 {
                Seq::<Seq<char>>::empty()
            } else {
                spec_split_all(tail@, ';')
            });
            if spec_find(rest@, ';') < 0 {
                assert(clean_edges(parts.drop_first()) =~= Seq::<
                    (Seq<char>, Seq<char>),
                >::empty());
            }
        }
        if part.unicode_len() > 0 {
            match split_arrow(part) {
                Some((from, to)) => {
                    let ghost p = (from@, to@);
                    proof {
                        assert(spec_edge_kv(part@) == Option::Some(p));
                    }
                    m.insert(from.to_owned(), to.to_owned());
                    proof {
                        assert forall|k2: Seq<char>|
                            m.has_key(k2) == list_has_key(done.push(p), k2) by {
                            lemma_list_push(done, p, k2);
                        }
                        assert forall|k2: Seq<char>|
                            list_has_key(done.push(p), k2) implies m.spec_get(k2)@
                            == list_last_val(done.push(p), k2) by {
                            lemma_list_push(done, p, k2);
                        }
                        done = done.push(p);
                    }
                },
                None => {
                    proof {
                        assert(spec_edge_kv(part@) is None);
                    }
                },
            }
        } else {
            proof {
                assert(spec_edge_kv(part@) is None);
            }
        }
        proof {
            if spec_find(rest@, ';') < 0 {
                assert(full == done);
            } else {
                assert(full == done + spec_edge_list(tail@)) by {
                    if spec_edge_kv(part@) is Some {
                        let p0 = spec_edge_kv(part@)->Some_0;
                        assert(done.drop_last() + (seq![p0] + clean_edges(parts.drop_first()))
                            =~= done + clean_edges(parts.drop_first()));
                    }
                }
            }
        }
        if crate::strutil::find_char(rest, ';').is_none() {
            break;
        }
        rest = tail;
    }
    m
}

// ---------- the wire form, written ----------

pub open spec fn edge_str(k: Seq<char>, v: Seq<char>) -> Seq<char> {
    k + seq!['-', '>'] + v
}

/// The first `i` edges of the map, joined by semicolons.
pub open spec fn history_prefix(ks: Seq<Seq<char>>, vs: Seq<String>, i: int) -> Seq<char>
    decreases i,
{
    if i <= 0 {
        Seq::empty()
    } else if i == 1 {
        edge_str(ks[0], vs[0]@)
    } else {
        history_prefix(ks, vs, i - 1) + seq![';'] + edge_str(ks[i - 1], vs[i - 1]@)
    }
}

/// The wire form of a topology map: sorted `from->to` edges joined by
/// semicolons.
pub open spec fn spec_history_str(m: KvList<String>) -> Seq<char> {
    history_prefix(m.key_seq(), m.val_seq(), m.spec_len() as int)
}

/// Serialise a topology map back to `7000->7001;7001->7002`, keys in
/// sorted order.
pub fn serialize_history(m: &KvList<String>) -> (r: String)
    requires
        m.wf(),
    ensures
        r@ == spec_history_str(*m),
{
    let n = m.len();
    let mut out = String::new();
    let mut i: usize = 0;
    while i < n
        invariant
            m.wf(),
            i <= n,
            n == m.spec_len(),
            out@ == history_prefix(m.key_seq(), m.val_seq(), i as int),
        decreases n - i,
    {
        if i > 0 {
            out.push(';');
        }
        out.append(m.key_at(i).as_str());
        out.push('-');
        out.push('>');
        out.append(m.val_at(i).as_str());
        proof {
            assert(out@ =~= history_prefix(m.key_seq(), m.val_seq(), i + 1 as int));
        }
        i = i + 1;
    }
    out
}

// ---------- the ring as a permutation cycle ----------

/// The topology map `m` stores exactly the ring over `ports`: every
/// port maps to the next one, the last wrapping to the first.
pub open spec fn ring_ports(ports: Seq<Seq<char>>, m: KvList<String>) -> bool {
    &&& ports.len() > 0
    &&& ports.no_duplicates()
    &&& forall|k: Seq<char>| #[trigger] m.has_key(k) <==> ports.contains(k)
    &&& forall|i: int|
        0 <= i < ports.len() ==> (#[trigger] m.spec_get(ports[i])@) == ports[(i + 1) % (
        ports.len() as int)]
}

/// How many hops the ring takes from position `i` to position `j`.
pub open spec fn ring_offset(i: int, j: int, n: int) -> int {
    if j >= i {
        j - i
    } else {
        j - i + n
    }
}

/// Follow the stored successor pointer `steps` times, stopping at a
/// port the map does not know.
pub open spec fn iterate_next(m: KvList<String>, k: Seq<char>, steps: nat) -> Seq<char>
    decreases steps,
{
    if steps == 0 {
        k
    } else if m.has_key(k) {
        iterate_next(m, m.spec_get(k)@, (steps - 1) as nat)
    } else {
        k
    }
}

proof fn lemma_ring_iterate(ports: Seq<Seq<char>>, m: KvList<String>, i: int, s: nat)
    requires
        m.wf(),
        ring_ports(ports, m),
        0 <= i < ports.len(),
    ensures
        iterate_next(m, ports[i], s) == ports[(i + s) % (ports.len() as int)],
    decreases s,
{
    let n = ports.len() as int;
    if s == 0 {
        vstd::arithmetic::div_mod::lemma_small_mod(i as nat, n as nat);
    } else {
        assert(ports.contains(ports[i]));
        assert(m.has_key(ports[i]));
        let j = (i + 1) % n;
        vstd::arithmetic::div_mod::lemma_mod_bound(i + 1, n);
        lemma_ring_iterate(ports, m, j, (s - 1) as nat);
        vstd::arithmetic::div_mod::lemma_add_mod_noop_right(s - 1, i + 1, n);
        assert((s - 1 + (i + 1) % n) % n == (i + s) % n);
    }
}

/// After a topology walk completes, the stored map is a permutation
/// cycle: the keys and the values are the same multiset, and
/// following the successor pointer from any port comes back after
/// exactly one full round, visiting every port on the way.
pub proof fn lemma_topology_cycle(ports: Seq<Seq<char>>, m: KvList<String>)
    requires
        m.wf(),
        ring_ports(ports, m),
    ensures
        m.key_seq().to_multiset() == m.key_seq().map_values(
            |k: Seq<char>| m.spec_get(k)@,
        ).to_multiset(),
        forall|i: int|
            0 <= i < ports.len() ==> iterate_next(m, #[trigger] ports[i], ports.len())
                == ports[i],
        forall|i: int, j: int|
            0 <= i < ports.len() && 0 <= j < ports.len() ==> ring_offset(i, j, ports.len() as int)
                < ports.len() && iterate_next(
                m,
                #[trigger] ports[i],
                ring_offset(i, j, ports.len() as int) as nat,
            ) == #[trigger] ports[j],
{
    broadcast use vstd::seq_lib::group_to_multiset_ensures;

    let n = ports.len() as int;
    // one full round returns home
    assert forall|i: int| 0 <= i < n implies iterate_next(m, #[trigger] ports[i], ports.len())
        == ports[i] by {
        lemma_ring_iterate(ports, m, i, n as nat);
        vstd::arithmetic::div_mod::lemma_mod_multiples_vanish(1, i, n);
        vstd::arithmetic::div_mod::lemma_small_mod(i as nat, n as nat);
    }
    // every port is reached within one round
    assert forall|i: int, j: int| 0 <= i < n && 0 <= j < n implies ring_offset(i, j, n) < n
        && iterate_next(m, #[trigger] ports[i], ring_offset(i, j, n) as nat)
        == #[trigger] ports[j] by {
        let s: int = ring_offset(i, j, n);
        lemma_ring_iterate(ports, m, i, s as nat);
        if j >= i {
            vstd::arithmetic::div_mod::lemma_small_mod((j - i + i) as nat, n as nat);
        } else {
            vstd::arithmetic::div_mod::lemma_mod_multiples_vanish(1, j, n);
            vstd::arithmetic::div_mod::lemma_small_mod(j as nat, n as nat);
        }
        assert(iterate_next(m, ports[i], s as nat) == ports[j]);
    }
    // keys and values are the same multiset
    let keys = m.key_seq();
    let f = |k: Seq<char>| m.spec_get(k)@;
    let vals = keys.map_values(f);
    assert(keys.no_duplicates()) by {
        assert forall|a: int, b: int|
            0 <= a < keys.len() && 0 <= b < keys.len() && a != b implies keys[a] != keys[b] by {
            m.lemma_distinct(a, b);
        }
    }
    // every key is one of the ports
    assert forall|a: int| 0 <= a < keys.len() implies ports.contains(#[trigger] keys[a]) by {
        assert(m.has_key(keys[a]));
    }
    // the value under a key is the port after it on the ring
    assert forall|a: int| 0 <= a < keys.len() implies ports.contains(#[trigger] vals[a]) by {
        let ia = choose|ia: int| 0 <= ia < n && ports[ia] == keys[a];
        vstd::arithmetic::div_mod::lemma_mod_bound(ia + 1, n);
        assert(vals[a] == ports[(ia + 1) % n]);
    }
    assert(vals.no_duplicates()) by {
        assert forall|a: int, b: int|
            0 <= a < vals.len() && 0 <= b < vals.len() && a != b implies vals[a] != vals[b] by {
            let ia = choose|ia: int| 0 <= ia < n && ports[ia] == keys[a];
            let ib = choose|ib: int| 0 <= ib < n && ports[ib] == keys[b];
            m.lemma_distinct(a, b);
            vstd::arithmetic::div_mod::lemma_mod_bound(ia + 1, n);
            vstd::arithmetic::div_mod::lemma_mod_bound(ib + 1, n);
            if vals[a] == vals[b] {
                assert(ports[(ia + 1) % n] == ports[(ib + 1) % n]);
                assert((ia + 1) % n == (ib + 1) % n);
                if ia + 1 < n {
                    vstd::arithmetic::div_mod::lemma_small_mod((ia + 1) as nat, n as nat);
                } else {
                    vstd::arithmetic::div_mod::lemma_mod_self_0(n);
                }
                if ib + 1 < n {
                    vstd::arithmetic::div_mod::lemma_small_mod((ib + 1) as nat, n as nat);
                } else {
                    vstd::arithmetic::div_mod::lemma_mod_self_0(n);
                }
                assert(ia == ib);
                assert(keys[a] == keys[b]);
            }
        }
    }
    // same membership both ways
    assert forall|x: Seq<char>| keys.contains(x) implies vals.contains(x) by {
        let a = choose|a: int| 0 <= a < keys.len() && keys[a] == x;
        let ia = choose|ia: int| 0 <= ia < n && ports[ia] == x;
        let prev: int = if ia == 0 {
            n - 1
        } else {
            ia - 1
        };
        // the port before x maps to x
        assert((prev + 1) % n == ia) by {
            if ia == 0 {
                vstd::arithmetic::div_mod::lemma_mod_self_0(n);
            } else {
                vstd::arithmetic::div_mod::lemma_small_mod(ia as nat, n as nat);
            }
        }
        assert(ports.contains(ports[prev]));
        assert(m.has_key(ports[prev]));
        let b = choose|b: int| 0 <= b < keys.len() && keys[b] == ports[prev];
        if m.key_idx(ports[prev]) != b {
            m.lemma_distinct(m.key_idx(ports[prev]), b);
        }
        assert(vals[b] == m.spec_get(ports[prev])@);
        assert(vals[b] == ports[ia]);
    }
    assert forall|x: Seq<char>| vals.contains(x) implies keys.contains(x) by {
        let a = choose|a: int| 0 <= a < vals.len() && vals[a] == x;
        assert(ports.contains(vals[a]));
        assert(m.has_key(x));
    }
    // equal membership of duplicate-free sequences means equal counts
    keys.lemma_multiset_has_no_duplicates();
    vals.lemma_multiset_has_no_duplicates();
    assert forall|x: Seq<char>|
        keys.to_multiset().count(x) == #[trigger] vals.to_multiset().count(x) by {
        if keys.contains(x) {
            assert(vals.contains(x));
        } else {
            assert(!vals.contains(x));
            assert(keys.to_multiset().count(x) == 0);
            assert(vals.to_multiset().count(x) == 0);
        }
    }
    assert(keys.to_multiset() =~= vals.to_multiset());
}

// ---------- the wire round trip ----------

/// A port name that survives the history wire form: non-empty, no
/// `;`, and no `->` anywhere in it.
pub open spec fn wire_safe_port(k: Seq<char>) -> bool {
    &&& k.len() > 0
    &&& forall|j: int| 0 <= j < k.len() ==> (#[trigger] k[j]) != ';'
    &&& forall|j: int| !#[trigger] arrow_at(k, j)
}

pub open spec fn wire_safe_topology(m: KvList<String>) -> bool {
    &&& forall|i: int| 0 <= i < m.spec_len() ==> wire_safe_port(#[trigger] m.key_seq()[i])
    &&& forall|i: int|
        0 <= i < m.spec_len() ==> ((#[trigger] m.val_seq()[i]@).len() > 0 && forall|j: int|
            0 <= j < m.val_seq()[i]@.len() ==> (#[trigger] m.val_seq()[i]@[j]) != ';')
}

/// The map's edges as parsed pairs, in storage order.
pub open spec fn edge_pair_seq(m: KvList<String>) -> Seq<(Seq<char>, Seq<char>)> {
    Seq::new(m.spec_len(), |i: int| (m.key_seq()[i], m.val_seq()[i]@))
}

/// A wire-safe edge reads back as exactly its two ports.
proof fn lemma_edge_kv_exact(k: Seq<char>, v: Seq<char>)
    requires
        wire_safe_port(k),
    ensures
        spec_edge_kv(edge_str(k, v)) == Some((k, v)),
{
    reveal_strlit("->");
    let s = edge_str(k, v);
    assert(s.len() == k.len() + 2 + v.len());
    assert(forall|j: int| 0 <= j < k.len() ==> s[j] == k[j]);
    assert(s[k.len() as int] == '-' && s[k.len() as int + 1] == '>');
    assert(arrow_at(s, k.len() as int));
    assert forall|j: int| 0 <= j < k.len() implies !#[trigger] arrow_at(s, j) by {
        if j < k.len() - 1 {
            assert(!arrow_at(k, j));
            assert(s[j] == k[j] && s[j + 1] == k[j + 1]);
        } else if j == k.len() - 1 {
            assert(s[j + 1] == '-');
        }
    }
    lemma_find_arrow_is_first(s, k.len() as int);
    assert(s.subrange(0, k.len() as int) =~= k);
    assert(s.subrange(k.len() as int + 2, s.len() as int) =~= v);
}

/// A position carrying an arrow with none before it is where the
/// arrow find lands.
proof fn lemma_find_arrow_is_first(s: Seq<char>, k: int)
    requires
        arrow_at(s, k),
        forall|j: int| 0 <= j < k ==> !#[trigger] arrow_at(s, j),
    ensures
        spec_find_arrow(s) == k,
{
    lemma_find_arrow_skip(s, k);
    let t = s.subrange(k, s.len() as int);
    assert(t[0] == '-' && t[1] == '>');
}

/// The history from edge `i` on: the remaining edges joined by
/// semicolons.
spec fn history_suffix(ks: Seq<Seq<char>>, vs: Seq<String>, i: int) -> Seq<char>
    decreases ks.len() - i,
{
    if i < 0 || i >= ks.len() {
        Seq::empty()
    } else if i == ks.len() - 1 {
        edge_str(ks[i], vs[i]@)
    } else {
        edge_str(ks[i], vs[i]@) + seq![';'] + history_suffix(ks, vs, i + 1)
    }
}

proof fn lemma_history_prefix_is_suffix(ks: Seq<Seq<char>>, vs: Seq<String>, i: int)
    requires
        ks.len() > 0,
        1 <= i <= ks.len(),
    ensures
        history_prefix(ks, vs, ks.len() as int) == history_prefix(ks, vs, i) + (if i
            == ks.len() {
            Seq::empty()
        } else {
            seq![';'] + history_suffix(ks, vs, i)
        }),
    decreases ks.len() - i,
{
    let n = ks.len() as int;
    if i == n {
        assert(history_prefix(ks, vs, n) + Seq::<char>::empty() =~= history_prefix(ks, vs, n));
    } else {
        lemma_history_prefix_is_suffix(ks, vs, i + 1);
        if i + 1 == n {
            assert(history_prefix(ks, vs, i) + seq![';'] + edge_str(ks[i], vs[i]@)
                =~= history_prefix(ks, vs, i) + (seq![';'] + history_suffix(ks, vs, i)));
        } else {
            assert((history_prefix(ks, vs, i) + seq![';'] + edge_str(ks[i], vs[i]@)) + (
            seq![';'] + history_suffix(ks, vs, i + 1)) =~= history_prefix(ks, vs, i) + (
            seq![';'] + history_suffix(ks, vs, i)));
        }
    }
}

proof fn lemma_history_suffix_parses(m: KvList<String>, i: int)
    requires
        m.wf(),
        wire_safe_topology(m),
        0 <= i < m.spec_len(),
    ensures
        clean_edges(
            spec_split_all(history_suffix(m.key_seq(), m.val_seq(), i), ';'),
        ) =~= edge_pair_seq(m).subrange(i, m.spec_len() as int),
    decreases m.spec_len() - i,
{
    let ks = m.key_seq();
    let vs = m.val_seq();
    let n = m.spec_len() as int;
    let e = edge_str(ks[i], vs[i]@);
    lemma_edge_kv_exact(ks[i], vs[i]@);
    assert(forall|j: int| 0 <= j < ks[i].len() ==> e[j] == ks[i][j]);
    assert(e[ks[i].len() as int] == '-' && e[ks[i].len() as int + 1] == '>');
    assert(forall|j: int| 0 <= j < vs[i]@.len() ==> e[ks[i].len() + 2 + j] == vs[i]@[j]);
    assert forall|j: int| 0 <= j < e.len() implies (#[trigger] e[j]) != ';' by {
        if j >= ks[i].len() + 2 {
            assert(e[j] == vs[i]@[j - ks[i].len() - 2]);
        }
    }
    if i == n - 1 {
        let s = history_suffix(ks, vs, i);
        assert(s == e);
        crate::strutil::lemma_find_props(s, ';');
        if spec_find(s, ';') >= 0 {
            assert(s[spec_find(s, ';')] == ';');
        }
        assert(spec_split_all(s, ';') =~= seq![s]);
        assert(seq![s].drop_first() =~= Seq::<Seq<char>>::empty());
        assert(clean_edges(Seq::<Seq<char>>::empty()) =~= Seq::<(Seq<char>, Seq<char>)>::empty());
        assert(clean_edges(seq![s]) =~= seq![(ks[i], vs[i]@)]);
        assert(edge_pair_seq(m).subrange(i, n) =~= seq![(ks[i], vs[i]@)]);
    } else {
        let s = history_suffix(ks, vs, i);
        let rest = history_suffix(ks, vs, i + 1);
        assert(s == e + seq![';'] + rest);
        assert(forall|j: int| 0 <= j < e.len() ==> s[j] == e[j] && s[j] != ';');
        assert(s[e.len() as int] == ';');
        crate::strutil::lemma_find_is_first(s, ';', e.len() as int);
        assert(spec_split_head(s, ';') =~= e);
        assert(spec_split_rest(s, ';') =~= rest);
        lemma_history_suffix_parses(m, i + 1);
        assert(spec_split_all(s, ';') == seq![e] + spec_split_all(rest, ';'));
        assert(clean_edges(seq![e] + spec_split_all(rest, ';')) =~= seq![(ks[i], vs[i]@)]
            + clean_edges(spec_split_all(rest, ';'))) by {
            let parts = seq![e] + spec_split_all(rest, ';');
            assert(parts[0] == e);
            assert(parts.drop_first() =~= spec_split_all(rest, ';'));
        }
        assert(seq![(ks[i], vs[i]@)] + edge_pair_seq(m).subrange(i + 1, n)
            =~= edge_pair_seq(m).subrange(i, n));
    }
}

/// The wire round trip: parsing a serialised topology map reads back
/// exactly its edges, in order. A broadcast `TOPOLOGY SET` therefore
/// reproduces the sender's ring on every receiver.
pub proof fn lemma_history_round_trip(m: KvList<String>)
    requires
        m.wf(),
        wire_safe_topology(m),
    ensures
        spec_edge_list(spec_history_str(m)) =~= edge_pair_seq(m),
{
    let n = m.spec_len() as int;
    if n == 0 {
        let s = spec_history_str(m);
        assert(s =~= Seq::<char>::empty());
        assert(spec_split_all(s, ';') =~= seq![s]);
        assert(spec_edge_kv(s) is None);
        assert(seq![s].drop_first() =~= Seq::<Seq<char>>::empty());
        assert(clean_edges(Seq::<Seq<char>>::empty()) =~= Seq::<(Seq<char>, Seq<char>)>::empty());
        assert(edge_pair_seq(m) =~= Seq::<(Seq<char>, Seq<char>)>::empty());
    } else {
        lemma_history_prefix_is_suffix(m.key_seq(), m.val_seq(), 1);
        if n == 1 {
            assert(history_prefix(m.key_seq(), m.val_seq(), 1) == history_suffix(
                m.key_seq(),
                m.val_seq(),
                0,
            ));
        } else {
            assert(spec_history_str(m) =~= history_suffix(m.key_seq(), m.val_seq(), 0));
        }
        lemma_history_suffix_parses(m, 0);
        assert(edge_pair_seq(m).subrange(0, n) =~= edge_pair_seq(m));
    }
}

/// The round trip in terms of lookups: the parsed list holds the
/// same ports with the same successors.
pub proof fn lemma_history_round_trip_content(m: KvList<String>)
    requires
        m.wf(),
        wire_safe_topology(m),
    ensures
        forall|k: Seq<char>|
            #[trigger] list_has_key(spec_edge_list(spec_history_str(m)), k) == m.has_key(k),
        forall|k: Seq<char>|
            m.has_key(k) ==> #[trigger] list_last_val(spec_edge_list(spec_history_str(m)), k)
                == m.spec_get(k)@,
{
    lemma_history_round_trip(m);
    let l = spec_edge_list(spec_history_str(m));
    assert(l == edge_pair_seq(m));
    assert forall|k: Seq<char>| #[trigger] list_has_key(l, k) == m.has_key(k) by {
        if list_has_key(l, k) {
            let i = choose|i: int| 0 <= i < l.len() && l[i].0 == k;
            assert(m.key_seq()[i] == k);
        }
        if m.has_key(k) {
            let i = m.key_idx(k);
            assert(l[i].0 == k);
        }
    }
    assert forall|a: int, b: int|
        0 <= a < l.len() && 0 <= b < l.len() && a != b implies (#[trigger] l[a].0) != (
    #[trigger] l[b].0) by {
        m.lemma_distinct(a, b);
    }
    assert forall|k: Seq<char>| m.has_key(k) implies #[trigger] list_last_val(l, k)
        == m.spec_get(k)@ by {
        let i = m.key_idx(k);
        assert(l[i].0 == k && l[i].1 == m.spec_get(k)@);
        crate::kv::lemma_list_last_distinct(l, i, k);
    }
}

// ---------- a walk's history, parsed into a ring ----------

/// One edge of a raw walk history: a safe port on the left, and a
/// non-empty right side that cannot break the `;` framing.
pub open spec fn clean_edge(p: (Seq<char>, Seq<char>)) -> bool {
    &&& wire_safe_port(p.0)
    &&& p.1.len() > 0
    &&& forall|j: int| 0 <= j < p.1.len() ==> (#[trigger] p.1[j]) != ';'
}

/// Edges joined into one history line, from edge `i` on: exactly the
/// string a walk accumulates edge by edge.
pub open spec fn edges_joined(ps: Seq<(Seq<char>, Seq<char>)>, i: int) -> Seq<char>
    decreases ps.len() - i,
{
    if i < 0 || i >= ps.len() {
        Seq::empty()
    } else if i == ps.len() - 1 {
        edge_str(ps[i].0, ps[i].1)
    } else {
        edge_str(ps[i].0, ps[i].1) + seq![';'] + edges_joined(ps, i + 1)
    }
}

/// Parsing a joined edge list reads back exactly those edges.
pub proof fn lemma_edges_joined_parse(ps: Seq<(Seq<char>, Seq<char>)>, i: int)
    requires
        forall|a: int| 0 <= a < ps.len() ==> clean_edge(#[trigger] ps[a]),
        0 <= i < ps.len(),
    ensures
        spec_edge_list(edges_joined(ps, i)) =~= ps.subrange(i, ps.len() as int),
    decreases ps.len() - i,
{
    let n = ps.len() as int;
    let e = edge_str(ps[i].0, ps[i].1);
    lemma_edge_kv_exact(ps[i].0, ps[i].1);
    assert(forall|j: int| 0 <= j < ps[i].0.len() ==> e[j] == ps[i].0[j]);
    assert(e[ps[i].0.len() as int] == '-' && e[ps[i].0.len() as int + 1] == '>');
    assert(forall|j: int|
        0 <= j < ps[i].1.len() ==> e[ps[i].0.len() + 2 + j] == ps[i].1[j]);
    assert forall|j: int| 0 <= j < e.len() implies (#[trigger] e[j]) != ';' by {
        reveal_strlit("->");
        if j >= ps[i].0.len() + 2 {
            assert(e[j] == ps[i].1[j - ps[i].0.len() - 2]);
        }
    }
    if i == n - 1 {
        let s = edges_joined(ps, i);
        assert(s == e);
        crate::strutil::lemma_find_props(s, ';');
        if spec_find(s, ';') >= 0 {
            assert(s[spec_find(s, ';')] == ';');
        }
        assert(spec_split_all(s, ';') =~= seq![s]);
        assert(seq![s].drop_first() =~= Seq::<Seq<char>>::empty());
        assert(clean_edges(Seq::<Seq<char>>::empty()) =~= Seq::<(Seq<char>, Seq<char>)>::empty());
        assert(clean_edges(seq![s]) =~= seq![(ps[i].0, ps[i].1)]);
        assert(ps.subrange(i, n) =~= seq![(ps[i].0, ps[i].1)]);
    } else {
        let s = edges_joined(ps, i);
        let rest = edges_joined(ps, i + 1);
        assert(s == e + seq![';'] + rest);
        assert(forall|j: int| 0 <= j < e.len() ==> s[j] == e[j] && s[j] != ';');
        assert(s[e.len() as int] == ';');
        crate::strutil::lemma_find_is_first(s, ';', e.len() as int);
        assert(spec_split_head(s, ';') =~= e);
        assert(spec_split_rest(s, ';') =~= rest);
        lemma_edges_joined_parse(ps, i + 1);
        assert(spec_split_all(s, ';') == seq![e] + spec_split_all(rest, ';'));
        assert(clean_edges(seq![e] + spec_split_all(rest, ';')) =~= seq![(ps[i].0, ps[i].1)]
            + clean_edges(spec_split_all(rest, ';'))) by {
            let parts = seq![e] + spec_split_all(rest, ';');
            assert(parts[0] == e);
            assert(parts.drop_first() =~= spec_split_all(rest, ';'));
        }
        assert(seq![(ps[i].0, ps[i].1)] + ps.subrange(i + 1, n) =~= ps.subrange(i, n));
    }
}

/// The edges a complete walk over `ports` writes: each port to the
/// next, the last wrapping to the first.
pub open spec fn ring_edges(ports: Seq<Seq<char>>) -> Seq<(Seq<char>, Seq<char>)> {
    Seq::new(ports.len(), |i: int| (ports[i], ports[(i + 1) % (ports.len() as int)]))
}

/// A map whose content is the parse of a complete walk history is
/// the ring over those ports: the premise of `lemma_topology_cycle`,
/// discharged from the wire. The content premises here are exactly
/// what `parse_history` promises of the stored map.
pub proof fn lemma_walk_history_is_ring(ports: Seq<Seq<char>>, m: KvList<String>)
    requires
        m.wf(),
        ports.len() > 0,
        ports.no_duplicates(),
        forall|i: int| 0 <= i < ports.len() ==> wire_safe_port(#[trigger] ports[i]),
        forall|k: Seq<char>|
            #[trigger] m.has_key(k) == list_has_key(
                spec_edge_list(edges_joined(ring_edges(ports), 0)),
                k,
            ),
        forall|k: Seq<char>|
            list_has_key(spec_edge_list(edges_joined(ring_edges(ports), 0)), k)
                ==> #[trigger] m.spec_get(k)@ == list_last_val(
                spec_edge_list(edges_joined(ring_edges(ports), 0)),
                k,
            ),
    ensures
        ring_ports(ports, m),
{
    let n = ports.len() as int;
    let ps = ring_edges(ports);
    assert forall|a: int| 0 <= a < ps.len() implies clean_edge(#[trigger] ps[a]) by {
        vstd::arithmetic::div_mod::lemma_mod_bound(a + 1, n);
        assert(ps[a].0 == ports[a] && ps[a].1 == ports[(a + 1) % n]);
        assert(wire_safe_port(ports[(a + 1) % n]));
        assert forall|j: int| 0 <= j < ps[a].1.len() implies (#[trigger] ps[a].1[j]) != ';' by {
            assert(ps[a].1[j] == ports[(a + 1) % n][j]);
        }
    }
    lemma_edges_joined_parse(ps, 0);
    let l = spec_edge_list(edges_joined(ps, 0));
    assert(l =~= ps);
    // membership: the keys are exactly the ports
    assert forall|k: Seq<char>| #[trigger] m.has_key(k) <==> ports.contains(k) by {
        if m.has_key(k) {
            let i = choose|i: int| 0 <= i < l.len() && l[i].0 == k;
            assert(ports[i] == k);
        }
        if ports.contains(k) {
            let i = choose|i: int| 0 <= i < n && ports[i] == k;
            assert(l[i].0 == k);
            assert(list_has_key(l, k));
        }
    }
    // the firsts of the edge list are pairwise distinct
    assert forall|a: int, b: int|
        0 <= a < l.len() && 0 <= b < l.len() && a != b implies (#[trigger] l[a].0) != (
    #[trigger] l[b].0) by {
        assert(l[a].0 == ports[a] && l[b].0 == ports[b]);
    }
    // each port maps to the next around the ring
    assert forall|i: int| 0 <= i < n implies (#[trigger] m.spec_get(ports[i])@) == ports[(i + 1)
        % n] by {
        assert(l[i].0 == ports[i]);
        assert(list_has_key(l, ports[i]));
        crate::kv::lemma_list_last_distinct(l, i, ports[i]);
        assert(l[i].1 == ports[(i + 1) % n]);
    }
}

/// The predecessor of `port`: a key whose stored successor has that
/// port part. Unique on a well-formed ring.
pub fn pred_of<'a>(m: &'a KvList<String>, port: &str) -> (r: Option<&'a String>)
    requires
        m.wf(),
    ensures
        match r {
            Some(k) => exists|i: int|
                0 <= i < m.spec_len() && m.key_seq()[i] == k@ && spec_port_str(m.val_seq()[i]@)
                    == port@,
            None => forall|i: int|
                0 <= i < m.spec_len() ==> spec_port_str(m.val_seq()[i]@) != port@,
        },
{
    let n = m.len();
    let mut i: usize = 0;
    while i < n
        invariant
            m.wf(),
            i <= n,
            n == m.spec_len(),
            forall|j: int| 0 <= j < i ==> spec_port_str(m.val_seq()[j]@) != port@,
        decreases n - i,
    {
        let v = m.val_at(i);
        if crate::strutil::str_eq(crate::strutil::port_str(v.as_str()), port) {
            return Some(m.key_at(i));
        }
        i = i + 1;
    }
    None
}

} // verus!
