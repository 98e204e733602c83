//! File tags: for every pushed file the origin port, total size and
//! part count, replicated to every node. Wire form:
//! `name:start:size:parts` entries joined by semicolons.
use vstd::prelude::*;

use crate::kv::{lemma_list_push, list_has_key, list_last_val, KvList};
use crate::strutil::{
    dec_str, parse_u16, parse_u32, parse_u64, spec_find, spec_parse_u16, spec_parse_u32,
    spec_parse_u64, spec_split_all, spec_split_head, spec_split_rest, split_first, u64_to_string,
};

verus! {

#[derive(Debug, Clone, Copy, PartialEq, Eq, Structural)]
pub struct FileTag {
    /// Port of the node the push started at.
    pub start: u16,
    /// Total size of the file in bytes.
    pub size: u64,
    /// How many chunks the file was split into.
    pub parts: u32,
}

/// One semicolon-separated part read as a tag entry: four
/// colon-separated fields, the name first, then three numbers; the
/// last field is greedy. Parts without three colons or with a number
/// that does not parse are dropped.
pub open spec fn spec_tag_kv(part: Seq<char>) -> Option<(Seq<char>, FileTag)> {
    if part.len() == 0 {
        None
    } else if spec_find(part, ':') < 0 {
        None
    } else {
        let name = spec_split_head(part, ':');
        let r1 = spec_split_rest(part, ':');
        if spec_find(r1, ':') < 0 {
            None
        } else {
            let f_start = spec_split_head(r1, ':');
            let r2 = spec_split_rest(r1, ':');
            if spec_find(r2, ':') < 0 {
                None
            } else {
                let f_size = spec_split_head(r2, ':');
                let f_parts = spec_split_rest(r2, ':');
                match (spec_parse_u16(f_start), spec_parse_u64(f_size), spec_parse_u32(f_parts)) {
                    (Some(start), Some(size), Some(parts)) => Some(
                        (name, FileTag { start, size, parts }),
                    ),
                    _ => None,
                }
            }
        }
    }
}

pub open spec fn clean_tags(parts: Seq<Seq<char>>) -> Seq<(Seq<char>, FileTag)>
    decreases parts.len(),
{
    if parts.len() == 0 {
        Seq::empty()
    } else {
        match spec_tag_kv(parts[0]) {
            Option::None => clean_tags(parts.drop_first()),
            Option::Some(p) => seq![p] + clean_tags(parts.drop_first()),
        }
    }
}

/// The well-formed tag entries of an entry string, in wire order.
pub open spec fn spec_tag_list(s: Seq<char>) -> Seq<(Seq<char>, FileTag)> {
    clean_tags(spec_split_all(s, ';'))
}

/// Parse `name:start:size:parts` entries joined by semicolons. A later
/// entry for the same name overrides an earlier one.
pub fn parse_tag_entries(entries: &str) -> (r: KvList<FileTag>)
    ensures
        r.wf(),
        forall|k: Seq<char>| r.has_key(k) == list_has_key(spec_tag_list(entries@), k),
        forall|k: Seq<char>|
            list_has_key(spec_tag_list(entries@), k) ==> r.spec_get(k) == list_last_val(
                spec_tag_list(entries@),
                k,
            ),
{
    let ghost full = spec_tag_list(entries@);
    let mut m: KvList<FileTag> = KvList::new();
    let mut rest: &str = entries;
    let ghost mut done: Seq<(Seq<char>, FileTag)> = Seq::empty();
    loop
        invariant_except_break
            full == done + spec_tag_list(rest@),
        invariant
            m.wf(),
            forall|k: Seq<char>| m.has_key(k) == list_has_key(done, k),
            forall|k: Seq<char>| list_has_key(done, k) ==> m.spec_get(k) == list_last_val(done, k),
        ensures
            m.wf(),
            forall|k: Seq<char>| m.has_key(k) == list_has_key(full, k),
            forall|k: Seq<char>| list_has_key(full, k) ==> m.spec_get(k) == list_last_val(full, k),
        decreases rest@.len(),
    {
        let (part, tail) = split_first(rest, ';');
        let ghost parts = spec_split_all(rest@, ';');
        proof {
            crate::strutil::lemma_find_props(rest@, ';');
            if spec_find(rest@, ';') < 0 {
                assert(parts =~= seq![rest@]);
            }
            assert(parts.drop_first() =~= if spec_find(rest@, ';') < 0 {
                Seq::<Seq<char>>::empty()
            } else {
                spec_split_all(tail@, ';')
            });
            if spec_find(rest@, ';') < 0 {
                assert(clean_tags(parts.drop_first()) =~= Seq::<(Seq<char>, FileTag)>::empty());
            }
        }
        match read_tag_part(part) {
            Some((name, tag)) => {
                let ghost p = (name@, tag);
                m.insert(name, tag);
                proof {
                    assert forall|k2: Seq<char>|
                        m.has_key(k2) == list_has_key(done.push(p), k2) by {
                        lemma_list_push(done, p, k2);
                    }
                    assert forall|k2: Seq<char>| list_has_key(done.push(p), k2) implies m.spec_get(
                        k2,
                    ) == list_last_val(done.push(p), k2) by {
                        lemma_list_push(done, p, k2);
                    }
                    done = done.push(p);
                }
            },
            None => {},
        }
        proof {
            if spec_find(rest@, ';') < 0 {
                assert(full == done);
            } else {
                assert(full == done + spec_tag_list(tail@)) by {
                    if spec_tag_kv(part@) is Some {
                        let p0 = spec_tag_kv(part@)->Some_0;
                        assert(done.drop_last() + (seq![p0] + clean_tags(parts.drop_first()))
                            =~= done + clean_tags(parts.drop_first()));
                    }
                }
            }
        }
        if crate::strutil::find_char(rest, ';').is_none() {
            break;
        }
        rest = tail;
    }
    m
}

/// Read one `name:start:size:parts` part.
fn read_tag_part(part: &str) -> (r: Option<(String, FileTag)>)
    ensures
        match r {
            Some((name, tag)) => spec_tag_kv(part@) == Some((name@, tag)),
            None => spec_tag_kv(part@) is None,
        },
{
    if part.unicode_len() == 0 {
        return None;
    }
    if crate::strutil::find_char(part, ':').is_none() {
        return None;
    }
    let (name, r1) = split_first(part, ':');
    if crate::strutil::find_char(r1, ':').is_none() {
        return None;
    }
    let (f_start, r2) = split_first(r1, ':');
    if crate::strutil::find_char(r2, ':').is_none() {
        return None;
    }
    let (f_size, f_parts) = split_first(r2, ':');
    let start = parse_u16(f_start);
    let size = parse_u64(f_size);
    let parts_n = parse_u32(f_parts);
    match (start, size, parts_n) {
        (Some(start), Some(size), Some(parts)) => Some(
            (name.to_owned(), FileTag { start, size, parts }),
        ),
        _ => None,
    }
}

// ---------- the wire form, written ----------

/// `:` and `;` in a name give way to `_`, so the name cannot break
/// the entry framing.
pub open spec fn spec_safe_tag_name(k: Seq<char>) -> Seq<char> {
    k.map_values(|c: char| if c == ':' || c == ';' { '_' } else { c })
}

fn safe_tag_name(k: &str) -> (r: String)
    ensures
        r@ == spec_safe_tag_name(k@),
{
    let n = k.unicode_len();
    let mut out = String::new();
    let mut i: usize = 0;
    while i < n
        invariant
            i <= n,
            n == k@.len(),
            out@ =~= spec_safe_tag_name(k@.subrange(0, i as int)),
        decreases n - i,
    {
        let c = k.get_char(i);
        if c == ':' || c == ';' {
            out.push('_');
        } else {
            out.push(c);
        }
        proof {
            assert(spec_safe_tag_name(k@.subrange(0, i + 1 as int)) =~= spec_safe_tag_name(
                k@.subrange(0, i as int),
            ).push(if k@[i as int] == ':' || k@[i as int] == ';' {
                '_'
            } else {
                k@[i as int]
            }));
        }
        i = i + 1;
    }
    proof {
        assert(k@.subrange(0, n as int) =~= k@);
    }
    out
}

pub open spec fn tag_entry_str(k: Seq<char>, t: FileTag) -> Seq<char> {
    spec_safe_tag_name(k) + seq![':'] + dec_str(t.start as nat) + seq![':'] + dec_str(
        t.size as nat,
    ) + seq![':'] + dec_str(t.parts as nat)
}

pub open spec fn tags_prefix(ks: Seq<Seq<char>>, vs: Seq<FileTag>, i: int) -> Seq<char>
    decreases i,
{
    if i <= 0 {
        Seq::empty()
    } else if i == 1 {
        tag_entry_str(ks[0], vs[0])
    } else {
        tags_prefix(ks, vs, i - 1) + seq![';'] + tag_entry_str(ks[i - 1], vs[i - 1])
    }
}

/// The wire form of the file tags: sorted `name:start:size:parts`
/// entries joined by semicolons.
pub open spec fn spec_tags_str(m: KvList<FileTag>) -> Seq<char> {
    tags_prefix(m.key_seq(), m.val_seq(), m.spec_len() as int)
}

/// Serialise file tags, names sorted, `:` and `;` in names replaced.
pub fn serialize_tag_entries(m: &KvList<FileTag>) -> (r: String)
    requires
        m.wf(),
    ensures
        r@ == spec_tags_str(*m),
{
    let n = m.len();
    let mut out = String::new();
    let mut i: usize = 0;
    while i < n
        invariant
            m.wf(),
            i <= n,
            n == m.spec_len(),
            out@ == tags_prefix(m.key_seq(), m.val_seq(), i as int),
        decreases n - i,
    {
        if i > 0 {
            out.push(';');
        }
        let tag = *m.val_at(i);
        out.append(safe_tag_name(m.key_at(i).as_str()).as_str());
        out.push(':');
        out.append(u64_to_string(tag.start as u64).as_str());
        out.push(':');
        out.append(u64_to_string(tag.size).as_str());
        out.push(':');
        out.append(u64_to_string(tag.parts as u64).as_str());
        proof {
            assert(out@ =~= tags_prefix(m.key_seq(), m.val_seq(), i + 1 as int));
        }
        i = i + 1;
    }
    out
}

// ---------- the wire round trip ----------

/// A name that the tag wire form keeps unchanged: free of the two
/// separators and of whitespace.
pub open spec fn tag_safe_name(k: Seq<char>) -> bool {
    forall|j: int|
        0 <= j < k.len() ==> !((#[trigger] k[j]) == ':' || k[j] == ';')
}

pub open spec fn tag_safe_map(m: KvList<FileTag>) -> bool {
    forall|i: int| 0 <= i < m.spec_len() ==> tag_safe_name(#[trigger] m.key_seq()[i])
}

/// The map's tags as parsed pairs, in storage order.
pub open spec fn tag_pair_seq(m: KvList<FileTag>) -> Seq<(Seq<char>, FileTag)> {
    Seq::new(m.spec_len(), |i: int| (m.key_seq()[i], m.val_seq()[i]))
}

/// A safe tag entry reads back as exactly its name and numbers.
proof fn lemma_tag_kv_exact(k: Seq<char>, t: FileTag)
    requires
        tag_safe_name(k),
    ensures
        spec_tag_kv(tag_entry_str(k, t)) == Some((k, t)),
        forall|j: int|
            0 <= j < tag_entry_str(k, t).len() ==> (#[trigger] tag_entry_str(k, t)[j]) != ';',
{
    let d1 = dec_str(t.start as nat);
    let d2 = dec_str(t.size as nat);
    let d3 = dec_str(t.parts as nat);
    crate::strutil::lemma_dec_str_digits(t.start as nat);
    crate::strutil::lemma_dec_str_digits(t.size as nat);
    crate::strutil::lemma_dec_str_digits(t.parts as nat);
    crate::strutil::lemma_dec_str_val(t.start as nat);
    crate::strutil::lemma_dec_str_val(t.size as nat);
    crate::strutil::lemma_dec_str_val(t.parts as nat);
    assert(spec_safe_tag_name(k) =~= k);
    let s = tag_entry_str(k, t);
    let kl = k.len() as int;
    let p1 = kl + 1 + d1.len() as int;
    let p2 = p1 + 1 + d2.len() as int;
    assert(s.len() == p2 + 1 + d3.len());
    assert(forall|j: int| 0 <= j < kl ==> s[j] == k[j]);
    assert(s[kl] == ':');
    assert(forall|j: int| 0 <= j < d1.len() ==> s[kl + 1 + j] == d1[j]);
    assert(s[p1] == ':');
    assert(forall|j: int| 0 <= j < d2.len() ==> s[p1 + 1 + j] == d2[j]);
    assert(s[p2] == ':');
    assert(forall|j: int| 0 <= j < d3.len() ==> s[p2 + 1 + j] == d3[j]);
    // nothing in the entry is a `;`, and the digits are no `:`
    assert forall|j: int| 0 <= j < s.len() implies (#[trigger] s[j]) != ';' by {
        if j < kl {
        } else if kl < j < p1 {
            assert(s[j] == d1[j - kl - 1] && crate::strutil::is_digit(s[j]));
        } else if p1 < j < p2 {
            assert(s[j] == d2[j - p1 - 1] && crate::strutil::is_digit(s[j]));
        } else if j > p2 {
            assert(s[j] == d3[j - p2 - 1] && crate::strutil::is_digit(s[j]));
        }
    }
    // the three separators are the first `:` of each remainder
    crate::strutil::lemma_find_is_first(s, ':', kl);
    assert(spec_split_head(s, ':') =~= k);
    let r1 = spec_split_rest(s, ':');
    assert(r1 =~= d1 + seq![':'] + (d2 + seq![':'] + d3));
    assert(forall|j: int| 0 <= j < d1.len() ==> r1[j] == d1[j] && r1[j] != ':');
    assert(r1[d1.len() as int] == ':');
    crate::strutil::lemma_find_is_first(r1, ':', d1.len() as int);
    assert(spec_split_head(r1, ':') =~= d1);
    let r2 = spec_split_rest(r1, ':');
    assert(r2 =~= d2 + seq![':'] + d3);
    assert(forall|j: int| 0 <= j < d2.len() ==> r2[j] == d2[j] && r2[j] != ':');
    assert(r2[d2.len() as int] == ':');
    crate::strutil::lemma_find_is_first(r2, ':', d2.len() as int);
    assert(spec_split_head(r2, ':') =~= d2);
    assert(spec_split_rest(r2, ':') =~= d3);
    assert(spec_parse_u16(d1) == Some(t.start));
    assert(spec_parse_u64(d2) == Some(t.size));
    assert(spec_parse_u32(d3) == Some(t.parts));
}

/// The wire form from tag `i` on.
spec fn tags_suffix(ks: Seq<Seq<char>>, vs: Seq<FileTag>, i: int) -> Seq<char>
    decreases ks.len() - i,
{
    if i < 0 || i >= ks.len() {
        Seq::empty()
    } else if i == ks.len() - 1 {
        tag_entry_str(ks[i], vs[i])
    } else {
        tag_entry_str(ks[i], vs[i]) + seq![';'] + tags_suffix(ks, vs, i + 1)
    }
}

proof fn lemma_tags_prefix_is_suffix(ks: Seq<Seq<char>>, vs: Seq<FileTag>, i: int)
    requires
        ks.len() > 0,
        1 <= i <= ks.len(),
    ensures
        tags_prefix(ks, vs, ks.len() as int) == tags_prefix(ks, vs, i) + (if i == ks.len() {
            Seq::empty()
        } else {
            seq![';'] + tags_suffix(ks, vs, i)
        }),
    decreases ks.len() - i,
{
    let n = ks.len() as int;
    if i == n {
        assert(tags_prefix(ks, vs, n) + Seq::<char>::empty() =~= tags_prefix(ks, vs, n));
    } else {
        lemma_tags_prefix_is_suffix(ks, vs, i + 1);
        if i + 1 == n {
            assert(tags_prefix(ks, vs, i) + seq![';'] + tag_entry_str(ks[i], vs[i])
                =~= tags_prefix(ks, vs, i) + (seq![';'] + tags_suffix(ks, vs, i)));
        } else {
            assert((tags_prefix(ks, vs, i) + seq![';'] + tag_entry_str(ks[i], vs[i])) + (
            seq![';'] + tags_suffix(ks, vs, i + 1)) =~= tags_prefix(ks, vs, i) + (seq![';']
                + tags_suffix(ks, vs, i)));
        }
    }
}

proof fn lemma_tags_suffix_parses(m: KvList<FileTag>, i: int)
    requires
        m.wf(),
        tag_safe_map(m),
        0 <= i < m.spec_len(),
    ensures
        clean_tags(spec_split_all(tags_suffix(m.key_seq(), m.val_seq(), i), ';'))
            =~= tag_pair_seq(m).subrange(i, m.spec_len() as int),
    decreases m.spec_len() - i,
{
    let ks = m.key_seq();
    let vs = m.val_seq();
    let n = m.spec_len() as int;
    let e = tag_entry_str(ks[i], vs[i]);
    lemma_tag_kv_exact(ks[i], vs[i]);
    if i == n - 1 {
        let s = tags_suffix(ks, vs, i);
        assert(s == e);
        crate::strutil::lemma_find_props(s, ';');
        if spec_find(s, ';') >= 0 {
            assert(s[spec_find(s, ';')] == ';');
        }
        assert(spec_split_all(s, ';') =~= seq![s]);
        assert(seq![s].drop_first() =~= Seq::<Seq<char>>::empty());
        assert(clean_tags(Seq::<Seq<char>>::empty()) =~= Seq::<(Seq<char>, FileTag)>::empty());
        assert(clean_tags(seq![s]) =~= seq![(ks[i], vs[i])]);
        assert(tag_pair_seq(m).subrange(i, n) =~= seq![(ks[i], vs[i])]);
    } else {
        let s = tags_suffix(ks, vs, i);
        let rest = tags_suffix(ks, vs, i + 1);
        assert(s == e + seq![';'] + rest);
        assert(forall|j: int| 0 <= j < e.len() ==> s[j] == e[j] && s[j] != ';');
        assert(s[e.len() as int] == ';');
        crate::strutil::lemma_find_is_first(s, ';', e.len() as int);
        assert(spec_split_head(s, ';') =~= e);
        assert(spec_split_rest(s, ';') =~= rest);
        lemma_tags_suffix_parses(m, i + 1);
        assert(spec_split_all(s, ';') == seq![e] + spec_split_all(rest, ';'));
        assert(clean_tags(seq![e] + spec_split_all(rest, ';')) =~= seq![(ks[i], vs[i])]
            + clean_tags(spec_split_all(rest, ';'))) by {
            let parts = seq![e] + spec_split_all(rest, ';');
            assert(parts[0] == e);
            assert(parts.drop_first() =~= spec_split_all(rest, ';'));
        }
        assert(seq![(ks[i], vs[i])] + tag_pair_seq(m).subrange(i + 1, n) =~= tag_pair_seq(
            m,
        ).subrange(i, n));
    }
}

/// The wire round trip: parsing serialised tags reads back exactly
/// the tags, in order. The resynchronisation of a healed node
/// therefore reproduces the sender's file tags.
pub proof fn lemma_tags_round_trip(m: KvList<FileTag>)
    requires
        m.wf(),
        tag_safe_map(m),
    ensures
        spec_tag_list(spec_tags_str(m)) =~= tag_pair_seq(m),
{
    let n = m.spec_len() as int;
    if n == 0 {
        let s = spec_tags_str(m);
        assert(s =~= Seq::<char>::empty());
        assert(spec_split_all(s, ';') =~= seq![s]);
        assert(spec_tag_kv(s) is None);
        assert(seq![s].drop_first() =~= Seq::<Seq<char>>::empty());
        assert(clean_tags(Seq::<Seq<char>>::empty()) =~= Seq::<(Seq<char>, FileTag)>::empty());
        assert(tag_pair_seq(m) =~= Seq::<(Seq<char>, FileTag)>::empty());
    } else {
        lemma_tags_prefix_is_suffix(m.key_seq(), m.val_seq(), 1);
        if n == 1 {
            assert(tags_prefix(m.key_seq(), m.val_seq(), 1) == tags_suffix(
                m.key_seq(),
                m.val_seq(),
                0,
            ));
        } else {
            assert(spec_tags_str(m) =~= tags_suffix(m.key_seq(), m.val_seq(), 0));
        }
        lemma_tags_suffix_parses(m, 0);
        assert(tag_pair_seq(m).subrange(0, n) =~= tag_pair_seq(m));
    }
}

/// The round trip in terms of lookups: the parsed list holds the
/// same names with the same tags.
pub proof fn lemma_tags_round_trip_content(m: KvList<FileTag>)
    requires
        m.wf(),
        tag_safe_map(m),
    ensures
        forall|k: Seq<char>|
            #[trigger] crate::kv::list_has_key(spec_tag_list(spec_tags_str(m)), k) == m.has_key(
                k,
            ),
        forall|k: Seq<char>|
            m.has_key(k) ==> #[trigger] crate::kv::list_last_val(
                spec_tag_list(spec_tags_str(m)),
                k,
            ) == m.spec_get(k),
{
    lemma_tags_round_trip(m);
    let l = spec_tag_list(spec_tags_str(m));
    assert(l == tag_pair_seq(m));
    assert forall|k: Seq<char>| #[trigger] crate::kv::list_has_key(l, k) == m.has_key(k) by {
        if crate::kv::list_has_key(l, k) {
            let i = choose|i: int| 0 <= i < l.len() && l[i].0 == k;
            assert(m.key_seq()[i] == k);
        }
        if m.has_key(k) {
            let i = m.key_idx(k);
            assert(l[i].0 == k);
        }
    }
    assert forall|a: int, b: int|
        0 <= a < l.len() && 0 <= b < l.len() && a != b implies (#[trigger] l[a].0) != (
    #[trigger] l[b].0) by {
        m.lemma_distinct(a, b);
    }
    assert forall|k: Seq<char>| m.has_key(k) implies #[trigger] crate::kv::list_last_val(l, k)
        == m.spec_get(k) by {
        let i = m.key_idx(k);
        assert(l[i].0 == k && l[i].1 == m.spec_get(k));
        crate::kv::lemma_list_last_distinct(l, i, k);
    }
}

} // verus!
