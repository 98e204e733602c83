//! File names on disk and in listings: sanitisation, chunk file
//! names, per-node directory paths, and CSV escaping for `FILE LIST`.
use vstd::prelude::*;

use crate::strutil::{dec_str, spec_port_str, u64_to_string};

verus! {

/// The characters a stored file name may not contain.
pub open spec fn bad_name_char(c: char) -> bool {
    c == '/' || c == '\\' || c == '\u{0}' || c == ':' || c == '|' || c == ';' || c == '\n' || c
        == '\r'
}

/// Every separator or control character gives way to `_`; an empty
/// name becomes `_`.
pub open spec fn spec_sanitize(s: Seq<char>) -> Seq<char> {
    if s.len() == 0 {
        seq!['_']
    } else {
        s.map_values(|c: char| if bad_name_char(c) { '_' } else { c })
    }
}

/// A sanitised name never holds a path separator, a drive colon, a
/// field separator or a line break, and is never empty.
pub proof fn lemma_sanitize_clean(s: Seq<char>)
    ensures
        forall|j: int| 0 <= j < spec_sanitize(s).len() ==> !bad_name_char(spec_sanitize(s)[j]),
        spec_sanitize(s).len() == if s.len() == 0 {
            1
        } else {
            s.len()
        },
        s.len() == 0 ==> spec_sanitize(s) == seq!['_'],
{
    if s.len() == 0 {
        assert(!bad_name_char('_'));
    }
}

fn bad_char(c: char) -> (r: bool)
    ensures
        r == bad_name_char(c),
{
    c == '/' || c == '\\' || c == '\u{0}' || c == ':' || c == '|' || c == ';' || c == '\n' || c
        == '\r'
}

/// Replace `/ \ NUL : | ; CR LF` by `_`; the empty name becomes `_`.
pub fn sanitize_filename(name: &str) -> (r: String)
    ensures
        r@ == spec_sanitize(name@),
        forall|j: int| 0 <= j < r@.len() ==> !bad_name_char(r@[j]),
        r@.len() > 0,
{
    proof {
        lemma_sanitize_clean(name@);
    }
    let n = name.unicode_len();
    if n == 0 {
        let mut out = String::new();
        out.push('_');
        proof {
            assert(out@ =~= seq!['_']);
        }
        return out;
    }
    let mut out = String::new();
    let mut i: usize = 0;
    while i < n
        invariant
            i <= n,
            0 < n == name@.len(),
            out@ =~= name@.subrange(0, i as int).map_values(
                |c: char| if bad_name_char(c) {
                    '_'
                } else {
                    c
                },
            ),
        decreases n - i,
    {
        let c = name.get_char(i);
        if bad_char(c) {
            out.push('_');
        } else {
            out.push(c);
        }
        proof {
            let f = |c: char| if bad_name_char(c) {
                '_'
            } else {
                c
            };
            assert(name@.subrange(0, i + 1 as int).map_values(f) =~= name@.subrange(
                0,
                i as int,
            ).map_values(f).push(f(name@[i as int])));
        }
        i = i + 1;
    }
    proof {
        assert(name@.subrange(0, n as int) =~= name@);
    }
    out
}

// ---------- chunk file names ----------

/// A number padded with zeros to at least three digits.
pub open spec fn spec_pad3(n: nat) -> Seq<char> {
    if n < 10 {
        seq!['0', '0'] + dec_str(n)
    } else if n < 100 {
        seq!['0'] + dec_str(n)
    } else {
        dec_str(n)
    }
}

fn pad3(n: u32) -> (r: String)
    ensures
        r@ == spec_pad3(n as nat),
{
    let digits = u64_to_string(n as u64);
    let mut out = String::new();
    if n < 10 {
        out.push('0');
        out.push('0');
    } else if n < 100 {
        out.push('0');
    }
    out.append(digits.as_str());
    proof {
        if n < 10 {
            assert(out@ =~= seq!['0', '0'] + dec_str(n as nat));
        } else if n < 100 {
            assert(out@ =~= seq!['0'] + dec_str(n as nat));
        } else {
            assert(out@ =~= dec_str(n as nat));
        }
    }
    out
}

/// `<sanitised>.part-NNN-of-MMM`, chunk numbers one-based and
/// zero-padded to three digits.
pub open spec fn spec_chunk_file_name(name: Seq<char>, index: nat, parts: nat) -> Seq<char> {
    spec_sanitize(name) + ".part-"@ + spec_pad3(index + 1) + "-of-"@ + spec_pad3(parts)
}

pub fn chunk_file_name(name: &str, index: u32, parts: u32) -> (r: String)
    requires
        index < u32::MAX,
    ensures
        r@ == spec_chunk_file_name(name@, index as nat, parts as nat),
{
    let mut out = sanitize_filename(name);
    out.append(".part-");
    out.append(pad3(index + 1).as_str());
    out.append("-of-");
    out.append(pad3(parts).as_str());
    out
}

// ---------- per-node paths ----------

/// `nodes/<port>/<subdir>/<sanitised name>`.
pub open spec fn spec_node_file_path(port: Seq<char>, subdir: Seq<char>, name: Seq<char>)
    -> Seq<char> {
    "nodes/"@ + port + seq!['/'] + subdir + seq!['/'] + spec_sanitize(name)
}

/// The path a chunk is stored under, below the node's own directory;
/// `subdir` is `content` for primary chunks and `backup` for mirrors.
pub fn node_file_path(addr: &str, subdir: &str, name: &str) -> (r: String)
    ensures
        r@ == spec_node_file_path(spec_port_str(addr@), subdir@, name@),
{
    let mut out = String::new();
    out.append("nodes/");
    out.append(crate::strutil::port_str(addr));
    out.push('/');
    out.append(subdir);
    out.push('/');
    out.append(sanitize_filename(name).as_str());
    proof {
        assert(out@ =~= spec_node_file_path(spec_port_str(addr@), subdir@, name@));
    }
    out
}

/// The two directories a node stores chunks in.
pub fn node_dirs(addr: &str) -> (r: (String, String))
    ensures
        r.0@ == "nodes/"@ + spec_port_str(addr@) + "/content"@,
        r.1@ == "nodes/"@ + spec_port_str(addr@) + "/backup"@,
{
    let port = crate::strutil::port_str(addr);
    let mut content = String::new();
    content.append("nodes/");
    content.append(port);
    content.append("/content");
    let mut backup = String::new();
    backup.append("nodes/");
    backup.append(port);
    backup.append("/backup");
    (content, backup)
}

// ---------- CSV escaping ----------

/// The characters that force a `FILE LIST` name into quotes.
pub open spec fn csv_special(c: char) -> bool {
    c == ',' || c == '"' || c == '\n' || c == '\r'
}

pub open spec fn csv_needs_quotes(s: Seq<char>) -> bool {
    exists|j: int| 0 <= j < s.len() && csv_special(s[j])
}

/// The quoted body: every `"` doubled, other characters kept.
pub open spec fn csv_body(s: Seq<char>) -> Seq<char>
    decreases s.len(),
{
    if s.len() == 0 {
        Seq::empty()
    } else if s[0] == '"' {
        seq!['"', '"'] + csv_body(s.drop_first())
    } else {
        seq![s[0]] + csv_body(s.drop_first())
    }
}

/// A name under CSV rules: quoted, with inner quotes doubled, exactly
/// when it holds a comma, a quote or a line break.
pub open spec fn spec_csv_escape(s: Seq<char>) -> Seq<char> {
    if !csv_needs_quotes(s) {
        s
    } else {
        seq!['"'] + csv_body(s) + seq!['"']
    }
}

fn csv_special_char(c: char) -> (r: bool)
    ensures
        r == csv_special(c),
{
    c == ',' || c == '"' || c == '\n' || c == '\r'
}

/// Escape one name for the `FILE LIST` CSV.
pub fn csv_escape(s: &str) -> (r: String)
    ensures
        r@ == spec_csv_escape(s@),
{
    let n = s.unicode_len();
    let mut needs = false;
    let mut i: usize = 0;
    while i < n
        invariant
            i <= n,
            n == s@.len(),
            needs == exists|j: int| 0 <= j < i && csv_special(s@[j]),
        decreases n - i,
    {
        if csv_special_char(s.get_char(i)) {
            needs = true;
        }
        i = i + 1;
    }
    if !needs {
        return s.to_owned();
    }
    let mut out = String::new();
    out.push('"');
    let mut i: usize = 0;
    while i < n
        invariant
            i <= n,
            n == s@.len(),
            out@ =~= seq!['"'] + csv_body(s@.subrange(0, i as int)),
        decreases n - i,
    {
        let c = s.get_char(i);
        if c == '"' {
            out.push('"');
        }
        out.push(c);
        proof {
            lemma_csv_body_snoc(s@.subrange(0, i + 1 as int));
            assert(s@.subrange(0, i + 1 as int).drop_last() =~= s@.subrange(0, i as int));
        }
        i = i + 1;
    }
    out.push('"');
    proof {
        assert(s@.subrange(0, n as int) =~= s@);
        assert(out@ =~= seq!['"'] + csv_body(s@) + seq!['"']);
    }
    out
}

/// `csv_body` grows at the back the way it grows at the front.
proof fn lemma_csv_body_snoc(s: Seq<char>)
    requires
        s.len() > 0,
    ensures
        csv_body(s) == csv_body(s.drop_last()) + (if s.last() == '"' {
            seq!['"', '"']
        } else {
            seq![s.last()]
        }),
    decreases s.len(),
{
    if s.len() == 1 {
        assert(s.drop_first() =~= Seq::<char>::empty());
        assert(s.drop_last() =~= Seq::<char>::empty());
        if s[0] == '"' {
            assert(csv_body(s) =~= csv_body(s.drop_last()) + seq!['"', '"']);
        } else {
            assert(csv_body(s) =~= csv_body(s.drop_last()) + seq![s.last()]);
        }
    } else {
        let t = s.drop_first();
        lemma_csv_body_snoc(t);
        assert(t.drop_last() =~= s.drop_last().drop_first());
        assert(t.last() == s.last());
        assert(s.drop_last()[0] == s[0]);
        if s[0] == '"' {
            assert(csv_body(s) == seq!['"', '"'] + csv_body(t));
            assert(csv_body(s.drop_last()) == seq!['"', '"'] + csv_body(s.drop_last().drop_first()));
            assert(csv_body(s) =~= csv_body(s.drop_last()) + (if s.last() == '"' {
                seq!['"', '"']
            } else {
                seq![s.last()]
            }));
        } else {
            assert(csv_body(s) == seq![s[0]] + csv_body(t));
            assert(csv_body(s.drop_last()) == seq![s[0]] + csv_body(s.drop_last().drop_first()));
            assert(csv_body(s) =~= csv_body(s.drop_last()) + (if s.last() == '"' {
                seq!['"', '"']
            } else {
                seq![s.last()]
            }));
        }
    }
}

/// Undo quote doubling; None when a lone `"` is left over.
pub open spec fn csv_unbody(s: Seq<char>) -> Option<Seq<char>>
    decreases s.len(),
{
    if s.len() == 0 {
        Some(Seq::empty())
    } else if s[0] == '"' {
        if s.len() >= 2 && s[1] == '"' {
            match csv_unbody(s.skip(2)) {
                Some(t) => Some(seq!['"'] + t),
                None => None,
            }
        } else {
            None
        }
    } else {
        match csv_unbody(s.drop_first()) {
            Some(t) => Some(seq![s[0]] + t),
            None => None,
        }
    }
}

/// The decoded form of a CSV field: a quoted field is unquoted and
/// undoubled, a bare field is itself.
pub open spec fn spec_csv_unescape(s: Seq<char>) -> Option<Seq<char>> {
    if s.len() >= 2 && s[0] == '"' && s.last() == '"' {
        csv_unbody(s.subrange(1, s.len() - 1))
    } else {
        Some(s)
    }
}

/// Decode one CSV field written by `csv_escape`.
#[verifier::rlimit(60)]
pub fn csv_unescape(s: &str) -> (r: Option<String>)
    ensures
        match r {
            Some(t) => spec_csv_unescape(s@) == Some(t@),
            None => spec_csv_unescape(s@) is None,
        },
{
    let n = s.unicode_len();
    if n >= 2 && s.get_char(0) == '"' && s.get_char(n - 1) == '"' {
        let body = s.substring_char(1, n - 1);
        let m = n - 2;
        let mut out = String::new();
        let mut i: usize = 0;
        proof {
            assert(s@.last() == s@[n - 1]);
            assert(body@ =~= s@.subrange(1, s@.len() - 1));
            assert(body@.skip(0) =~= body@);
            if csv_unbody(body@) is Some {
                assert(Seq::<char>::empty() + csv_unbody(body@)->Some_0 =~= csv_unbody(
                    body@,
                )->Some_0);
            }
        }
        loop
            invariant
                i <= m,
                m == body@.len(),
                s@.len() >= 2,
                s@[0] == '"',
                s@.last() == '"',
                body@ == s@.subrange(1, s@.len() - 1),
                csv_unbody(body@) matches Some(t) ==> t == out@ + csv_unbody(
                    body@.skip(i as int),
                )->Some_0,
                csv_unbody(body@) is Some == csv_unbody(body@.skip(i as int)) is Some,
            ensures
                csv_unbody(body@) is Some,
                csv_unbody(body@) matches Some(t) ==> t == out@ && i == m,
            decreases m - i,
        {
            if i >= m {
                proof {
                    assert(body@.skip(i as int) =~= Seq::<char>::empty());
                }
                break;
            }
            let c = body.get_char(i);
            let ghost tail = body@.skip(i as int);
            proof {
                assert(tail[0] == body@[i as int]);
            }
            if c == '"' {
                if i + 1 < m && body.get_char(i + 1) == '"' {
                    let ghost prev = out@;
                    out.push('"');
                    proof {
                        assert(tail.len() >= 2 && tail[1] == '"');
                        assert(tail.skip(2) =~= body@.skip(i + 2 as int));
                        assert(out@ =~= prev + seq!['"']);
                        if csv_unbody(tail) is Some {
                            let x = csv_unbody(body@.skip(i + 2 as int))->Some_0;
                            assert(csv_unbody(tail)->Some_0 == seq!['"'] + x);
                            assert(prev + (seq!['"'] + x) =~= (prev + seq!['"']) + x);
                        }
                    }
                    i = i + 2;
                } else {
                    proof {
                        assert(tail.len() < 2 || tail[1] != '"');
                        assert(csv_unbody(tail) is None);
                        assert(csv_unbody(body@) is None);
                        assert(s@.len() >= 2 && s@[0] == '"' && s@.last() == '"');
                        assert(s@.subrange(1, s@.len() - 1) == body@);
                        assert(csv_unbody(s@.subrange(1, s@.len() - 1)) is None);
                        assert(spec_csv_unescape(s@) is None);
                    }
                    return None;
                }
            } else {
                out.push(c);
                proof {
                    assert(tail.drop_first() =~= body@.skip(i + 1 as int));
                }
                i = i + 1;
            }
        }
        proof {
            assert(spec_csv_unescape(s@) == csv_unbody(body@));
        }
        Some(out)
    } else {
        proof {
            if s@.len() >= 2 {
                assert(s@.last() == s@[s@.len() - 1]);
            }
            assert(spec_csv_unescape(s@) == Some(s@));
        }
        Some(s.to_owned())
    }
}

/// Escaping is reversible: decoding an escaped name gives the name
/// back, whatever it held.
pub proof fn lemma_csv_round_trip(s: Seq<char>)
    ensures
        spec_csv_unescape(spec_csv_escape(s)) == Some(s),
{
    if !csv_needs_quotes(s) {
        if s.len() >= 2 && s[0] == '"' && s.last() == '"' {
            assert(csv_special(s[0]));
        }
    } else {
        let e = seq!['"'] + csv_body(s) + seq!['"'];
        assert(e[0] == '"' && e.last() == '"' && e.len() >= 2);
        assert(e.subrange(1, e.len() - 1) =~= csv_body(s));
        lemma_csv_unbody_inverse(s);
    }
}

proof fn lemma_csv_unbody_inverse(s: Seq<char>)
    ensures
        csv_unbody(csv_body(s)) == Some(s),
    decreases s.len(),
{
    if s.len() > 0 {
        let t = s.drop_first();
        lemma_csv_unbody_inverse(t);
        if s[0] == '"' {
            let b = seq!['"', '"'] + csv_body(t);
            assert(b[0] == '"' && b.len() >= 2 && b[1] == '"');
            assert(b.skip(2) =~= csv_body(t));
            assert(seq!['"'] + t =~= s);
        } else {
            let b = seq![s[0]] + csv_body(t);
            assert(b[0] == s[0] && s[0] != '"');
            assert(b.drop_first() =~= csv_body(t));
            assert(seq![s[0]] + t =~= s);
        }
    } else {
        assert(csv_body(s) =~= Seq::<char>::empty());
    }
}

} // verus!
