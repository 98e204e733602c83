//! Character and string helpers shared by the codec and the node logic.
use vstd::prelude::*;

verus! {

// ---------- character classes ----------

/// ASCII whitespace as this protocol understands it.
pub open spec fn is_space(c: char) -> bool {
    c == ' ' || c == '\t' || c == '\r' || c == '\n'
}

pub fn space_char(c: char) -> (r: bool)
    ensures
        r == is_space(c),
{
    c == ' ' || c == '\t' || c == '\r' || c == '\n'
}

pub open spec fn is_digit(c: char) -> bool {
    '0' <= c && c <= '9'
}

pub fn digit_char(c: char) -> (r: bool)
    ensures
        r == is_digit(c),
{
    '0' <= c && c <= '9'
}

/// Numeric value of one decimal digit; 0 for anything else.
pub open spec fn digit_val(c: char) -> nat {
    if is_digit(c) {
        (c as nat - '0' as nat) as nat
    } else {
        0
    }
}

/// ASCII lower case letters mapped to upper case; everything else kept.
pub open spec fn spec_upper(c: char) -> char {
    if 'a' <= c && c <= 'z' {
        ((c as u32 - 32) as u8) as char
    } else {
        c
    }
}

pub fn upper_char(c: char) -> (r: char)
    ensures
        r == spec_upper(c),
{
    if 'a' <= c && c <= 'z' {
        let b: u8 = (c as u32 - 32) as u8;
        b as char
    } else {
        c
    }
}

/// Upper-cased copy of a string, ASCII letters only.
pub open spec fn spec_upper_str(s: Seq<char>) -> Seq<char> {
    s.map_values(|c: char| spec_upper(c))
}

pub fn upper_str(s: &str) -> (r: String)
    ensures
        r@ == spec_upper_str(s@),
{
    let n = s.unicode_len();
    let mut out = String::new();
    let mut i: usize = 0;
    while i < n
        invariant
            i <= n,
            n == s@.len(),
            out@ =~= spec_upper_str(s@.subrange(0, i as int)),
        decreases n - i,
    {
        out.push(upper_char(s.get_char(i)));
        proof {
            assert(spec_upper_str(s@.subrange(0, i + 1 as int)) =~= spec_upper_str(
                s@.subrange(0, i as int),
            ).push(spec_upper(s@[i as int])));
        }
        i = i + 1;
    }
    proof {
        assert(s@.subrange(0, n as int) =~= s@);
    }
    out
}

// ---------- equality ----------

pub fn str_eq(a: &str, b: &str) -> (r: bool)
    ensures
        r == (a@ == b@),
{
    let sa = a.to_owned();
    let sb = b.to_owned();
    sa == sb
}

// ---------- finding and splitting ----------

/// Index of the first `c` in `s`, or -1 when there is none.
pub open spec fn spec_find(s: Seq<char>, c: char) -> int
    decreases s.len(),
{
    if s.len() == 0 {
        -1
    } else if s[0] == c {
        0
    } else {
        let r = spec_find(s.drop_first(), c);
        if r < 0 {
            -1
        } else {
            r + 1
        }
    }
}

pub proof fn lemma_find_props(s: Seq<char>, c: char)
    ensures
        spec_find(s, c) < 0 ==> forall|j: int| 0 <= j < s.len() ==> s[j] != c,
        spec_find(s, c) >= 0 ==> spec_find(s, c) < s.len() && s[spec_find(s, c)] == c && forall|
            j: int,
        | 0 <= j < spec_find(s, c) ==> s[j] != c,
    decreases s.len(),
{
    if s.len() > 0 && s[0] != c {
        let t = s.drop_first();
        lemma_find_props(t, c);
        assert(forall|j: int| 1 <= j < s.len() ==> s[j] == t[j - 1]);
    }
}

/// Skipping a prefix free of `c` shifts the find result.
proof fn lemma_find_skip(s: Seq<char>, c: char, k: int)
    requires
        0 <= k <= s.len(),
        forall|j: int| 0 <= j < k ==> s[j] != c,
    ensures
        spec_find(s, c) == if spec_find(s.subrange(k, s.len() as int), c) < 0 {
            -1
        } else {
            k + spec_find(s.subrange(k, s.len() as int), c)
        },
    decreases k,
{
    if k == 0 {
        assert(s.subrange(0, s.len() as int) =~= s);
    } else {
        assert(s.len() > 0 && s[0] != c);
        let t = s.drop_first();
        assert(forall|j: int| 0 <= j < k - 1 ==> t[j] != c);
        lemma_find_skip(t, c, k - 1);
        assert(t.subrange(k - 1, t.len() as int) =~= s.subrange(k, s.len() as int));
    }
}

/// A position holding `c` with none before it is where the find
/// lands.
pub proof fn lemma_find_is_first(s: Seq<char>, c: char, k: int)
    requires
        0 <= k < s.len(),
        s[k] == c,
        forall|j: int| 0 <= j < k ==> s[j] != c,
    ensures
        spec_find(s, c) == k,
{
    lemma_find_skip(s, c, k);
    assert(s.subrange(k, s.len() as int)[0] == c);
}

/// First index of `c` in `s`, if any.
pub fn find_char(s: &str, c: char) -> (r: Option<usize>)
    ensures
        match r {
            Some(i) => spec_find(s@, c) == i,
            None => spec_find(s@, c) < 0,
        },
{
    let n = s.unicode_len();
    let mut i: usize = 0;
    while i < n
        invariant
            i <= n,
            n == s@.len(),
            forall|j: int| 0 <= j < i ==> s@[j] != c,
        decreases n - i,
    {
        if s.get_char(i) == c {
            proof {
                lemma_find_skip(s@, c, i as int);
                assert(s@.subrange(i as int, n as int)[0] == c);
            }
            return Some(i);
        }
        i = i + 1;
    }
    proof {
        lemma_find_skip(s@, c, n as int);
        assert(s@.subrange(n as int, n as int).len() == 0);
    }
    None
}

/// Everything before the first `c` of `s`, and everything after it.
/// Without a `c`, the whole of `s` and the empty string.
pub open spec fn spec_split_head(s: Seq<char>, c: char) -> Seq<char> {
    if spec_find(s, c) < 0 {
        s
    } else {
        s.subrange(0, spec_find(s, c))
    }
}

pub open spec fn spec_split_rest(s: Seq<char>, c: char) -> Seq<char> {
    if spec_find(s, c) < 0 {
        Seq::empty()
    } else {
        s.subrange(spec_find(s, c) + 1, s.len() as int)
    }
}

/// Split at the first `c`: the part before it and the part after it.
pub fn split_first<'a>(s: &'a str, c: char) -> (r: (&'a str, &'a str))
    ensures
        r.0@ == spec_split_head(s@, c),
        r.1@ == spec_split_rest(s@, c),
{
    let n = s.unicode_len();
    match find_char(s, c) {
        Some(i) => {
            proof {
                lemma_find_props(s@, c);
            }
            (s.substring_char(0, i), s.substring_char(i + 1, n))
        },
        None => {
            proof {
                assert(s@.subrange(0, n as int) =~= s@);
            }
            (s.substring_char(0, n), s.substring_char(n, n))
        },
    }
}

/// `s` split at every `c`; one part more than there are separators.
pub open spec fn spec_split_all(s: Seq<char>, c: char) -> Seq<Seq<char>>
    decreases s.len(),
    via spec_split_all_dec
{
    if spec_find(s, c) < 0 {
        seq![s]
    } else {
        seq![spec_split_head(s, c)] + spec_split_all(spec_split_rest(s, c), c)
    }
}

#[via_fn]
proof fn spec_split_all_dec(s: Seq<char>, c: char) {
    lemma_find_props(s, c);
}

// ---------- trimming ----------

pub open spec fn spec_trim_start(s: Seq<char>) -> Seq<char>
    decreases s.len(),
{
    if s.len() > 0 && is_space(s[0]) {
        spec_trim_start(s.drop_first())
    } else {
        s
    }
}

pub open spec fn spec_trim_end(s: Seq<char>) -> Seq<char>
    decreases s.len(),
{
    if s.len() > 0 && is_space(s.last()) {
        spec_trim_end(s.drop_last())
    } else {
        s
    }
}

/// Both ends stripped of ASCII whitespace.
pub open spec fn spec_trim(s: Seq<char>) -> Seq<char> {
    spec_trim_end(spec_trim_start(s))
}

proof fn lemma_trim_start_skip(s: Seq<char>, k: int)
    requires
        0 <= k <= s.len(),
        forall|j: int| 0 <= j < k ==> is_space(s[j]),
    ensures
        spec_trim_start(s) == spec_trim_start(s.subrange(k, s.len() as int)),
    decreases k,
{
    if k == 0 {
        assert(s.subrange(0, s.len() as int) =~= s);
    } else {
        let t = s.drop_first();
        lemma_trim_start_skip(t, k - 1);
        assert(t.subrange(k - 1, t.len() as int) =~= s.subrange(k, s.len() as int));
    }
}

proof fn lemma_trim_end_skip(s: Seq<char>, k: int)
    requires
        0 <= k <= s.len(),
        forall|j: int| k <= j < s.len() ==> is_space(s[j]),
    ensures
        spec_trim_end(s) == spec_trim_end(s.subrange(0, k)),
    decreases s.len() - k,
{
    if k == s.len() {
        assert(s.subrange(0, s.len() as int) =~= s);
    } else {
        let t = s.drop_last();
        assert(is_space(s.last()));
        lemma_trim_end_skip(t, k);
        assert(t.subrange(0, k) =~= s.subrange(0, k));
    }
}

/// `s` without leading and trailing ASCII whitespace.
pub fn trim<'a>(s: &'a str) -> (r: &'a str)
    ensures
        r@ == spec_trim(s@),
{
    let n = s.unicode_len();
    let mut a: usize = 0;
    while a < n && space_char(s.get_char(a))
        invariant
            a <= n,
            n == s@.len(),
            forall|j: int| 0 <= j < a ==> is_space(s@[j]),
        decreases n - a,
    {
        a = a + 1;
    }
    proof {
        lemma_trim_start_skip(s@, a as int);
    }
    let mut b: usize = n;
    while b > a && space_char(s.get_char(b - 1))
        invariant
            a <= b <= n,
            n == s@.len(),
            forall|j: int| 0 <= j < a ==> is_space(s@[j]),
            forall|j: int| b <= j < n ==> is_space(s@[j]),
        decreases b,
    {
        b = b - 1;
    }
    let ghost tail = s@.subrange(a as int, n as int);
    proof {
        assert(spec_trim_start(s@) == tail);
        assert(forall|j: int| b - a <= j < tail.len() ==> is_space(tail[j]));
        lemma_trim_end_skip(tail, b - a);
        assert(tail.subrange(0, b - a) =~= s@.subrange(a as int, b as int));
        if b > a {
            assert(!is_space(tail.subrange(0, b - a).last()));
        }
    }
    s.substring_char(a, b)
}

fn crlf_char(c: char) -> (r: bool)
    ensures
        r == (c == '\r' || c == '\n'),
{
    c == '\r' || c == '\n'
}

/// Trimming a string without whitespace changes nothing.
pub proof fn lemma_trim_clean(s: Seq<char>)
    requires
        forall|j: int| 0 <= j < s.len() ==> !is_space(#[trigger] s[j]),
    ensures
        spec_trim(s) == s,
{
    if s.len() > 0 {
        assert(!is_space(s[0]));
        assert(!is_space(s.last()));
    }
}

/// A token followed by a space splits off exactly.
pub proof fn lemma_split_token(s: Seq<char>, t: Seq<char>, rest: Seq<char>)
    requires
        s == t + seq![' '] + rest,
        forall|j: int| 0 <= j < t.len() ==> (#[trigger] t[j]) != ' ',
    ensures
        spec_split_head(s, ' ') == t,
        spec_split_rest(s, ' ') == rest,
{
    assert(forall|j: int| 0 <= j < t.len() ==> s[j] == t[j] && s[j] != ' ');
    assert(s[t.len() as int] == ' ');
    lemma_find_is_first(s, ' ', t.len() as int);
    assert(spec_split_head(s, ' ') =~= t);
    assert(spec_split_rest(s, ' ') =~= rest);
}

/// Dropping the line feed off a clean line gives the line back.
pub proof fn lemma_trim_crlf_line(s: Seq<char>)
    requires
        forall|j: int| 0 <= j < s.len() ==> (#[trigger] s[j]) != '\r' && s[j] != '\n',
    ensures
        spec_trim_crlf(s.push('\n')) == s,
{
    assert(s.push('\n').drop_last() =~= s);
    if s.len() > 0 {
        assert(s.last() != '\r' && s.last() != '\n');
    }
    assert(spec_trim_crlf(s) == s);
}

/// Trailing `\r` and `\n` characters removed.
pub open spec fn spec_trim_crlf(s: Seq<char>) -> Seq<char>
    decreases s.len(),
{
    if s.len() > 0 && (s.last() == '\r' || s.last() == '\n') {
        spec_trim_crlf(s.drop_last())
    } else {
        s
    }
}

proof fn lemma_trim_crlf_skip(s: Seq<char>, k: int)
    requires
        0 <= k <= s.len(),
        forall|j: int| k <= j < s.len() ==> s[j] == '\r' || s[j] == '\n',
    ensures
        spec_trim_crlf(s) == spec_trim_crlf(s.subrange(0, k)),
    decreases s.len() - k,
{
    if k == s.len() {
        assert(s.subrange(0, s.len() as int) =~= s);
    } else {
        let t = s.drop_last();
        lemma_trim_crlf_skip(t, k);
        assert(t.subrange(0, k) =~= s.subrange(0, k));
    }
}

/// `s` without its trailing carriage returns and line feeds.
pub fn trim_crlf<'a>(s: &'a str) -> (r: &'a str)
    ensures
        r@ == spec_trim_crlf(s@),
{
    let n = s.unicode_len();
    let mut b: usize = n;
    while b > 0 && crlf_char(s.get_char(b - 1))
        invariant
            b <= n,
            n == s@.len(),
            forall|j: int| b <= j < n ==> s@[j] == '\r' || s@[j] == '\n',
        decreases b,
    {
        b = b - 1;
    }
    proof {
        lemma_trim_crlf_skip(s@, b as int);
        if b > 0 {
            assert(s@.subrange(0, b as int).last() == s@[b - 1]);
        }
    }
    s.substring_char(0, b)
}

// ---------- ordering ----------

/// Strict lexicographic order on character sequences, by code point.
pub open spec fn str_lt(a: Seq<char>, b: Seq<char>) -> bool
    decreases a.len(),
{
    if b.len() == 0 {
        false
    } else if a.len() == 0 {
        true
    } else if a[0] != b[0] {
        (a[0] as u32) < (b[0] as u32)
    } else {
        str_lt(a.drop_first(), b.drop_first())
    }
}

pub proof fn lemma_str_lt_trichotomy(a: Seq<char>, b: Seq<char>)
    ensures
        str_lt(a, b) || str_lt(b, a) || a == b,
        str_lt(a, b) ==> !str_lt(b, a) && a != b,
        str_lt(b, a) ==> !str_lt(a, b) && a != b,
    decreases a.len(),
{
    if a.len() > 0 && b.len() > 0 {
        if a[0] == b[0] {
            let ta = a.drop_first();
            let tb = b.drop_first();
            lemma_str_lt_trichotomy(ta, tb);
            if ta == tb {
                assert(forall|i: int| 1 <= i < a.len() ==> a[i] == ta[i - 1]);
                assert(forall|i: int| 1 <= i < b.len() ==> b[i] == tb[i - 1]);
                assert(a =~= b);
            }
        } else {
            lemma_char_code_injective(a[0], b[0]);
        }
    }
}

/// Distinct characters have distinct code points.
proof fn lemma_char_code_injective(x: char, y: char)
    requires
        x != y,
    ensures
        x as u32 != y as u32,
{
    if x as u32 == y as u32 {
        vstd::utf8::char_u32_cast(x, x as u32);
        vstd::utf8::char_u32_cast(y, y as u32);
    }
}

pub proof fn lemma_str_lt_trans(a: Seq<char>, b: Seq<char>, c: Seq<char>)
    requires
        str_lt(a, b),
        str_lt(b, c),
    ensures
        str_lt(a, c),
    decreases a.len(),
{
    if a.len() > 0 && b.len() > 0 && c.len() > 0 {
        if a[0] == b[0] && b[0] == c[0] {
            lemma_str_lt_trans(a.drop_first(), b.drop_first(), c.drop_first());
        }
    }
}

proof fn lemma_str_lt_skip(a: Seq<char>, b: Seq<char>, k: int)
    requires
        0 <= k <= a.len(),
        k <= b.len(),
        forall|j: int| 0 <= j < k ==> a[j] == b[j],
    ensures
        str_lt(a, b) == str_lt(
            a.subrange(k, a.len() as int),
            b.subrange(k, b.len() as int),
        ),
    decreases k,
{
    if k == 0 {
        assert(a.subrange(0, a.len() as int) =~= a);
        assert(b.subrange(0, b.len() as int) =~= b);
    } else {
        let ta = a.drop_first();
        let tb = b.drop_first();
        assert(forall|j: int| 0 <= j < k - 1 ==> ta[j] == tb[j]);
        lemma_str_lt_skip(ta, tb, k - 1);
        assert(ta.subrange(k - 1, ta.len() as int) =~= a.subrange(k, a.len() as int));
        assert(tb.subrange(k - 1, tb.len() as int) =~= b.subrange(k, b.len() as int));
    }
}

/// Whether `a` comes strictly before `b` in lexicographic order.
pub fn str_less(a: &str, b: &str) -> (r: bool)
    ensures
        r == str_lt(a@, b@),
{
    let na = a.unicode_len();
    let nb = b.unicode_len();
    let mut i: usize = 0;
    loop
        invariant
            i <= na,
            i <= nb,
            na == a@.len(),
            nb == b@.len(),
            forall|j: int| 0 <= j < i ==> a@[j] == b@[j],
        decreases na - i,
    {
        proof {
            lemma_str_lt_skip(a@, b@, i as int);
        }
        if i >= na || i >= nb {
            return na < nb;
        }
        let ca = a.get_char(i);
        let cb = b.get_char(i);
        if ca != cb {
            proof {
                assert(a@.subrange(i as int, na as int)[0] == ca);
                assert(b@.subrange(i as int, nb as int)[0] == cb);
            }
            return (ca as u32) < (cb as u32);
        }
        i = i + 1;
    }
}

// ---------- decimal numbers ----------

pub open spec fn all_digits(s: Seq<char>) -> bool {
    forall|j: int| 0 <= j < s.len() ==> is_digit(s[j])
}

/// Value of a digit string, most significant digit first.
pub open spec fn digits_val(s: Seq<char>) -> nat
    decreases s.len(),
{
    if s.len() == 0 {
        0
    } else {
        digits_val(s.drop_last()) * 10 + digit_val(s.last())
    }
}

proof fn lemma_digits_val_prefix_le(s: Seq<char>, i: int, j: int)
    requires
        0 <= i <= j <= s.len(),
    ensures
        digits_val(s.subrange(0, i)) <= digits_val(s.subrange(0, j)),
    decreases j - i,
{
    if i < j {
        lemma_digits_val_prefix_le(s, i, j - 1);
        let p = s.subrange(0, j - 1);
        let q = s.subrange(0, j);
        assert(q.drop_last() =~= p);
        assert(digits_val(q) == digits_val(p) * 10 + digit_val(q.last()));
    }
}

/// Whether `s` is a non-empty digit string whose value fits a `u64`.
pub open spec fn spec_parse_u64(s: Seq<char>) -> Option<u64> {
    if s.len() > 0 && all_digits(s) && digits_val(s) <= u64::MAX {
        Some(digits_val(s) as u64)
    } else {
        None
    }
}

/// Decimal parse of a digit-only string into a `u64`.
pub fn parse_u64(s: &str) -> (r: Option<u64>)
    ensures
        r == spec_parse_u64(s@),
{
    let n = s.unicode_len();
    if n == 0 {
        return None;
    }
    let mut acc: u64 = 0;
    let mut i: usize = 0;
    while i < n
        invariant
            i <= n,
            n == s@.len(),
            all_digits(s@.subrange(0, i as int)),
            acc == digits_val(s@.subrange(0, i as int)),
        decreases n - i,
    {
        let c = s.get_char(i);
        if !digit_char(c) {
            return None;
        }
        let d: u64 = (c as u32 - 48) as u64;
        proof {
            assert(s@.subrange(0, i + 1 as int).drop_last() =~= s@.subrange(0, i as int));
            assert(s@.subrange(0, i + 1 as int).last() == s@[i as int]);
            assert(d == digit_val(s@[i as int]));
        }
        if acc > (u64::MAX - d) / 10 {
            proof {
                lemma_digits_val_prefix_le(s@, i + 1, n as int);
                assert(s@.subrange(0, n as int) =~= s@);
            }
            return None;
        }
        acc = acc * 10 + d;
        i = i + 1;
    }
    proof {
        assert(s@.subrange(0, n as int) =~= s@);
    }
    Some(acc)
}

pub open spec fn spec_parse_u32(s: Seq<char>) -> Option<u32> {
    if s.len() > 0 && all_digits(s) && digits_val(s) <= u32::MAX {
        Some(digits_val(s) as u32)
    } else {
        None
    }
}

pub fn parse_u32(s: &str) -> (r: Option<u32>)
    ensures
        r == spec_parse_u32(s@),
{
    match parse_u64(s) {
        Some(v) => if v <= u32::MAX as u64 {
            Some(v as u32)
        } else {
            None
        },
        None => None,
    }
}

pub open spec fn spec_parse_u16(s: Seq<char>) -> Option<u16> {
    if s.len() > 0 && all_digits(s) && digits_val(s) <= u16::MAX {
        Some(digits_val(s) as u16)
    } else {
        None
    }
}

pub fn parse_u16(s: &str) -> (r: Option<u16>)
    ensures
        r == spec_parse_u16(s@),
{
    match parse_u64(s) {
        Some(v) => if v <= u16::MAX as u64 {
            Some(v as u16)
        } else {
            None
        },
        None => None,
    }
}

/// The decimal digit character for a value below ten.
pub open spec fn digit_char_of(d: nat) -> char {
    if d == 0 {
        '0'
    } else if d == 1 {
        '1'
    } else if d == 2 {
        '2'
    } else if d == 3 {
        '3'
    } else if d == 4 {
        '4'
    } else if d == 5 {
        '5'
    } else if d == 6 {
        '6'
    } else if d == 7 {
        '7'
    } else if d == 8 {
        '8'
    } else {
        '9'
    }
}

/// Decimal digits of `n`, most significant first, no leading zeros
/// (a single `0` for zero).
pub open spec fn dec_str(n: nat) -> Seq<char>
    decreases n,
{
    if n < 10 {
        seq![digit_char_of(n)]
    } else {
        dec_str(n / 10).push(digit_char_of(n % 10))
    }
}

/// A rendered number is digits through and through.
pub proof fn lemma_dec_str_digits(n: nat)
    ensures
        dec_str(n).len() > 0,
        all_digits(dec_str(n)),
    decreases n,
{
    vstd::arithmetic::div_mod::lemma_mod_bound(n as int, 10);
    if n < 10 {
        assert(is_digit(digit_char_of(n)));
        assert(forall|j: int| 0 <= j < dec_str(n).len() ==> is_digit(dec_str(n)[j]));
    } else {
        lemma_dec_str_digits(n / 10);
        let t = dec_str(n / 10);
        assert(is_digit(digit_char_of(n % 10)));
        assert(forall|j: int| 0 <= j < t.len() ==> dec_str(n)[j] == t[j]);
        assert(dec_str(n).last() == digit_char_of(n % 10));
        assert(forall|j: int| 0 <= j < dec_str(n).len() ==> is_digit(dec_str(n)[j]));
    }
}

/// Rendering and reading a number are inverse.
pub proof fn lemma_dec_str_val(n: nat)
    ensures
        digits_val(dec_str(n)) == n,
    decreases n,
{
    vstd::arithmetic::div_mod::lemma_mod_bound(n as int, 10);
    if n < 10 {
        let s = dec_str(n);
        assert(s.drop_last() =~= Seq::<char>::empty());
        assert(digits_val(Seq::<char>::empty()) == 0);
        assert(digit_val(digit_char_of(n)) == n);
    } else {
        lemma_dec_str_val(n / 10);
        let s = dec_str(n);
        assert(s.drop_last() =~= dec_str(n / 10));
        assert(s.last() == digit_char_of(n % 10));
        assert(digit_val(digit_char_of(n % 10)) == n % 10);
        vstd::arithmetic::div_mod::lemma_fundamental_div_mod(n as int, 10);
    }
}

/// Decimal rendering of a `u64`.
pub fn u64_to_string(n: u64) -> (r: String)
    ensures
        r@ == dec_str(n as nat),
    decreases n,
{
    let d: u64 = n % 10;
    let c: char = if d == 0 {
        '0'
    } else if d == 1 {
        '1'
    } else if d == 2 {
        '2'
    } else if d == 3 {
        '3'
    } else if d == 4 {
        '4'
    } else if d == 5 {
        '5'
    } else if d == 6 {
        '6'
    } else if d == 7 {
        '7'
    } else if d == 8 {
        '8'
    } else {
        '9'
    };
    proof {
        assert(c == digit_char_of((n % 10) as nat));
    }
    if n < 10 {
        let mut out = String::new();
        out.push(c);
        proof {
            assert(out@ =~= seq![digit_char_of(n as nat)]);
        }
        out
    } else {
        let mut out = u64_to_string(n / 10);
        out.push(c);
        out
    }
}

// ---------- addresses ----------

/// Position just after the last `:` in `s`, or 0 when `s` has none.
pub open spec fn after_last_colon(s: Seq<char>) -> int
    decreases s.len(),
{
    if s.len() == 0 {
        0
    } else if s.last() == ':' {
        s.len() as int
    } else {
        after_last_colon(s.drop_last())
    }
}

/// The port part of a `host:port` address: everything after the last `:`,
/// or the whole string when it holds no `:`.
pub open spec fn spec_port_str(s: Seq<char>) -> Seq<char> {
    s.subrange(after_last_colon(s), s.len() as int)
}

pub proof fn lemma_after_last_colon_bounds(s: Seq<char>)
    ensures
        0 <= after_last_colon(s) <= s.len(),
    decreases s.len(),
{
    if s.len() > 0 && s.last() != ':' {
        lemma_after_last_colon_bounds(s.drop_last());
    }
}

/// Everything after the last `:` of `addr`, or all of it when it has none.
pub fn port_str(addr: &str) -> (r: &str)
    ensures
        r@ == spec_port_str(addr@),
{
    let n = addr.unicode_len();
    let mut cut: usize = 0;
    let mut i: usize = 0;
    while i < n
        invariant
            i <= n,
            n == addr@.len(),
            cut == after_last_colon(addr@.subrange(0, i as int)),
            cut <= i,
        decreases n - i,
    {
        let c = addr.get_char(i);
        proof {
            assert(addr@.subrange(0, i + 1 as int).drop_last() =~= addr@.subrange(0, i as int));
            assert(addr@.subrange(0, i + 1 as int).last() == addr@[i as int]);
            lemma_after_last_colon_bounds(addr@.subrange(0, i as int));
        }
        if c == ':' {
            cut = i + 1;
        }
        i = i + 1;
    }
    proof {
        assert(addr@.subrange(0, n as int) =~= addr@);
    }
    addr.substring_char(cut, n)
}

/// The host part of an address: everything before the first `:`;
/// `127.0.0.1` when the address holds no `:` at all.
pub open spec fn spec_host_of(s: Seq<char>) -> Seq<char> {
    if spec_find(s, ':') < 0 {
        "127.0.0.1"@
    } else {
        s.subrange(0, spec_find(s, ':'))
    }
}

pub fn host_of<'a>(addr: &'a str) -> (r: &'a str)
    ensures
        r@ == spec_host_of(addr@),
{
    match find_char(addr, ':') {
        Some(i) => {
            proof {
                lemma_find_props(addr@, ':');
            }
            addr.substring_char(0, i)
        },
        None => "127.0.0.1",
    }
}

/// The host part of an address, defaulting to `127.0.0.1` for a string
/// without one; unlike `host_of` an address that starts with `:` keeps
/// its empty host.
pub open spec fn spec_host_str(s: Seq<char>) -> Seq<char> {
    spec_split_head(s, ':')
}

pub fn host_str<'a>(addr: &'a str) -> (r: &'a str)
    ensures
        r@ == spec_host_str(addr@),
{
    let (head, _) = split_first(addr, ':');
    head
}

/// `host:port` built from its two halves.
pub fn join_addr(host: &str, port: &str) -> (r: String)
    ensures
        r@ == host@ + seq![':'] + port@,
{
    let mut out = host.to_owned();
    out.push(':');
    out.append(port);
    proof {
        assert(out@ =~= host@ + seq![':'] + port@);
    }
    out
}

/// A bare port is given the loopback host; a full address is kept.
pub open spec fn spec_normalize_addr(s: Seq<char>) -> Seq<char> {
    if spec_find(s, ':') < 0 {
        "127.0.0.1:"@ + s
    } else {
        s
    }
}

/// Accept `7001` as well as `127.0.0.1:7001`.
pub fn normalize_addr(raw: String) -> (r: String)
    ensures
        r@ == spec_normalize_addr(raw@),
{
    match find_char(raw.as_str(), ':') {
        Some(_) => raw,
        None => {
            let mut out = String::new();
            out.append("127.0.0.1:");
            out.append(raw.as_str());
            out
        },
    }
}

} // verus!
