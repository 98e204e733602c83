//! Chunk arithmetic for striped file storage: how many bytes of a
//! file each node stores, and that the chunks together are exactly
//! the file.
use vstd::prelude::*;

verus! {

/// Length of chunk `i` of a file of `size` bytes split into `parts`
/// chunks: the first `size % parts` chunks get one byte more.
pub open spec fn spec_chunk_len(i: nat, size: nat, parts: nat) -> nat
    recommends
        parts >= 1,
{
    if i < size % parts {
        size / parts + 1
    } else {
        size / parts
    }
}

/// Total length of the first `n` chunks.
pub open spec fn spec_sum_len(n: nat, size: nat, parts: nat) -> nat
    decreases n,
{
    if n == 0 {
        0
    } else {
        spec_sum_len((n - 1) as nat, size, parts) + spec_chunk_len((n - 1) as nat, size, parts)
    }
}

/// Distribute the remainder over the first `size % parts` chunks:
/// every chunk holds the floor or the ceiling of `size / parts`.
pub fn fair_chunk_len(index: u32, total_size: u64, parts: u32) -> (r: u64)
    requires
        parts >= 1,
    ensures
        r == spec_chunk_len(index as nat, total_size as nat, parts as nat),
        r == total_size as nat / parts as nat || r == total_size as nat / parts as nat + 1,
{
    let base = total_size / parts as u64;
    let rem = total_size % parts as u64;
    if (index as u64) < rem {
        proof {
            vstd::arithmetic::div_mod::lemma_fundamental_div_mod(
                total_size as int,
                parts as int,
            );
            let q = total_size as int / parts as int;
            assert(parts as int * q >= q) by (nonlinear_arith)
                requires
                    parts as int >= 1,
                    q >= 0,
            ;
        }
        base + 1
    } else {
        base
    }
}

/// The first `n` chunks hold `n*base` bytes plus one extra byte for
/// each of the first `min(n, size % parts)` chunks.
pub proof fn lemma_sum_len_closed(n: nat, size: nat, parts: nat)
    requires
        parts >= 1,
    ensures
        spec_sum_len(n, size, parts) == n * (size / parts) + (if n <= size % parts {
            n
        } else {
            size % parts
        }),
    decreases n,
{
    if n > 0 {
        let m = (n - 1) as nat;
        lemma_sum_len_closed(m, size, parts);
        let q = size / parts;
        let rem = size % parts;
        assert(n * q == m * q + q) by (nonlinear_arith)
            requires
                n >= 1,
                m == n - 1,
        ;
        if m < rem {
            assert(spec_sum_len(n, size, parts) == m * q + m + q + 1);
        } else {
            assert(spec_sum_len(n, size, parts) == m * q + (if m <= rem {
                m
            } else {
                rem
            }) + q);
        }
    } else {
        assert(n * (size / parts) == 0) by (nonlinear_arith)
            requires
                n == 0,
        ;
    }
}

/// The chunk lengths sum to the file size: nothing is lost and
/// nothing is invented by the split.
pub proof fn lemma_chunks_cover_size(size: nat, parts: nat)
    requires
        parts >= 1,
    ensures
        spec_sum_len(parts, size, parts) == size,
{
    lemma_sum_len_closed(parts, size, parts);
    vstd::arithmetic::div_mod::lemma_fundamental_div_mod(size as int, parts as int);
    assert(size % parts <= parts) by {
        vstd::arithmetic::div_mod::lemma_mod_bound(size as int, parts as int);
    }
    let q = size / parts;
    assert(parts * q == q * parts) by (nonlinear_arith);
}

/// Partial sums never pass the file size.
pub proof fn lemma_sum_len_le_size(n: nat, size: nat, parts: nat)
    requires
        parts >= 1,
        n <= parts,
    ensures
        spec_sum_len(n, size, parts) <= size,
    decreases parts - n,
{
    if n == parts {
        lemma_chunks_cover_size(size, parts);
    } else {
        lemma_sum_len_le_size(n + 1, size, parts);
    }
}

/// Chunk `i` of the bytes `data`, by offset and length.
pub open spec fn spec_chunk_of(data: Seq<u8>, i: nat, parts: nat) -> Seq<u8> {
    data.subrange(
        spec_sum_len(i, data.len(), parts) as int,
        spec_sum_len(i + 1, data.len(), parts) as int,
    )
}

/// The first `n` chunks, in index order, as one byte string.
pub open spec fn concat_chunks(data: Seq<u8>, n: nat, parts: nat) -> Seq<u8>
    decreases n,
{
    if n == 0 {
        Seq::empty()
    } else {
        concat_chunks(data, (n - 1) as nat, parts) + spec_chunk_of(data, (n - 1) as nat, parts)
    }
}

proof fn lemma_concat_chunks_prefix(data: Seq<u8>, n: nat, parts: nat)
    requires
        parts >= 1,
        n <= parts,
    ensures
        concat_chunks(data, n, parts) == data.subrange(
            0,
            spec_sum_len(n, data.len(), parts) as int,
        ),
    decreases n,
{
    lemma_sum_len_le_size(n, data.len(), parts);
    if n == 0 {
        assert(concat_chunks(data, 0, parts) =~= data.subrange(0, 0));
    } else {
        lemma_concat_chunks_prefix(data, (n - 1) as nat, parts);
        lemma_sum_len_le_size((n - 1) as nat, data.len(), parts);
        assert(data.subrange(0, spec_sum_len((n - 1) as nat, data.len(), parts) as int)
            + data.subrange(
            spec_sum_len((n - 1) as nat, data.len(), parts) as int,
            spec_sum_len(n, data.len(), parts) as int,
        ) =~= data.subrange(0, spec_sum_len(n, data.len(), parts) as int));
    }
}

/// The chunks of a file, concatenated in index order, are exactly the
/// file: a pull that fetches every chunk rebuilds the pushed bytes.
pub proof fn lemma_chunks_reassemble(data: Seq<u8>, parts: nat)
    requires
        parts >= 1,
    ensures
        concat_chunks(data, parts, parts) == data,
{
    lemma_concat_chunks_prefix(data, parts, parts);
    lemma_chunks_cover_size(data.len(), parts);
    assert(data.subrange(0, data.len() as int) =~= data);
}

/// Total length of the chunks up to and including `index`.
pub fn sum_len_up_to_inclusive(index: u32, total_size: u64, parts: u32) -> (r: u64)
    requires
        parts >= 1,
        index < parts,
    ensures
        r == spec_sum_len(index as nat + 1, total_size as nat, parts as nat),
        r <= total_size,
{
    proof {
        lemma_sum_len_le_size(index as nat + 1, total_size as nat, parts as nat);
    }
    let mut acc: u64 = 0;
    let mut i: u32 = 0;
    while i <= index
        invariant
            parts >= 1,
            index < parts,
            i <= index + 1,
            acc == spec_sum_len(i as nat, total_size as nat, parts as nat),
            acc <= total_size,
        decreases index + 1 - i,
    {
        proof {
            lemma_sum_len_le_size(i as nat + 1, total_size as nat, parts as nat);
        }
        acc = acc + fair_chunk_len(i, total_size, parts);
        i = i + 1;
    }
    acc
}

} // verus!
