use vstd::prelude::*;

verus! {

/// Chunk `k` of `content` cut in pieces of `size` bytes: the bytes in
/// `[k * size, (k + 1) * size)`, the last piece possibly shorter; `None`
/// past the end.
pub open spec fn chunk_at(content: Seq<u8>, size: nat, k: nat) -> Option<Seq<u8>> {
    if k * size < content.len() {
        let end = if (k + 1) * size < content.len() {
            (k + 1) * size
        } else {
            content.len()
        };
        Some(content.subrange((k * size) as int, end as int))
    } else {
        None
    }
}

/// Chunks `0 .. k` of `content`, received in order and appended.
pub open spec fn assembled(content: Seq<u8>, size: nat, k: nat) -> Seq<u8>
    decreases k,
{
    if k == 0 {
        Seq::empty()
    } else {
        let prev = assembled(content, size, (k - 1) as nat);
        match chunk_at(content, size, (k - 1) as nat) {
            Some(c) => prev + c,
            None => prev,
        }
    }
}

/// Number of chunks of `size` bytes that a content of `len` bytes makes.
pub open spec fn chunk_count(len: nat, size: nat) -> nat {
    if size == 0 {
        0
    } else {
        ((len + size - 1) as nat / size) as nat
    }
}

proof fn lemma_assembled_prefix(content: Seq<u8>, size: nat, k: nat)
    requires
        size > 0,
    ensures
        assembled(content, size, k) == content.subrange(
            0,
            if k * size < content.len() {
                (k * size) as int
            } else {
                content.len() as int
            },
        ),
    decreases k,
{
    if k == 0 {
        assert(content.subrange(0, 0) =~= Seq::<u8>::empty());
    } else {
        let j = (k - 1) as nat;
        lemma_assembled_prefix(content, size, j);
        assert((j + 1) * size == j * size + size) by (nonlinear_arith);
        assert(k == j + 1);
        if j * size < content.len() {
            let end = if k * size < content.len() {
                k * size
            } else {
                content.len()
            };
            assert(content.subrange(0, (j * size) as int) + content.subrange(
                (j * size) as int,
                end as int,
            ) =~= content.subrange(0, end as int));
        }
    }
}

/// Appending chunks `0 .. n` in order, where `n` pieces of `size` bytes
/// cover the content, gives back exactly the content.
pub proof fn lemma_chunks_reassemble(content: Seq<u8>, size: nat, n: nat)
    requires
        size > 0,
        n * size >= content.len(),
    ensures
        assembled(content, size, n) == content,
{
    lemma_assembled_prefix(content, size, n);
    assert(content.subrange(0, content.len() as int) =~= content);
}

/// `chunk_count` pieces cover the content, and each of them is present.
pub proof fn lemma_chunk_count(len: nat, size: nat)
    requires
        size > 0,
    ensures
        chunk_count(len, size) * size >= len,
        chunk_count(len, size) > 0 ==> (chunk_count(len, size) - 1) * size < len,
{
    let n = chunk_count(len, size);
    let t = (len + size - 1) as nat;
    assert(n == t / size);
    assert(t == size * (t / size) + t % size) by (nonlinear_arith)
        requires size > 0;
    assert(0 <= t % size < size) by (nonlinear_arith)
        requires size > 0;
    assert(n * size == size * n) by (nonlinear_arith);
    if n > 0 {
        assert((n - 1) * size == n * size - size) by (nonlinear_arith);
    }
}

/// The first `k` of `parts`, appended in order.
pub open spec fn joined(parts: Seq<Seq<u8>>, k: nat) -> Seq<u8>
    decreases k,
{
    if k == 0 || k > parts.len() {
        Seq::empty()
    } else {
        joined(parts, (k - 1) as nat) + parts[k - 1]
    }
}

/// A whole transfer: a requester that receives, in order, the chunks
/// `0 .. chunk_count` of `content` cut in pieces of `size` bytes, and
/// appends each, ends with exactly `content`.
pub proof fn lemma_transfer_round_trip(content: Seq<u8>, size: nat, parts: Seq<Seq<u8>>)
    requires
        size > 0,
        parts.len() == chunk_count(content.len(), size),
        forall|k: int| 0 <= k < parts.len() ==> chunk_at(content, size, k as nat) == Some(#[trigger] parts[k]),
    ensures
        joined(parts, parts.len()) == content,
{
    assert forall|k: nat| k <= parts.len() implies joined(parts, k) == assembled(content, size, k) by {
        lemma_joined_assembled(content, size, parts, k);
    }
    lemma_chunk_count(content.len(), size);
    lemma_chunks_reassemble(content, size, parts.len());
}

proof fn lemma_joined_assembled(content: Seq<u8>, size: nat, parts: Seq<Seq<u8>>, k: nat)
    requires
        k <= parts.len(),
        forall|j: int| 0 <= j < parts.len() ==> chunk_at(content, size, j as nat) == Some(#[trigger] parts[j]),
    ensures
        joined(parts, k) == assembled(content, size, k),
    decreases k,
{
    if k > 0 {
        lemma_joined_assembled(content, size, parts, (k - 1) as nat);
        assert(chunk_at(content, size, (k - 1) as nat) == Some(parts[k - 1]));
    }
}

} // verus!
