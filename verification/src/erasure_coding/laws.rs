//! Laws of the erasure coder, proved over the models that its contracts use.

use crate::erasure_coding::xor::{
    all_of_length, ceil_div, chunks_of, pad_spec, padded, parity_spec, reconstruct_spec,
    split_spec, xor_all, xor_bytes, lemma_ceil_div, lemma_xor_all_len, ErasureError,
};
use vstd::prelude::*;

verus! {

/// XOR on bytes is commutative and associative, undoes itself, and has zero as
/// its neutral element.
pub proof fn lemma_xor_byte_laws(a: u8, b: u8, c: u8)
    by (bit_vector)
    ensures
        a ^ b == b ^ a,
        (a ^ b) ^ c == a ^ (b ^ c),
        (a ^ b) ^ c == (a ^ c) ^ b,
        a ^ (a ^ b) == b,
        a ^ 0u8 == a,
{
}

/// Padding is idempotent: padding an already padded input to the same size
/// changes nothing.
pub proof fn lemma_pad_idempotent(input: Seq<u8>, target_size: nat, pad_byte: u8)
    requires
        input.len() <= target_size,
    ensures
        pad_spec(input, target_size, pad_byte) == Ok::<Seq<u8>, ErasureError>(
            padded(input, target_size, pad_byte),
        ),
        pad_spec(padded(input, target_size, pad_byte), target_size, pad_byte) == pad_spec(
            input,
            target_size,
            pad_byte,
        ),
{
    let once = padded(input, target_size, pad_byte);
    assert(once.len() == target_size);
    assert(padded(once, target_size, pad_byte) =~= once);
}

/// Taking one block out of a set and XORing it back in gives the XOR of the
/// whole set, wherever the block stood.
pub proof fn lemma_xor_all_remove(blocks: Seq<Seq<u8>>, len: nat, j: int)
    requires
        0 <= j < blocks.len(),
    ensures
        xor_all(blocks, len) == xor_bytes(xor_all(blocks.remove(j), len), blocks[j]),
    decreases blocks.len(),
{
    let rest = blocks.remove(j);
    if j == blocks.len() - 1 {
        assert(rest =~= blocks.drop_last());
    } else {
        let front = blocks.drop_last();
        lemma_xor_all_remove(front, len, j);
        assert(rest.drop_last() =~= front.remove(j));
        assert(rest.last() == blocks.last());
        assert(front[j] == blocks[j]);
        let inner = xor_all(front.remove(j), len);
        lemma_xor_all_len(front.remove(j), len);
        assert forall|i: int| 0 <= i < len implies (inner[i] ^ blocks[j][i]) ^ blocks.last()[i]
            == (inner[i] ^ blocks.last()[i]) ^ blocks[j][i] by {
            lemma_xor_byte_laws(inner[i], blocks[j][i], blocks.last()[i]);
        }
        assert(xor_bytes(xor_bytes(inner, blocks[j]), blocks.last()) =~= xor_bytes(
            xor_bytes(inner, blocks.last()),
            blocks[j],
        ));
    }
}

/// The XOR of a set of blocks does not depend on their order.
pub proof fn lemma_xor_all_order_independent(a: Seq<Seq<u8>>, b: Seq<Seq<u8>>, len: nat)
    requires
        a.to_multiset() == b.to_multiset(),
    ensures
        xor_all(a, len) == xor_all(b, len),
    decreases a.len(),
{
    a.to_multiset_ensures();
    b.to_multiset_ensures();
    if a.len() > 0 {
        let x = a.last();
        assert(a.contains(x));
        assert(a.to_multiset().count(x) > 0);
        assert(b.to_multiset().count(x) > 0);
        assert(b.contains(x));
        let j = choose|j: int| 0 <= j < b.len() && b[j] == x;
        assert(a.drop_last() =~= a.remove(a.len() - 1));
        assert(a.drop_last().to_multiset() =~= b.remove(j).to_multiset());
        lemma_xor_all_order_independent(a.drop_last(), b.remove(j), len);
        lemma_xor_all_remove(b, len, j);
    } else {
        assert(b.len() == 0);
    }
}

/// Parity is order-independent: two sets that hold the same blocks, in whatever
/// order, have the same parity block, or are refused for the same reason.
pub proof fn lemma_parity_order_independent(a: Seq<Seq<u8>>, b: Seq<Seq<u8>>)
    requires
        a.to_multiset() == b.to_multiset(),
    ensures
        parity_spec(a) == parity_spec(b),
{
    a.to_multiset_ensures();
    b.to_multiset_ensures();
    if a.len() > 0 {
        assert(a.contains(a[0]));
        assert(b.contains(b[0]));
        let la = a[0].len();
        let lb = b[0].len();
        if all_of_length(a, la) {
            assert forall|k: int| 0 <= k < b.len() implies (#[trigger] b[k]).len() == la by {
                assert(b.contains(b[k]));
                assert(b.to_multiset().count(b[k]) > 0);
                assert(a.to_multiset().count(b[k]) > 0);
                assert(a.contains(b[k]));
            }
            assert(lb == la);
        }
        if all_of_length(b, lb) {
            assert forall|k: int| 0 <= k < a.len() implies (#[trigger] a[k]).len() == lb by {
                assert(a.contains(a[k]));
                assert(a.to_multiset().count(a[k]) > 0);
                assert(b.to_multiset().count(a[k]) > 0);
                assert(b.contains(a[k]));
            }
            assert(la == lb);
        }
        lemma_xor_all_order_independent(a, b, la);
    }
}

/// Parity commutes with rotation: three blocks give the same parity block when
/// the last of them is moved to the front.
pub proof fn lemma_parity_rotation(b1: Seq<u8>, b2: Seq<u8>, b3: Seq<u8>)
    ensures
        parity_spec(seq![b1, b2, b3]) == parity_spec(seq![b3, b1, b2]),
{
    let a = seq![b1, b2, b3];
    let b = seq![b3, b1, b2];
    a.to_multiset_ensures();
    b.to_multiset_ensures();
    assert(b.remove(0) =~= seq![b1, b2]);
    assert(a.remove(2) =~= seq![b1, b2]);
    assert(a.to_multiset() =~= seq![b1, b2].to_multiset().insert(b3)) by {
        assert(seq![b1, b2].push(b3) =~= a);
        seq![b1, b2].to_multiset_ensures();
    }
    assert(b.to_multiset() =~= seq![b1, b2].to_multiset().insert(b3)) by {
        assert(seq![b1, b2].insert(0, b3) =~= b);
        vstd::seq_lib::to_multiset_insert(seq![b1, b2], 0, b3);
    }
    lemma_parity_order_independent(a, b);
}

/// Reconstruction is correct: from the parity block of two or more blocks of one
/// length and all of them but one, whichever that is, the missing block comes
/// back exactly.
pub proof fn lemma_reconstruct_recovers(blocks: Seq<Seq<u8>>, missing: int)
    requires
        blocks.len() >= 2,
        all_of_length(blocks, blocks[0].len()),
        0 <= missing < blocks.len(),
    ensures
        parity_spec(blocks) matches Ok(parity) && reconstruct_spec(blocks.remove(missing), parity)
            == Ok::<Seq<u8>, ErasureError>(blocks[missing]),
{
    let len = blocks[0].len();
    let parity = xor_all(blocks, len);
    let surviving = blocks.remove(missing);
    let lost = blocks[missing];
    lemma_xor_all_len(blocks, len);
    lemma_xor_all_len(surviving, len);
    lemma_xor_all_remove(blocks, len, missing);
    assert forall|k: int| 0 <= k < surviving.len() implies (#[trigger] surviving[k]).len()
        == len by {
        if k < missing {
            assert(surviving[k] == blocks[k]);
        } else {
            assert(surviving[k] == blocks[k + 1]);
        }
    }
    let partial = xor_all(surviving, len);
    assert forall|i: int| 0 <= i < len implies partial[i] ^ (partial[i] ^ lost[i])
        == lost[i] by {
        lemma_xor_byte_laws(partial[i], lost[i], 0u8);
    }
    assert(xor_bytes(partial, xor_bytes(partial, lost)) =~= lost);
}

/// `bytes` without the run of `pad_byte` at its end.
pub open spec fn without_trailing(bytes: Seq<u8>, pad_byte: u8) -> Seq<u8>
    decreases bytes.len(),
{
    if bytes.len() > 0 && bytes.last() == pad_byte {
        without_trailing(bytes.drop_last(), pad_byte)
    } else {
        bytes
    }
}

/// Consecutive chunks, put back together, are the stretch of data they were cut from.
pub proof fn lemma_chunks_rejoin(data: Seq<u8>, size: nat, count: nat)
    requires
        size * count <= data.len(),
    ensures
        chunks_of(data, size, count).flatten() == data.subrange(0, (size * count) as int),
    decreases count,
{
    if count == 0 {
        assert(chunks_of(data, size, count) =~= Seq::<Seq<u8>>::empty());
        assert(size * count == 0) by (nonlinear_arith)
            requires
                count == 0,
        ;
        assert(data.subrange(0, 0) =~= Seq::<u8>::empty());
    } else {
        let fewer = (count - 1) as nat;
        assert(size * count == size * fewer + size) by (nonlinear_arith)
            requires
                fewer == count - 1,
                count > 0,
        ;
        assert(fewer * size == size * fewer && (fewer + 1) * size == size * count)
            by (nonlinear_arith)
            requires
                fewer == count - 1,
        ;
        lemma_chunks_rejoin(data, size, fewer);
        let last = data.subrange((fewer * size) as int, ((fewer + 1) * size) as int);
        assert(chunks_of(data, size, count) =~= chunks_of(data, size, fewer).push(last));
        chunks_of(data, size, fewer).lemma_flatten_push(last);
        assert(data.subrange(0, (size * fewer) as int) + last =~= data.subrange(
            0,
            (size * count) as int,
        ));
    }
}

/// Splitting and rejoining reproduces the input: the blocks of a split, put back
/// together in order, are the input followed by its padding. Cut back to the
/// input's length they are the input; where the length is a multiple of the block
/// count nothing was added, and they are the input as they stand.
pub proof fn lemma_split_rejoin(input: Seq<u8>, num_blocks: nat, pad_byte: u8)
    requires
        num_blocks > 0,
    ensures
        split_spec(input, num_blocks, pad_byte) matches Ok(blocks) && {
            &&& blocks.len() == num_blocks
            &&& all_of_length(blocks, ceil_div(input.len(), num_blocks))
            &&& blocks.flatten() == padded(
                input,
                ceil_div(input.len(), num_blocks) * num_blocks,
                pad_byte,
            )
            &&& blocks.flatten().take(input.len() as int) == input
            &&& input.len() % num_blocks == 0 ==> blocks.flatten() == input
        },
{
    let size = ceil_div(input.len(), num_blocks);
    let total = size * num_blocks;
    let data = padded(input, total, pad_byte);
    let blocks = chunks_of(data, size, num_blocks);
    lemma_ceil_div(input.len(), num_blocks);
    assert(data.len() == total);
    lemma_chunks_rejoin(data, size, num_blocks);
    assert(data.subrange(0, total as int) =~= data);
    assert(data.take(input.len() as int) =~= input);
    if input.len() % num_blocks == 0 {
        assert(data =~= input);
    }
    assert forall|k: int| 0 <= k < blocks.len() implies (#[trigger] blocks[k]).len() == size by {
        assert(0 <= k * size && (k + 1) * size <= size * num_blocks && (k + 1) * size - k * size
            == size) by (nonlinear_arith)
            requires
                0 <= k < num_blocks,
        ;
    }
}

/// Stripping the trailing pad bytes of a padded input gives the input back,
/// unless the input itself ends in the pad byte.
pub proof fn lemma_unpad(input: Seq<u8>, target_size: nat, pad_byte: u8)
    requires
        input.len() <= target_size,
        input.len() == 0 || input.last() != pad_byte,
    ensures
        without_trailing(padded(input, target_size, pad_byte), pad_byte) == input,
    decreases target_size - input.len(),
{
    let data = padded(input, target_size, pad_byte);
    if target_size == input.len() {
        assert(data =~= input);
    } else {
        assert(data.last() == pad_byte);
        assert(data.drop_last() =~= padded(input, (target_size - 1) as nat, pad_byte));
        lemma_unpad(input, (target_size - 1) as nat, pad_byte);
    }
}

/// Splitting, rejoining and stripping the trailing pad bytes reproduces every
/// input that does not itself end in the pad byte.
pub proof fn lemma_split_rejoin_trimmed(input: Seq<u8>, num_blocks: nat, pad_byte: u8)
    requires
        num_blocks > 0,
        input.len() == 0 || input.last() != pad_byte,
    ensures
        split_spec(input, num_blocks, pad_byte) matches Ok(blocks) && without_trailing(
            blocks.flatten(),
            pad_byte,
        ) == input,
{
    lemma_split_rejoin(input, num_blocks, pad_byte);
    lemma_ceil_div(input.len(), num_blocks);
    lemma_unpad(input, ceil_div(input.len(), num_blocks) * num_blocks, pad_byte);
}

/// Nothing is made of nothing: a split into zero blocks, the parity of no
/// blocks, and a reconstruction from no surviving blocks are each refused with
/// `InvalidBlockCount`, whatever else they are given.
pub proof fn lemma_empty_inputs_are_rejected(input: Seq<u8>, pad_byte: u8, parity: Seq<u8>)
    ensures
        split_spec(input, 0, pad_byte) == Err::<Seq<Seq<u8>>, ErasureError>(
            ErasureError::InvalidBlockCount,
        ),
        parity_spec(Seq::<Seq<u8>>::empty()) == Err::<Seq<u8>, ErasureError>(
            ErasureError::InvalidBlockCount,
        ),
        reconstruct_spec(Seq::<Seq<u8>>::empty(), parity) == Err::<Seq<u8>, ErasureError>(
            ErasureError::InvalidBlockCount,
        ),
{
}

} // verus!
