//! Padding, block splitting, XOR parity and single-block reconstruction.
//!
//! Every operation is a pure function of its arguments. The contracts are stated
//! over the spec functions of this module, which model a block as a `Seq<u8>`.

use vstd::prelude::*;

verus! {

/// Why an erasure-coding operation refused its input.
#[derive(Debug, Clone, Copy, PartialEq, Eq, Structural)]
pub enum ErasureError {
    /// A requested size cannot hold the data it was asked to hold.
    InvalidSize,
    /// A block count of zero, or an empty set of blocks.
    InvalidBlockCount,
    /// Blocks that must share one length do not.
    SizeMismatch,
}

/// `input` followed by as many copies of `pad_byte` as it takes to reach `target_size`.
pub open spec fn padded(input: Seq<u8>, target_size: nat, pad_byte: u8) -> Seq<u8> {
    input + Seq::new((target_size - input.len()) as nat, |i: int| pad_byte)
}

/// What [`pad_block`] returns: the padded bytes, or `InvalidSize` when the input
/// is already longer than the target.
pub open spec fn pad_spec(input: Seq<u8>, target_size: nat, pad_byte: u8) -> Result<
    Seq<u8>,
    ErasureError,
> {
    if target_size < input.len() {
        Err(ErasureError::InvalidSize)
    } else {
        Ok(padded(input, target_size, pad_byte))
    }
}

/// Whether an executable result carries the outcome `expected` of its model.
pub open spec fn bytes_result_is(
    out: Result<Vec<u8>, ErasureError>,
    expected: Result<Seq<u8>, ErasureError>,
) -> bool {
    match out {
        Ok(bytes) => expected == Ok::<Seq<u8>, ErasureError>(bytes@),
        Err(e) => expected == Err::<Seq<u8>, ErasureError>(e),
    }
}

/// Returns a copy of `input` extended with `pad_byte` to exactly `target_size` bytes.
///
/// An input that already has the target size is returned unchanged; one that is
/// longer is rejected rather than truncated.
pub fn pad_block(input: &[u8], target_size: usize, pad_byte: u8) -> (out: Result<
    Vec<u8>,
    ErasureError,
>)
    ensures
        bytes_result_is(out, pad_spec(input@, target_size as nat, pad_byte)),
{
    let len: usize = input.len();
    if target_size < len {
        return Err(ErasureError::InvalidSize);
    }
    let mut new_vec: Vec<u8> = vstd::slice::slice_to_vec(input);
    let missing: usize = target_size - len;
    let mut pad: Vec<u8> = vec![pad_byte; missing];
    assert(pad@ =~= Seq::new(missing as nat, |i: int| pad_byte));
    new_vec.append(&mut pad);
    Ok(new_vec)
}

/// The blocks behind a slice of byte slices, each as a sequence of bytes.
pub open spec fn block_views(blocks: Seq<&[u8]>) -> Seq<Seq<u8>> {
    Seq::new(blocks.len(), |k: int| blocks[k]@)
}

/// Byte-wise XOR of `a` with `b`, over the length of `a`.
pub open spec fn xor_bytes(a: Seq<u8>, b: Seq<u8>) -> Seq<u8> {
    Seq::new(a.len(), |i: int| a[i] ^ b[i])
}

/// `len` zero bytes: the XOR of no blocks at all.
pub open spec fn zero_block(len: nat) -> Seq<u8> {
    Seq::new(len, |i: int| 0u8)
}

/// Byte-wise XOR of all of `blocks`, over `len` bytes.
pub open spec fn xor_all(blocks: Seq<Seq<u8>>, len: nat) -> Seq<u8>
    decreases blocks.len(),
{
    if blocks.len() == 0 {
        zero_block(len)
    } else {
        xor_bytes(xor_all(blocks.drop_last(), len), blocks.last())
    }
}

/// Every block is exactly `len` bytes long.
pub open spec fn all_of_length(blocks: Seq<Seq<u8>>, len: nat) -> bool {
    forall|k: int| 0 <= k < blocks.len() ==> (#[trigger] blocks[k]).len() == len
}

/// What [`calculate_ec_block`] returns: the XOR of all blocks, `InvalidBlockCount`
/// for no blocks, `SizeMismatch` for blocks of differing lengths.
pub open spec fn parity_spec(blocks: Seq<Seq<u8>>) -> Result<Seq<u8>, ErasureError> {
    if blocks.len() == 0 {
        Err(ErasureError::InvalidBlockCount)
    } else if !all_of_length(blocks, blocks[0].len()) {
        Err(ErasureError::SizeMismatch)
    } else {
        Ok(xor_all(blocks, blocks[0].len()))
    }
}

/// What [`reconstruct_block`] returns: the XOR of the surviving blocks with the
/// parity block, `InvalidBlockCount` for no surviving blocks, `SizeMismatch` when a
/// surviving block differs in length from the parity block.
pub open spec fn reconstruct_spec(surviving: Seq<Seq<u8>>, parity: Seq<u8>) -> Result<
    Seq<u8>,
    ErasureError,
> {
    if surviving.len() == 0 {
        Err(ErasureError::InvalidBlockCount)
    } else if !all_of_length(surviving, parity.len()) {
        Err(ErasureError::SizeMismatch)
    } else {
        Ok(xor_bytes(xor_all(surviving, parity.len()), parity))
    }
}

/// The XOR of any blocks over `len` bytes is `len` bytes long.
pub proof fn lemma_xor_all_len(blocks: Seq<Seq<u8>>, len: nat)
    ensures
        xor_all(blocks, len).len() == len,
    decreases blocks.len(),
{
    if blocks.len() > 0 {
        lemma_xor_all_len(blocks.drop_last(), len);
    }
}

/// Tells whether every block has exactly `len` bytes.
fn blocks_have_length(blocks: &[&[u8]], len: usize) -> (same: bool)
    ensures
        same == all_of_length(block_views(blocks@), len as nat),
{
    let count: usize = blocks.len();
    let mut k: usize = 0;
    while k < count
        invariant
            count == blocks@.len(),
            k <= count,
            all_of_length(block_views(blocks@).take(k as int), len as nat),
        decreases count - k,
    {
        if blocks[k].len() != len {
            assert(block_views(blocks@)[k as int].len() != len);
            return false;
        }
        proof {
            let views = block_views(blocks@);
            assert forall|j: int| 0 <= j < k + 1 implies (#[trigger] views.take(k + 1)[j]).len()
                == len by {
                if j < k {
                    assert(views.take(k as int)[j] == views[j]);
                }
            }
        }
        k = k + 1;
    }
    assert(block_views(blocks@).take(count as int) =~= block_views(blocks@));
    true
}

/// XORs `block` into `acc`, byte by byte.
fn xor_into(acc: &mut Vec<u8>, block: &[u8])
    requires
        old(acc)@.len() == block@.len(),
    ensures
        final(acc)@ == xor_bytes(old(acc)@, block@),
{
    let len: usize = block.len();
    let mut i: usize = 0;
    while i < len
        invariant
            len == block@.len(),
            acc@.len() == len,
            i <= len,
            forall|j: int| 0 <= j < i ==> acc@[j] == old(acc)@[j] ^ block@[j],
            forall|j: int| i <= j < len ==> acc@[j] == old(acc)@[j],
        decreases len - i,
    {
        let mixed: u8 = acc[i] ^ block[i];
        acc.set(i, mixed);
        i = i + 1;
    }
    assert(acc@ =~= xor_bytes(old(acc)@, block@));
}

/// XORs all of `blocks` together, over `len` bytes.
fn xor_blocks(blocks: &[&[u8]], len: usize) -> (acc: Vec<u8>)
    requires
        all_of_length(block_views(blocks@), len as nat),
    ensures
        acc@ == xor_all(block_views(blocks@), len as nat),
{
    let count: usize = blocks.len();
    let mut acc: Vec<u8> = vec![0u8; len];
    assert(acc@ =~= zero_block(len as nat));
    let mut k: usize = 0;
    while k < count
        invariant
            count == blocks@.len(),
            k <= count,
            all_of_length(block_views(blocks@), len as nat),
            acc@ == xor_all(block_views(blocks@).take(k as int), len as nat),
        decreases count - k,
    {
        proof {
            let views = block_views(blocks@);
            lemma_xor_all_len(views.take(k as int), len as nat);
            assert(views[k as int].len() == len);
            assert(views.take(k + 1).drop_last() =~= views.take(k as int));
            assert(views.take(k + 1).last() == blocks@[k as int]@);
        }
        xor_into(&mut acc, blocks[k]);
        k = k + 1;
    }
    assert(block_views(blocks@).take(count as int) =~= block_views(blocks@));
    acc
}

/// Computes the parity block: the byte-wise XOR of all of `blocks`.
///
/// The blocks must be at least one and all of one length; the parity block has
/// that length.
pub fn calculate_ec_block(blocks: &[&[u8]]) -> (out: Result<Vec<u8>, ErasureError>)
    ensures
        bytes_result_is(out, parity_spec(block_views(blocks@))),
{
    if blocks.len() == 0 {
        return Err(ErasureError::InvalidBlockCount);
    }
    let block_size: usize = blocks[0].len();
    if !blocks_have_length(blocks, block_size) {
        return Err(ErasureError::SizeMismatch);
    }
    Ok(xor_blocks(blocks, block_size))
}

/// Rebuilds the one missing block from the surviving blocks and the parity block.
///
/// The result is the byte-wise XOR of every surviving block with the parity
/// block. It does not matter which block is missing; at least one block must
/// survive, and all of them must have the parity block's length.
pub fn reconstruct_block(base_blocks: &[&[u8]], ec_block: &[u8]) -> (out: Result<
    Vec<u8>,
    ErasureError,
>)
    ensures
        bytes_result_is(out, reconstruct_spec(block_views(base_blocks@), ec_block@)),
{
    if base_blocks.len() == 0 {
        return Err(ErasureError::InvalidBlockCount);
    }
    let block_size: usize = ec_block.len();
    if !blocks_have_length(base_blocks, block_size) {
        return Err(ErasureError::SizeMismatch);
    }
    let mut reconstructed: Vec<u8> = xor_blocks(base_blocks, block_size);
    proof {
        lemma_xor_all_len(block_views(base_blocks@), block_size as nat);
    }
    xor_into(&mut reconstructed, ec_block);
    Ok(reconstructed)
}

/// `len / n`, rounded up: the bytes per block when `len` bytes are spread over
/// `n` blocks. Zero where `n` is zero.
pub open spec fn ceil_div(len: nat, n: nat) -> nat {
    if n == 0 {
        0
    } else {
        ((len + n - 1) / (n as int)) as nat
    }
}

/// The first `count` consecutive chunks of `size` bytes each in `data`.
pub open spec fn chunks_of(data: Seq<u8>, size: nat, count: nat) -> Seq<Seq<u8>> {
    Seq::new(count, |k: int| data.subrange(k * size, (k + 1) * size))
}

/// What [`split_into_blocks`] returns: `num_blocks` consecutive slices of equal
/// length that together are `input`; `InvalidBlockCount` for a count of zero,
/// `InvalidSize` when the input does not divide evenly.
pub open spec fn partition_spec(input: Seq<u8>, num_blocks: nat) -> Result<
    Seq<Seq<u8>>,
    ErasureError,
> {
    if num_blocks == 0 {
        Err(ErasureError::InvalidBlockCount)
    } else if input.len() % num_blocks != 0 {
        Err(ErasureError::InvalidSize)
    } else {
        Ok(chunks_of(input, input.len() / num_blocks, num_blocks))
    }
}

/// What [`create_blocks`] returns: the input, padded to `num_blocks` times the
/// block size, cut into `num_blocks` consecutive blocks; `InvalidBlockCount` for
/// a count of zero.
pub open spec fn split_spec(input: Seq<u8>, num_blocks: nat, pad_byte: u8) -> Result<
    Seq<Seq<u8>>,
    ErasureError,
> {
    if num_blocks == 0 {
        Err(ErasureError::InvalidBlockCount)
    } else {
        let size = ceil_div(input.len(), num_blocks);
        Ok(chunks_of(padded(input, size * num_blocks, pad_byte), size, num_blocks))
    }
}

/// The blocks behind a sequence of byte vectors, each as a sequence of bytes.
pub open spec fn owned_block_views(blocks: Seq<Vec<u8>>) -> Seq<Seq<u8>> {
    Seq::new(blocks.len(), |k: int| blocks[k]@)
}

/// Whether borrowed blocks carry the outcome `expected` of their model.
pub open spec fn slices_result_is(
    out: Result<Vec<&[u8]>, ErasureError>,
    expected: Result<Seq<Seq<u8>>, ErasureError>,
) -> bool {
    match out {
        Ok(blocks) => expected == Ok::<Seq<Seq<u8>>, ErasureError>(block_views(blocks@)),
        Err(e) => expected == Err::<Seq<Seq<u8>>, ErasureError>(e),
    }
}

/// Whether owned blocks carry the outcome `expected` of their model.
pub open spec fn blocks_result_is(
    out: Result<Vec<Vec<u8>>, ErasureError>,
    expected: Result<Seq<Seq<u8>>, ErasureError>,
) -> bool {
    match out {
        Ok(blocks) => expected == Ok::<Seq<Seq<u8>>, ErasureError>(owned_block_views(blocks@)),
        Err(e) => expected == Err::<Seq<Seq<u8>>, ErasureError>(e),
    }
}

/// Rounding `len / n` up gives the quotient, plus one where a remainder is left;
/// `n` blocks of that size hold `len` bytes with fewer than `n` to spare.
pub proof fn lemma_ceil_div(len: nat, n: nat)
    requires
        n > 0,
    ensures
        ceil_div(len, n) == len / n + (if len % n == 0 { 0nat } else { 1nat }),
        len <= ceil_div(len, n) * n < len + n,
        len % n == 0 ==> ceil_div(len, n) * n == len,
{
    let q = len as int / n as int;
    let r = len as int % n as int;
    let d = n as int;
    vstd::arithmetic::div_mod::lemma_fundamental_div_mod(len as int, d);
    assert(len == d * q + r);
    assert(0 <= r < d);
    if r == 0 {
        assert(len + n - 1 == q * d + (d - 1)) by (nonlinear_arith)
            requires
                len == d * q,
                d == n,
        ;
        vstd::arithmetic::div_mod::lemma_fundamental_div_mod_converse(
            len + n - 1,
            d,
            q,
            d - 1,
        );
        assert(q * d == len) by (nonlinear_arith)
            requires
                len == d * q,
        ;
    } else {
        assert(len + n - 1 == (q + 1) * d + (r - 1)) by (nonlinear_arith)
            requires
                len == d * q + r,
                d == n,
        ;
        vstd::arithmetic::div_mod::lemma_fundamental_div_mod_converse(
            len + n - 1,
            d,
            q + 1,
            r - 1,
        );
        assert((q + 1) * d == len + d - r) by (nonlinear_arith)
            requires
                len == d * q + r,
        ;
    }
}

/// Cuts `input` into `num_blocks` consecutive slices of equal length, in order.
///
/// The input must divide evenly: its length is a multiple of `num_blocks`.
pub fn split_into_blocks(input: &[u8], num_blocks: usize) -> (out: Result<
    Vec<&[u8]>,
    ErasureError,
>)
    ensures
        slices_result_is(out, partition_spec(input@, num_blocks as nat)),
        out matches Ok(blocks) ==> blocks@.len() == num_blocks,
{
    if num_blocks == 0 {
        return Err(ErasureError::InvalidBlockCount);
    }
    let len: usize = input.len();
    if len % num_blocks != 0 {
        return Err(ErasureError::InvalidSize);
    }
    let block_size: usize = len / num_blocks;
    proof {
        vstd::arithmetic::div_mod::lemma_fundamental_div_mod(len as int, num_blocks as int);
    }
    let mut blocks: Vec<&[u8]> = Vec::with_capacity(num_blocks);
    let mut start: usize = 0;
    let mut k: usize = 0;
    while k < num_blocks
        invariant
            len == input@.len(),
            len == num_blocks * block_size,
            k <= num_blocks,
            start == k * block_size,
            blocks@.len() == k,
            forall|j: int|
                0 <= j < k ==> (#[trigger] blocks@[j])@ == input@.subrange(
                    j * block_size,
                    (j + 1) * block_size,
                ),
        decreases num_blocks - k,
    {
        assert((k + 1) * block_size == k * block_size + block_size) by (nonlinear_arith);
        assert((k + 1) * block_size <= num_blocks * block_size) by (nonlinear_arith)
            requires
                k + 1 <= num_blocks,
        ;
        let end: usize = start + block_size;
        let block: &[u8] = vstd::slice::slice_subrange(input, start, end);
        blocks.push(block);
        start = end;
        k = k + 1;
    }
    assert(block_views(blocks@) =~= chunks_of(input@, block_size as nat, num_blocks as nat));
    Ok(blocks)
}

/// Splits `input` into `num_blocks` blocks of equal length, padding with `pad_byte`.
///
/// The block size is the input length divided by `num_blocks`, rounded up; the
/// input is padded to `num_blocks` times that size and cut into consecutive
/// blocks. A count of zero is rejected. So is, with `InvalidSize`, a padded
/// length beyond what `usize` can hold.
pub fn create_blocks(input: &[u8], num_blocks: usize, pad_byte: u8) -> (out: Result<
    Vec<Vec<u8>>,
    ErasureError,
>)
    ensures
        blocks_result_is(
            out,
            if num_blocks != 0 && ceil_div(input@.len(), num_blocks as nat) * num_blocks
                > usize::MAX {
                Err(ErasureError::InvalidSize)
            } else {
                split_spec(input@, num_blocks as nat, pad_byte)
            },
        ),
        num_blocks != 0 && input@.len() + num_blocks - 1 <= usize::MAX ==> out is Ok,
        out matches Ok(blocks) ==> blocks@.len() == num_blocks,
{
    if num_blocks == 0 {
        return Err(ErasureError::InvalidBlockCount);
    }
    let len: usize = input.len();
    proof {
        lemma_ceil_div(len as nat, num_blocks as nat);
        vstd::arithmetic::div_mod::lemma_fundamental_div_mod(len as int, num_blocks as int);
        assert(len % num_blocks != 0 ==> len / num_blocks < len) by (nonlinear_arith)
            requires
                num_blocks > 0,
                len == num_blocks * (len / num_blocks) + len % num_blocks,
        ;
    }
    let block_size: usize = if len % num_blocks == 0 {
        len / num_blocks
    } else {
        len / num_blocks + 1
    };
    let padded_size: usize = match block_size.checked_mul(num_blocks) {
        Some(size) => size,
        None => {
            return Err(ErasureError::InvalidSize);
        },
    };
    let padded_input: Vec<u8> = match pad_block(input, padded_size, pad_byte) {
        Ok(bytes) => bytes,
        Err(e) => {
            return Err(e);
        },
    };
    proof {
        vstd::arithmetic::div_mod::lemma_fundamental_div_mod_converse(
            padded_size as int,
            num_blocks as int,
            block_size as int,
            0,
        );
    }
    let slices: Vec<&[u8]> = match split_into_blocks(padded_input.as_slice(), num_blocks) {
        Ok(slices) => slices,
        Err(e) => {
            return Err(e);
        },
    };
    assert(block_views(slices@).len() == num_blocks);
    let mut blocks: Vec<Vec<u8>> = Vec::with_capacity(num_blocks);
    let mut k: usize = 0;
    while k < num_blocks
        invariant
            slices@.len() == num_blocks,
            k <= num_blocks,
            blocks@.len() == k,
            forall|j: int| 0 <= j < k ==> (#[trigger] blocks@[j])@ == slices@[j]@,
        decreases num_blocks - k,
    {
        blocks.push(vstd::slice::slice_to_vec(slices[k]));
        k = k + 1;
    }
    assert(owned_block_views(blocks@) =~= block_views(slices@));
    Ok(blocks)
}

} // verus!
