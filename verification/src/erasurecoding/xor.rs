//! Four-way splitting of text, with the byte-level operations of the erasure coder.
//!
//! A text is padded with NUL characters to a multiple of four bytes and cut into
//! blocks of a quarter of its byte length. Parity and reconstruction work on the
//! bytes of those blocks, as they do for any other blocks.

pub use crate::erasure_coding::xor::{calculate_ec_block, pad_block, reconstruct_block};

use crate::erasure_coding::xor::{ceil_div, lemma_ceil_div, ErasureError};
use vstd::prelude::*;
use vstd::string::{StrSliceExecFns, StringExecFns, StringSliceAdditionalSpecFns};

verus! {

/// The number of blocks that a text is cut into.
pub const TEXT_BLOCKS: usize = 4;

/// How many NUL characters bring a text of `byte_len` bytes to a multiple of four.
pub open spec fn text_padding(byte_len: nat) -> nat {
    ((4 - byte_len % 4) % 4) as nat
}

/// Consecutive pieces of `size` characters each; the last holds what is left.
pub open spec fn text_chunks(chars: Seq<char>, size: nat) -> Seq<Seq<char>> {
    Seq::new(
        ceil_div(chars.len(), size),
        |k: int|
            chars.subrange(
                k * size,
                if (k + 1) * size <= chars.len() {
                    (k + 1) * size
                } else {
                    chars.len() as int
                },
            ),
    )
}

/// What [`split_into_blocks`] returns for a text of `byte_len` bytes: its
/// characters in pieces of a quarter of the byte length, or `InvalidSize` for a
/// text under four bytes, whose blocks would be empty.
pub open spec fn text_split_spec(chars: Seq<char>, byte_len: nat) -> Result<
    Seq<Seq<char>>,
    ErasureError,
> {
    if byte_len < 4 {
        Err(ErasureError::InvalidSize)
    } else {
        Ok(text_chunks(chars, byte_len / 4))
    }
}

/// The texts behind a sequence of strings, each as a sequence of characters.
pub open spec fn text_views(blocks: Seq<String>) -> Seq<Seq<char>> {
    Seq::new(blocks.len(), |k: int| blocks[k]@)
}

/// Returns `input` followed by as many NUL characters as bring its byte length
/// to a multiple of four.
pub fn pad_string(input: &str) -> (padded: String)
    ensures
        padded@ == input@ + Seq::new(
            text_padding(input.spec_bytes().len()),
            |i: int| '\0',
        ),
{
    let byte_len: usize = input.as_bytes().len();
    let padding_needed: usize = (TEXT_BLOCKS - byte_len % TEXT_BLOCKS) % TEXT_BLOCKS;
    let mut padded: String = String::from_str(input);
    assert(padded@ =~= input@ + Seq::new(0, |i: int| '\0'));
    let mut added: usize = 0;
    while added < padding_needed
        invariant
            added <= padding_needed,
            padded@ == input@ + Seq::new(added as nat, |i: int| '\0'),
        decreases padding_needed - added,
    {
        proof {
            reveal_strlit("\0");
        }
        padded.append("\0");
        added = added + 1;
        assert(padded@ =~= input@ + Seq::new(added as nat, |i: int| '\0'));
    }
    padded
}

/// Cuts a text into blocks of a quarter of its byte length, in order.
///
/// A text whose byte length is a multiple of four, and which holds one-byte
/// characters only, gives four blocks of equal length. Any other text is cut
/// into pieces of the same size for as long as characters are left, the last
/// piece holding the rest. A text under four bytes is rejected.
pub fn split_into_blocks(input: &str) -> (out: Result<Vec<String>, ErasureError>)
    ensures
        match out {
            Ok(blocks) => text_split_spec(input@, input.spec_bytes().len()) == Ok::<
                Seq<Seq<char>>,
                ErasureError,
            >(text_views(blocks@)),
            Err(e) => text_split_spec(input@, input.spec_bytes().len()) == Err::<
                Seq<Seq<char>>,
                ErasureError,
            >(e),
        },
{
    let block_size: usize = input.as_bytes().len() / TEXT_BLOCKS;
    if block_size == 0 {
        return Err(ErasureError::InvalidSize);
    }
    let total: usize = input.unicode_len();
    proof {
        lemma_ceil_div(total as nat, block_size as nat);
        vstd::arithmetic::div_mod::lemma_fundamental_div_mod(total as int, block_size as int);
        assert(total % block_size != 0 ==> total / block_size < total) by (nonlinear_arith)
            requires
                block_size > 0,
                total == block_size * (total / block_size) + total % block_size,
        ;
    }
    let count: usize = if total % block_size == 0 {
        total / block_size
    } else {
        total / block_size + 1
    };
    let mut blocks: Vec<String> = Vec::new();
    let mut start: usize = 0;
    let mut k: usize = 0;
    while k < count
        invariant
            total == input@.len(),
            block_size > 0,
            count == ceil_div(total as nat, block_size as nat),
            total <= count * block_size < total + block_size,
            k <= count,
            start == if k * block_size <= total {
                k * block_size
            } else {
                total as int
            },
            blocks@.len() == k,
            forall|j: int|
                0 <= j < k ==> (#[trigger] blocks@[j])@ == text_chunks(
                    input@,
                    block_size as nat,
                )[j],
        decreases count - k,
    {
        assert((k + 1) * block_size == k * block_size + block_size) by (nonlinear_arith);
        assert(k * block_size < total) by (nonlinear_arith)
            requires
                k < count,
                block_size > 0,
                count * block_size < total + block_size,
        ;
        let end: usize = if total - start < block_size {
            total
        } else {
            start + block_size
        };
        let piece: &str = input.substring_char(start, end);
        blocks.push(String::from_str(piece));
        start = end;
        k = k + 1;
    }
    assert(text_views(blocks@) =~= text_chunks(input@, block_size as nat));
    Ok(blocks)
}

/// The padding of a text is under four characters, and as many as bring a count
/// of `byte_len` to a multiple of four.
pub proof fn lemma_text_padding(byte_len: nat)
    ensures
        text_padding(byte_len) < 4,
        (byte_len + text_padding(byte_len)) % 4 == 0,
        byte_len % 4 == 0 ==> text_padding(byte_len) == 0,
{
}

/// A text of one-byte characters whose length is a multiple of four, and not
/// zero, is cut into exactly four blocks of a quarter of its length each, which
/// together are the text.
pub proof fn lemma_even_text_gives_four_blocks(chars: Seq<char>)
    requires
        chars.len() >= 4,
        chars.len() % 4 == 0,
    ensures
        text_split_spec(chars, chars.len()) matches Ok(blocks) && {
            &&& blocks.len() == 4
            &&& forall|k: int| 0 <= k < 4 ==> (#[trigger] blocks[k]).len() == chars.len() / 4
            &&& blocks.flatten() == chars
        },
{
    let size = chars.len() / 4;
    let q = size as int;
    let blocks = text_chunks(chars, size);
    lemma_ceil_div(chars.len(), size);
    assert(chars.len() == 4 * size);
    vstd::arithmetic::div_mod::lemma_fundamental_div_mod_converse(
        chars.len() as int,
        size as int,
        4,
        0,
    );
    assert(blocks.len() == 4);
    assert(blocks[0] == chars.subrange(0, q));
    assert(blocks[1] == chars.subrange(q, 2 * q));
    assert(blocks[2] == chars.subrange(2 * q, 3 * q));
    assert(blocks[3] == chars.subrange(3 * q, 4 * q));
    assert forall|k: int| 0 <= k < 4 implies (#[trigger] blocks[k]).len() == size by {
        if k == 0 {
        } else if k == 1 {
        } else if k == 2 {
        } else {
            assert(k == 3);
        }
    }
    assert(blocks =~= seq![blocks[0], blocks[1], blocks[2], blocks[3]]);
    assert(blocks.flatten() =~= chars) by {
        reveal_with_fuel(Seq::flatten, 5);
        let b = seq![blocks[0], blocks[1], blocks[2], blocks[3]];
        assert(b.drop_first() =~= seq![blocks[1], blocks[2], blocks[3]]);
        assert(b.drop_first().drop_first() =~= seq![blocks[2], blocks[3]]);
        assert(b.drop_first().drop_first().drop_first() =~= seq![blocks[3]]);
        assert(b.drop_first().drop_first().drop_first().drop_first() =~= Seq::<
            Seq<char>,
        >::empty());
    }
}

} // verus!
