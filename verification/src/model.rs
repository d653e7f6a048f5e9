//! The mathematical model of the MD2 transform.
//!
//! Every operation of the hash core is specified against the functions
//! here: they state, over `Seq<u8>`, what one compression step does to
//! the 48-byte working buffer and to the 16-byte running checksum, how
//! a message is padded, and what digest a whole message hashes to.

use vstd::prelude::*;

verus! {

/// The substitution table, read as a sequence.
pub open spec fn s_at(i: int) -> u8
    recommends
        0 <= i < 256,
{
    crate::table::S@[i]
}

/// A sequence of `n` zero bytes: the initial value of both the working
/// buffer (n = 48) and the checksum (n = 16).
pub open spec fn zeros(n: nat) -> Seq<u8> {
    Seq::new(n, |i: int| 0u8)
}

/// The working buffer after the final partial block has been copied in:
/// bytes 0..16 keep the old buffer, bytes 16..32 hold the input block,
/// bytes 32..48 hold their XOR.
pub open spec fn mixed(x: Seq<u8>, block: Seq<u8>) -> Seq<u8>
    recommends
        x.len() == 48,
        block.len() == 16,
{
    Seq::new(
        48,
        |i: int|
            if i < 16 {
                x[i]
            } else if i < 32 {
                block[i - 16]
            } else {
                (block[i - 32] ^ x[i - 32])
            },
    )
}

/// One pass of a diffusion round over positions `k..48` of the working
/// buffer, with running byte `t`: each position is XORed with `S[t]`
/// and `t` becomes the byte just written. Returns the new buffer and
/// the final `t`.
pub open spec fn round_pass(x: Seq<u8>, t: u8, k: int) -> (Seq<u8>, u8)
    recommends
        x.len() == 48,
        0 <= k <= 48,
    decreases 48 - k,
{
    if k < 0 || k >= 48 {
        (x, t)
    } else {
        let v = (x[k] ^ s_at(t as int));
        round_pass(x.update(k, v), v, k + 1)
    }
}

/// Diffusion rounds `j..18` over the working buffer: each round is one
/// pass over all 48 positions, after which the running byte is bumped
/// by the round index modulo 256.
pub open spec fn rounds_from(x: Seq<u8>, t: u8, j: int) -> Seq<u8>
    recommends
        x.len() == 48,
        0 <= j <= 18,
    decreases 18 - j,
{
    if j < 0 || j >= 18 {
        x
    } else {
        let (x2, t2) = round_pass(x, t, 0);
        rounds_from(x2, t2.wrapping_add(j as u8), j + 1)
    }
}

/// The working buffer after one whole compression step on `block`:
/// the block is mixed in, then 18 diffusion rounds run with the
/// running byte starting at 0.
pub open spec fn compressed_x(x: Seq<u8>, block: Seq<u8>) -> Seq<u8>
    recommends
        x.len() == 48,
        block.len() == 16,
{
    rounds_from(mixed(x, block), 0, 0)
}

/// The checksum update over positions `j..16`, with running byte `l`:
/// each checksum byte is XORed with `S[block[j] XOR l]` and `l`
/// becomes the byte just written.
pub open spec fn checksum_pass(c: Seq<u8>, block: Seq<u8>, l: u8, j: int) -> Seq<u8>
    recommends
        c.len() == 16,
        block.len() == 16,
        0 <= j <= 16,
    decreases 16 - j,
{
    if j < 0 || j >= 16 {
        c
    } else {
        let v = (c[j] ^ s_at((block[j] ^ l) as int));
        checksum_pass(c.update(j, v), block, v, j + 1)
    }
}

/// The running checksum after one whole compression step on `block`:
/// the raw input block is folded in, the running byte starting at the
/// last checksum byte.
pub open spec fn compressed_checksum(c: Seq<u8>, block: Seq<u8>) -> Seq<u8>
    recommends
        c.len() == 16,
        block.len() == 16,
{
    checksum_pass(c, block, c[15], 0)
}

/// Both halves of the state after compressing `data`, one 16-byte
/// block at a time, front to back. `data` is a whole number of blocks.
pub open spec fn process_blocks(x: Seq<u8>, c: Seq<u8>, data: Seq<u8>) -> (Seq<u8>, Seq<u8>)
    recommends
        x.len() == 48,
        c.len() == 16,
        data.len() % 16 == 0,
    decreases data.len(),
{
    if data.len() < 16 {
        (x, c)
    } else {
        let x2 = compressed_x(x, data.take(16));
        let c2 = compressed_checksum(c, data.take(16));
        process_blocks(x2, c2, data.skip(16))
    }
}

/// The padding block built from the final `rest.len() < 16` leftover
/// bytes: `rem = 16 - rest.len()` copies of the byte `rem` complete the
/// block. With no leftover input it is 16 copies of the byte 16.
pub open spec fn pad_block(rest: Seq<u8>) -> Seq<u8>
    recommends
        rest.len() < 16,
{
    let rem = 16 - rest.len() as int;
    rest + Seq::new(rem as nat, |i: int| rem as u8)
}

/// The whole message followed by its padding: always a whole number of
/// 16-byte blocks.
pub open spec fn padded_message(msg: Seq<u8>) -> Seq<u8> {
    msg.take(msg.len() - (msg.len() % 16)) + pad_block(msg.skip(msg.len() - (msg.len() % 16)))
}

/// The digest produced by finalization from a state `(x, c)` and the
/// final `rest.len() < 16` leftover bytes: the padding block is
/// compressed, then the checksum itself is compressed as one more
/// block, and the first 16 bytes of the working buffer come out.
pub open spec fn finalized_digest(x: Seq<u8>, c: Seq<u8>, rest: Seq<u8>) -> Seq<u8>
    recommends
        x.len() == 48,
        c.len() == 16,
        rest.len() < 16,
{
    let x1 = compressed_x(x, pad_block(rest));
    let c1 = compressed_checksum(c, pad_block(rest));
    compressed_x(x1, c1).take(16)
}

/// The MD2 digest of a whole message: all blocks of the padded message
/// are compressed starting from the zeroed state, the final checksum is
/// compressed as one more block, and the first 16 bytes of the working
/// buffer come out.
pub open spec fn md2_digest(msg: Seq<u8>) -> Seq<u8> {
    let (x1, c1) = process_blocks(zeros(48), zeros(16), padded_message(msg));
    compressed_x(x1, c1).take(16)
}

/// A diffusion pass never changes the length of the working buffer.
pub proof fn lemma_round_pass_len(x: Seq<u8>, t: u8, k: int)
    requires
        x.len() == 48,
    ensures
        round_pass(x, t, k).0.len() == 48,
    decreases 48 - k,
{
    if 0 <= k < 48 {
        let v = (x[k] ^ s_at(t as int));
        assert(round_pass(x, t, k) == round_pass(x.update(k, v), v, k + 1));
        lemma_round_pass_len(x.update(k, v), v, k + 1);
    }
}

/// The diffusion rounds never change the length of the working buffer.
pub proof fn lemma_rounds_from_len(x: Seq<u8>, t: u8, j: int)
    requires
        x.len() == 48,
    ensures
        rounds_from(x, t, j).len() == 48,
    decreases 18 - j,
{
    if 0 <= j < 18 {
        let (x2, t2) = round_pass(x, t, 0);
        lemma_round_pass_len(x, t, 0);
        lemma_rounds_from_len(x2, t2.wrapping_add(j as u8), j + 1);
    }
}

/// A compression step always yields a 48-byte working buffer.
pub proof fn lemma_compressed_x_len(x: Seq<u8>, block: Seq<u8>)
    ensures
        compressed_x(x, block).len() == 48,
{
    lemma_rounds_from_len(mixed(x, block), 0, 0);
}

/// Digest length invariant: the digest of every message is exactly 16
/// bytes.
pub proof fn lemma_md2_digest_len(msg: Seq<u8>)
    ensures
        md2_digest(msg).len() == 16,
{
    let (x1, c1) = process_blocks(zeros(48), zeros(16), padded_message(msg));
    lemma_compressed_x_len(x1, c1);
}

/// Determinism: the digest is a function of the message alone, so any
/// two digests produced for the same message — by any two instances —
/// are identical.
pub proof fn lemma_md2_deterministic(m: Seq<u8>, d1: Seq<u8>, d2: Seq<u8>)
    requires
        d1 == md2_digest(m),
        d2 == md2_digest(m),
    ensures
        d1 == d2,
{
}

/// Incremental equivalence, block level: compressing the blocks of
/// `a + b` is compressing the blocks of `a` and then, from the state
/// so reached, the blocks of `b`. Feeding a message in any sequence of
/// chunks therefore drives the state through the same values as
/// feeding it whole.
pub proof fn lemma_process_blocks_append(x: Seq<u8>, c: Seq<u8>, a: Seq<u8>, b: Seq<u8>)
    requires
        a.len() % 16 == 0,
    ensures
        process_blocks(x, c, a + b) == ({
            let (x2, c2) = process_blocks(x, c, a);
            process_blocks(x2, c2, b)
        }),
    decreases a.len(),
{
    if a.len() < 16 {
        assert(a + b =~= b);
    } else {
        let block = a.take(16);
        assert((a + b).take(16) =~= block);
        assert((a + b).skip(16) =~= a.skip(16) + b);
        lemma_process_blocks_append(
            compressed_x(x, block),
            compressed_checksum(c, block),
            a.skip(16),
            b,
        );
    }
}

/// The digest of a message, computed in one sweep over the padded
/// message, equals what finalization produces from the state reached
/// by compressing the full blocks and from the leftover tail.
pub proof fn lemma_md2_digest_split(msg: Seq<u8>)
    ensures
        ({
            let cut = msg.len() - (msg.len() % 16);
            let (x1, c1) = process_blocks(zeros(48), zeros(16), msg.take(cut as int));
            md2_digest(msg) == finalized_digest(x1, c1, msg.skip(cut as int))
        }),
{
    let cut = msg.len() - (msg.len() % 16);
    let full = msg.take(cut as int);
    let tail = msg.skip(cut as int);
    let pad = pad_block(tail);
    assert(full.len() % 16 == 0);
    assert(pad.len() == 16);
    lemma_process_blocks_append(zeros(48), zeros(16), full, pad);
    let (x1, c1) = process_blocks(zeros(48), zeros(16), full);
    assert(pad.take(16) =~= pad);
    assert(pad.skip(16) =~= Seq::<u8>::empty());
    let x2 = compressed_x(x1, pad);
    let c2 = compressed_checksum(c1, pad);
    assert(process_blocks(x1, c1, pad) == process_blocks(x2, c2, pad.skip(16)));
    assert(process_blocks(x2, c2, Seq::<u8>::empty()) == (x2, c2));
}

/// Serialization round-trip: splitting the 64-byte snapshot of a state
/// back apart recovers the working buffer and the checksum exactly, so
/// a restored core continues from the very state that was saved and
/// produces the same digest the original would have.
pub proof fn lemma_snapshot_round_trip(x: Seq<u8>, c: Seq<u8>)
    requires
        x.len() == 48,
        c.len() == 16,
    ensures
        (x + c).len() == 64,
        (x + c).take(48) == x,
        (x + c).skip(48) == c,
{
    assert((x + c).take(48) =~= x);
    assert((x + c).skip(48) =~= c);
}

} // verus!
