//! The MD2 hash core and the block-buffering hasher on top of it.

use vstd::prelude::*;

use crate::model;

verus! {

/// A vector of `n` zero bytes.
fn zero_vec(n: usize) -> (v: Vec<u8>)
    ensures
        v@ == model::zeros(n as nat),
{
    let mut v: Vec<u8> = Vec::new();
    let mut i: usize = 0;
    while i < n
        invariant
            i <= n,
            v@ =~= model::zeros(i as nat),
        decreases n - i,
    {
        v.push(0u8);
        assert(v@ =~= model::zeros((i + 1) as nat));
        i = i + 1;
    }
    assert(v@ =~= model::zeros(n as nat));
    v
}

/// Core MD2 hasher state: the 48-byte working buffer and the 16-byte
/// running checksum.
#[derive(Clone, Debug)]
pub struct Md2Core {
    x: Vec<u8>,
    checksum: Vec<u8>,
}

impl Md2Core {
    /// The 48-byte working buffer, as a sequence.
    pub closed spec fn x_state(&self) -> Seq<u8> {
        self.x@
    }

    /// The 16-byte running checksum, as a sequence.
    pub closed spec fn checksum_state(&self) -> Seq<u8> {
        self.checksum@
    }

    /// Well-formedness: the two halves of the state have their fixed
    /// lengths.
    pub open spec fn wf(&self) -> bool {
        &&& self.x_state().len() == 48
        &&& self.checksum_state().len() == 16
    }

    /// A fresh core in the zeroed initial state.
    pub fn new() -> (r: Md2Core)
        ensures
            r.wf(),
            r.x_state() == model::zeros(48),
            r.checksum_state() == model::zeros(16),
    {
        Md2Core { x: zero_vec(48), checksum: zero_vec(16) }
    }

    /// The per-block transform: mixes `block` into the working buffer,
    /// runs the 18 diffusion rounds, and folds the raw block into the
    /// running checksum.
    pub fn compress(&mut self, block: &[u8])
        requires
            old(self).wf(),
            block@.len() == 16,
        ensures
            final(self).wf(),
            final(self).x_state() == model::compressed_x(old(self).x_state(), block@),
            final(self).checksum_state() == model::compressed_checksum(
                old(self).checksum_state(),
                block@,
            ),
    {
        let ghost x0 = self.x@;
        let ghost c0 = self.checksum@;

        // Copy the block into bytes 16..32 and its XOR with the first
        // 16 bytes into bytes 32..48.
        let mut j: usize = 0;
        while j < 16
            invariant
                j <= 16,
                self.x@.len() == 48,
                self.checksum@ == c0,
                block@.len() == 16,
                forall|i: int| 0 <= i < 16 ==> self.x@[i] == x0[i],
                forall|i: int| 0 <= i < j ==> self.x@[16 + i] == block@[i],
                forall|i: int| 0 <= i < j ==> self.x@[32 + i] == (block@[i] ^ x0[i]),
            decreases 16 - j,
        {
            let b = block[j];
            self.x[16 + j] = b;
            let v = b ^ self.x[j];
            self.x[32 + j] = v;
            j = j + 1;
        }
        assert(self.x@ =~= model::mixed(x0, block@));
        let ghost xm = self.x@;

        // 18 diffusion rounds with a running byte `t`.
        let mut t: u8 = 0;
        let mut j8: u8 = 0;
        while j8 < 18
            invariant
                j8 <= 18,
                self.x@.len() == 48,
                self.checksum@ == c0,
                model::rounds_from(self.x@, t, j8 as int) == model::rounds_from(xm, 0, 0),
            decreases 18 - j8,
        {
            let ghost xr = self.x@;
            let ghost tr = t;
            let mut k: usize = 0;
            while k < 48
                invariant
                    k <= 48,
                    self.x@.len() == 48,
                    self.checksum@ == c0,
                    model::round_pass(self.x@, t, k as int) == model::round_pass(xr, tr, 0),
                decreases 48 - k,
            {
                let v = self.x[k] ^ crate::table::S[t as usize];
                self.x[k] = v;
                t = v;
                k = k + 1;
            }
            assert((self.x@, t) == model::round_pass(xr, tr, 0));
            t = t.wrapping_add(j8);
            j8 = j8 + 1;
        }
        assert(self.x@ == model::rounds_from(xm, 0, 0));
        let ghost xf = self.x@;

        // Fold the raw block into the checksum with a running byte `l`
        // seeded from the last checksum byte.
        let mut l: u8 = self.checksum[15];
        let mut j: usize = 0;
        while j < 16
            invariant
                j <= 16,
                self.x@ == xf,
                xf.len() == 48,
                self.checksum@.len() == 16,
                block@.len() == 16,
                model::checksum_pass(self.checksum@, block@, l, j as int)
                    == model::checksum_pass(c0, block@, c0[15], 0),
            decreases 16 - j,
        {
            let v = self.checksum[j] ^ crate::table::S[(block[j] ^ l) as usize];
            self.checksum[j] = v;
            l = v;
            j = j + 1;
        }
        assert(self.checksum@ == model::checksum_pass(c0, block@, c0[15], 0));
    }

    /// Compresses every 16-byte block of `data`, front to back.
    /// `data` must be a whole number of blocks.
    pub fn update_blocks(&mut self, data: &[u8])
        requires
            old(self).wf(),
            data@.len() % 16 == 0,
        ensures
            final(self).wf(),
            (final(self).x_state(), final(self).checksum_state()) == model::process_blocks(
                old(self).x_state(),
                old(self).checksum_state(),
                data@,
            ),
    {
        let ghost x0 = self.x@;
        let ghost c0 = self.checksum@;
        let mut i: usize = 0;
        assert(data@.skip(0) =~= data@);
        while data.len() - i >= 16
            invariant
                i <= data@.len(),
                data@.len() % 16 == 0,
                i % 16 == 0,
                self.wf(),
                model::process_blocks(self.x_state(), self.checksum_state(), data@.skip(i as int))
                    == model::process_blocks(x0, c0, data@),
            decreases data@.len() - i,
        {
            let block = &data[i..i + 16];
            proof {
                assert(block@ =~= data@.skip(i as int).take(16));
                assert(data@.skip(i as int).skip(16) =~= data@.skip(i as int + 16));
            }
            self.compress(block);
            i = i + 16;
        }
        proof {
            assert(data@.len() == i);
            assert(data@.skip(i as int) =~= Seq::<u8>::empty());
        }
    }

    /// Finalization: pads the final `rest.len() < 16` leftover bytes
    /// into one block, compresses it, compresses the running checksum
    /// as one more block, and returns the first 16 bytes of the
    /// working buffer as the digest. The state left behind is terminal:
    /// call `reset` before reusing the core.
    pub fn finalize_fixed_core(&mut self, rest: &[u8]) -> (digest: Vec<u8>)
        requires
            old(self).wf(),
            rest@.len() < 16,
        ensures
            final(self).wf(),
            digest@ == model::finalized_digest(
                old(self).x_state(),
                old(self).checksum_state(),
                rest@,
            ),
            digest@.len() == 16,
    {
        let rem: u8 = (16 - rest.len()) as u8;
        let mut blk: Vec<u8> = Vec::new();
        let mut i: usize = 0;
        while i < rest.len()
            invariant
                i <= rest@.len() < 16,
                blk@ =~= rest@.take(i as int),
            decreases rest@.len() - i,
        {
            let b = rest[i];
            blk.push(b);
            i = i + 1;
        }
        while blk.len() < 16
            invariant
                rest@.len() < 16,
                rem == 16 - rest@.len(),
                rest@.len() <= blk@.len() <= 16,
                blk@ =~= rest@ + Seq::new((blk@.len() - rest@.len()) as nat, |k: int| rem),
            decreases 16 - blk@.len(),
        {
            blk.push(rem);
        }
        assert(blk@ =~= model::pad_block(rest@));

        self.compress(blk.as_slice());

        let mut cks: Vec<u8> = Vec::new();
        let mut i: usize = 0;
        while i < 16
            invariant
                i <= 16,
                self.wf(),
                cks@ =~= self.checksum_state().take(i as int),
            decreases 16 - i,
        {
            let b = self.checksum[i];
            cks.push(b);
            i = i + 1;
        }
        assert(cks@ =~= self.checksum_state());

        self.compress(cks.as_slice());

        let mut digest: Vec<u8> = Vec::new();
        let mut i: usize = 0;
        while i < 16
            invariant
                i <= 16,
                self.wf(),
                digest@ =~= self.x_state().take(i as int),
            decreases 16 - i,
        {
            let b = self.x[i];
            digest.push(b);
            i = i + 1;
        }
        assert(digest@ =~= self.x_state().take(16));
        digest
    }

    /// Returns the core to the zeroed initial state, from any state.
    pub fn reset(&mut self)
        ensures
            final(self).wf(),
            final(self).x_state() == model::zeros(48),
            final(self).checksum_state() == model::zeros(16),
    {
        self.x = zero_vec(48);
        self.checksum = zero_vec(16);
    }

    /// The fixed 64-byte snapshot of the state: the 48 bytes of the
    /// working buffer followed by the 16 bytes of the checksum.
    pub fn serialize(&self) -> (snapshot: Vec<u8>)
        requires
            self.wf(),
        ensures
            snapshot@ == self.x_state() + self.checksum_state(),
            snapshot@.len() == 64,
    {
        let mut out: Vec<u8> = Vec::new();
        let mut i: usize = 0;
        while i < 48
            invariant
                i <= 48,
                self.wf(),
                out@ =~= self.x_state().take(i as int),
            decreases 48 - i,
        {
            let b = self.x[i];
            out.push(b);
            i = i + 1;
        }
        let mut i: usize = 0;
        while i < 16
            invariant
                i <= 16,
                self.wf(),
                out@ =~= self.x_state() + self.checksum_state().take(i as int),
            decreases 16 - i,
        {
            let b = self.checksum[i];
            out.push(b);
            i = i + 1;
        }
        assert(out@ =~= self.x_state() + self.checksum_state());
        out
    }

    /// Restores a core from a 64-byte snapshot: the first 48 bytes
    /// become the working buffer, the last 16 the checksum. Fails, with
    /// no other validation, exactly when the snapshot is not 64 bytes.
    pub fn deserialize(snapshot: &[u8]) -> (r: Result<Md2Core, DeserializeStateError>)
        ensures
            snapshot@.len() == 64 <==> r is Ok,
            r matches Ok(core) ==> {
                &&& core.wf()
                &&& core.x_state() == snapshot@.take(48)
                &&& core.checksum_state() == snapshot@.skip(48)
            },
    {
        if snapshot.len() != 64 {
            return Err(DeserializeStateError);
        }
        let mut x: Vec<u8> = Vec::new();
        let mut i: usize = 0;
        while i < 48
            invariant
                i <= 48,
                snapshot@.len() == 64,
                x@ =~= snapshot@.take(i as int),
            decreases 48 - i,
        {
            let b = snapshot[i];
            x.push(b);
            i = i + 1;
        }
        let mut checksum: Vec<u8> = Vec::new();
        let mut i: usize = 48;
        while i < 64
            invariant
                48 <= i <= 64,
                snapshot@.len() == 64,
                checksum@ =~= snapshot@.subrange(48, i as int),
            decreases 64 - i,
        {
            let b = snapshot[i];
            checksum.push(b);
            i = i + 1;
        }
        assert(x@ =~= snapshot@.take(48));
        assert(checksum@ =~= snapshot@.skip(48));
        Ok(Md2Core { x, checksum })
    }

    /// The algorithm's name identifier, used by callers that drive
    /// several hash algorithms uniformly; it has no behavioral effect.
    pub fn alg_name() -> (name: &'static str)
        ensures
            name@ == "Md2"@,
    {
        "Md2"
    }
}

impl Default for Md2Core {
    /// A fresh core in the zeroed initial state.
    fn default() -> (r: Md2Core)
        ensures
            r.wf(),
            r.x_state() == model::zeros(48),
            r.checksum_state() == model::zeros(16),
    {
        Md2Core::new()
    }
}

/// The error deserialization fails with when the supplied snapshot is
/// not exactly 64 bytes long.
#[derive(Clone, Copy, PartialEq, Eq, Structural, Debug)]
pub struct DeserializeStateError;

/// MD2 hasher: buffers arbitrary-length input into 16-byte blocks and
/// feeds full blocks to the core, so a message can be fed in chunks of
/// any sizes.
pub struct Md2 {
    core: Md2Core,
    buffer: Vec<u8>,
    message: Ghost<Seq<u8>>,
}

impl Md2 {
    /// All message bytes fed so far.
    pub closed spec fn bytes(&self) -> Seq<u8> {
        self.message@
    }

    /// Well-formedness: the buffer holds exactly the unprocessed tail
    /// of the message and the core has compressed all its full blocks.
    pub closed spec fn wf(&self) -> bool {
        let n = self.message@.len() as int;
        let cut = n - (n % 16);
        &&& self.core.wf()
        &&& self.buffer@.len() < 16
        &&& self.buffer@ == self.message@.skip(cut)
        &&& (self.core.x_state(), self.core.checksum_state()) == model::process_blocks(
            model::zeros(48),
            model::zeros(16),
            self.message@.take(cut),
        )
    }

    /// A fresh hasher with no bytes fed.
    pub fn new() -> (r: Md2)
        ensures
            r.wf(),
            r.bytes() == Seq::<u8>::empty(),
    {
        let r = Md2 { core: Md2Core::new(), buffer: Vec::new(), message: Ghost(Seq::empty()) };
        proof {
            assert(Seq::<u8>::empty().take(0) =~= Seq::<u8>::empty());
            assert(Seq::<u8>::empty().skip(0) =~= Seq::<u8>::empty());
        }
        r
    }

    /// Feeds more message bytes. Chunking has no effect on the result:
    /// only the concatenation of everything fed matters.
    pub fn update(&mut self, data: &[u8])
        requires
            old(self).wf(),
        ensures
            final(self).wf(),
            final(self).bytes() == old(self).bytes() + data@,
    {
        let ghost m0 = self.message@;
        let ghost mut done: int = m0.len() - (m0.len() % 16) as int;
        let mut i: usize = 0;
        proof {
            assert((m0 + data@.take(0)).take(done) =~= m0.take(done));
            assert((m0 + data@.take(0)).skip(done) =~= m0.skip(done));
        }
        while i < data.len()
            invariant
                i <= data@.len(),
                0 <= done,
                done % 16 == 0,
                self.core.wf(),
                self.buffer@.len() < 16,
                self.buffer@ == (m0 + data@.take(i as int)).skip(done),
                done + self.buffer@.len() == m0.len() + i,
                (self.core.x_state(), self.core.checksum_state()) == model::process_blocks(
                    model::zeros(48),
                    model::zeros(16),
                    (m0 + data@.take(i as int)).take(done),
                ),
            decreases data@.len() - i,
        {
            while self.buffer.len() < 16 && i < data.len()
                invariant
                    i <= data@.len(),
                    0 <= done,
                    done % 16 == 0,
                    self.core.wf(),
                    self.buffer@.len() <= 16,
                    self.buffer@ == (m0 + data@.take(i as int)).skip(done),
                    done + self.buffer@.len() == m0.len() + i,
                    (self.core.x_state(), self.core.checksum_state()) == model::process_blocks(
                        model::zeros(48),
                        model::zeros(16),
                        (m0 + data@.take(i as int)).take(done),
                    ),
                decreases data@.len() - i,
            {
                let b = data[i];
                self.buffer.push(b);
                proof {
                    let fed = m0 + data@.take(i as int);
                    let fed2 = m0 + data@.take(i + 1);
                    assert(fed2.take(done) =~= fed.take(done));
                    assert(fed2.skip(done) =~= fed.skip(done).push(data@[i as int]));
                }
                i = i + 1;
            }
            if self.buffer.len() == 16 {
                let ghost fed = m0 + data@.take(i as int);
                let ghost blk = self.buffer@;
                let ghost xb = self.core.x_state();
                let ghost cb = self.core.checksum_state();
                self.core.compress(self.buffer.as_slice());
                proof {
                    assert(fed.len() == done + 16);
                    assert(fed.take(done + 16) =~= fed.take(done) + blk);
                    assert(fed.take(done).len() % 16 == 0);
                    model::lemma_process_blocks_append(
                        model::zeros(48),
                        model::zeros(16),
                        fed.take(done),
                        blk,
                    );
                    assert(blk.take(16) =~= blk);
                    assert(blk.skip(16) =~= Seq::<u8>::empty());
                    let x2 = model::compressed_x(xb, blk);
                    let c2 = model::compressed_checksum(cb, blk);
                    assert(model::process_blocks(xb, cb, blk) == model::process_blocks(
                        x2,
                        c2,
                        blk.skip(16),
                    ));
                    assert(model::process_blocks(x2, c2, Seq::<u8>::empty()) == (x2, c2));
                    done = done + 16;
                    assert(fed.skip(done) =~= Seq::<u8>::empty());
                }
                self.buffer.clear();
            }
        }
        proof {
            assert(data@.take(data@.len() as int) =~= data@);
        }
        self.message = Ghost(m0 + data@);
        proof {
            let n = self.message@.len() as int;
            assert(n - done < 16);
            assert(n % 16 == n - done);
        }
    }

    /// Finalizes the hash and returns the 16-byte digest of everything
    /// fed so far. Consuming the hasher makes a second finalization
    /// impossible without constructing afresh.
    pub fn finalize(self) -> (digest: Vec<u8>)
        requires
            self.wf(),
        ensures
            digest@ == model::md2_digest(self.bytes()),
            digest@.len() == 16,
    {
        proof {
            model::lemma_md2_digest_split(self.message@);
        }
        let Md2 { core: mut c, buffer, message: _ } = self;
        c.finalize_fixed_core(buffer.as_slice())
    }

    /// Returns the hasher to the fresh initial state: hashing after a
    /// reset behaves exactly as hashing with a new instance.
    pub fn reset(&mut self)
        ensures
            final(self).wf(),
            final(self).bytes() == Seq::<u8>::empty(),
    {
        self.core.reset();
        self.buffer.clear();
        self.message = Ghost(Seq::empty());
        proof {
            assert(Seq::<u8>::empty().take(0) =~= Seq::<u8>::empty());
            assert(Seq::<u8>::empty().skip(0) =~= Seq::<u8>::empty());
        }
    }
}

/// Reset idempotence: a hasher that was reset and a freshly
/// constructed one agree on everything their contracts observe — both
/// are well-formed with no bytes fed — so feeding either a message
/// yields the same digest.
pub proof fn lemma_reset_like_new(after_reset: Md2, fresh: Md2, m: Seq<u8>)
    requires
        after_reset.wf(),
        fresh.wf(),
        after_reset.bytes() == Seq::<u8>::empty(),
        fresh.bytes() == Seq::<u8>::empty(),
    ensures
        model::md2_digest(after_reset.bytes() + m) == model::md2_digest(fresh.bytes() + m),
{
}

/// The MD2 digest of `data`, in one call.
pub fn md2(data: &[u8]) -> (digest: Vec<u8>)
    ensures
        digest@ == model::md2_digest(data@),
        digest@.len() == 16,
{
    let mut h = Md2::new();
    h.update(data);
    proof {
        assert(Seq::<u8>::empty() + data@ =~= data@);
    }
    h.finalize()
}

} // verus!
