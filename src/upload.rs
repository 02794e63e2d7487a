//! The upload side: a share's descriptor, then its plaintext cut into
//! blocks and sealed in order by the STREAM construction.
use crate::crypto::{aead_len_ok, block_nonce, stream_seal, xchacha20poly1305_seal, KEY_LEN, STREAM_PREFIX_LEN, TAG_LEN};
use crate::descriptor::MetadataCreationReq;
use crate::error::ShareError;
use crate::keys::{derive_key, seal_filename, share_key, ShareSecrets};
use crate::layout::{lemma_shape, num_blocks, sealed_blocks, block_plain, block_len};
use vstd::prelude::*;
use vstd::slice::{slice_subrange, slice_to_vec};

verus! {

/// Most block positions a stream can seal before its last block.
pub const MAX_POSITION: u32 = 0xffff_ffff;

/// The ciphertext of full block `i` of `consumed`, sealed as not last.
pub open spec fn next_block_seal(key: Seq<u8>, prefix: Seq<u8>, bs: nat, consumed: Seq<u8>, i: int) -> Seq<u8> {
    xchacha20poly1305_seal(key, block_nonce(prefix, i, false), consumed.subrange(i * bs, (i + 1) * bs))
}

/// The views of a list of byte vectors.
pub open spec fn views(blocks: Seq<Vec<u8>>) -> Seq<Seq<u8>> {
    blocks.map_values(|b: Vec<u8>| b@)
}

/// Seals a share's plaintext, pulled in pieces of any length, into blocks of
/// `block_size` bytes. A full block is sealed only once more plaintext
/// follows it, so that the final block, sealed by `finish` with the
/// last-block flag, is never empty unless the whole file is.
pub struct Uploader {
    key: Vec<u8>,
    prefix: Vec<u8>,
    block_size: usize,
    position: u32,
    buffer: Vec<u8>,
    consumed: Ghost<Seq<u8>>,
    sealed: Ghost<Seq<Seq<u8>>>,
}

impl Uploader {
    /// The key the blocks are sealed under.
    pub closed spec fn key(&self) -> Seq<u8> {
        self.key@
    }

    /// The STREAM nonce prefix.
    pub closed spec fn prefix(&self) -> Seq<u8> {
        self.prefix@
    }

    /// Plaintext bytes per block.
    pub closed spec fn block_size(&self) -> nat {
        self.block_size as nat
    }

    /// All plaintext pushed so far.
    pub closed spec fn consumed(&self) -> Seq<u8> {
        self.consumed@
    }

    /// The blocks handed out so far, in order.
    pub closed spec fn sealed(&self) -> Seq<Seq<u8>> {
        self.sealed@
    }

    /// The uploader's invariant: the buffer holds what follows the full
    /// blocks sealed so far, and each of those is the seal of its slice.
    pub closed spec fn wf(&self) -> bool {
        let bs = self.block_size as nat;
        let p = self.position as int;
        &&& self.key@.len() == KEY_LEN
        &&& self.prefix@.len() == STREAM_PREFIX_LEN
        &&& bs >= 1
        &&& aead_len_ok(bs)
        &&& self.buffer@.len() <= bs
        &&& self.consumed@.len() == p * bs + self.buffer@.len()
        &&& p > 0 ==> self.buffer@.len() > 0
        &&& self.buffer@ == self.consumed@.subrange(p * bs, self.consumed@.len() as int)
        &&& self.sealed@.len() == p
        &&& forall|i: int| 0 <= i < p ==> #[trigger] self.sealed@[i] == next_block_seal(
            self.key@,
            self.prefix@,
            bs,
            self.consumed@,
            i,
        )
        &&& forall|i: int| 0 <= i < p ==> (#[trigger] self.sealed@[i]).len() == bs + TAG_LEN
    }

    /// Number of blocks handed out so far; the next block's 1-based sequence
    /// number is one more.
    pub fn blocks_sealed(&self) -> (n: u32)
        requires
            self.wf(),
        ensures
            n == self.sealed().len(),
    {
        self.position
    }

    /// Starts a share: derives its key from the passphrase and the salt,
    /// seals the filename and builds the descriptor to send to the relay.
    pub fn new(passphrase: &[u8], filename: &[u8], secrets: &ShareSecrets, size: usize, block_size: usize) -> (r: Result<(Uploader, MetadataCreationReq), ShareError>)
        requires
            secrets.wf(),
        ensures
            r is Err <==> block_size == 0 || !aead_len_ok(block_size as nat) || !aead_len_ok(filename@.len()),
            r is Err ==> r->Err_0 == (if block_size == 0 || !aead_len_ok(block_size as nat) {
                ShareError::InvalidBlockSize
            } else {
                ShareError::MessageTooLong
            }),
            r matches Ok((u, req)) ==> {
                &&& u.wf()
                &&& u.key() == share_key(passphrase@, secrets.salt@)
                &&& u.prefix() == secrets.stream_nonce@
                &&& u.block_size() == block_size
                &&& u.consumed() == Seq::<u8>::empty()
                &&& u.sealed() == Seq::<Seq<u8>>::empty()
                &&& req.salt@ == secrets.salt@
                &&& req.nonce@ == secrets.stream_nonce@
                &&& req.filename_nonce@ == secrets.filename_nonce@
                &&& req.filename@ == xchacha20poly1305_seal(u.key(), secrets.filename_nonce@, filename@)
                &&& req.filename@.len() == filename@.len() + TAG_LEN
                &&& req.size == size
                &&& req.block_size == block_size
            },
    {
        if block_size == 0 || block_size / 64 >= 0xffff_ffff {
            return Err(ShareError::InvalidBlockSize);
        }
        let key = derive_key(passphrase, secrets.salt.as_slice());
        let sealed_name = match seal_filename(key.as_slice(), secrets.filename_nonce.as_slice(), filename) {
            Ok(c) => c,
            Err(e) => return Err(e),
        };
        let req = MetadataCreationReq {
            salt: slice_to_vec(secrets.salt.as_slice()),
            nonce: slice_to_vec(secrets.stream_nonce.as_slice()),
            filename_nonce: slice_to_vec(secrets.filename_nonce.as_slice()),
            filename: sealed_name,
            size,
            block_size,
        };
        let u = Uploader {
            key,
            prefix: slice_to_vec(secrets.stream_nonce.as_slice()),
            block_size,
            position: 0,
            buffer: Vec::new(),
            consumed: Ghost(Seq::empty()),
            sealed: Ghost(Seq::empty()),
        };
        proof {
            assert(0 * (block_size as int) == 0);
            assert(u.buffer@ =~= u.consumed@.subrange(0, 0));
            assert(u.key@.len() == KEY_LEN);
            assert(u.prefix@.len() == STREAM_PREFIX_LEN);
        }
        Ok((u, req))
    }

    /// Takes the next piece of plaintext and returns the blocks it completes,
    /// sealed in order. Fails with `StreamExhausted` when the plaintext so far
    /// needs more blocks than the 32-bit counter can number.
    pub fn push(&mut self, data: &[u8]) -> (r: Result<Vec<Vec<u8>>, ShareError>)
        requires
            old(self).wf(),
        ensures
            r is Err <==> num_blocks((old(self).consumed().len() + data@.len()) as nat, old(self).block_size()) > MAX_POSITION as nat + 1,
            r is Err ==> r->Err_0 == ShareError::StreamExhausted,
            r is Ok ==> {
                &&& final(self).wf()
                &&& final(self).key() == old(self).key()
                &&& final(self).prefix() == old(self).prefix()
                &&& final(self).block_size() == old(self).block_size()
                &&& final(self).consumed() == old(self).consumed() + data@
                &&& final(self).sealed() == old(self).sealed() + views(r->Ok_0@)
                &&& forall|j: int| 0 <= j < r->Ok_0@.len()
                    ==> (#[trigger] r->Ok_0@[j])@.len() == old(self).block_size() + TAG_LEN
                &&& final(self).sealed().len() == num_blocks(final(self).consumed().len(), final(self).block_size()) - 1
                &&& forall|i: int| 0 <= i < final(self).sealed().len() ==> #[trigger] final(self).sealed()[i]
                    == next_block_seal(final(self).key(), final(self).prefix(), final(self).block_size(), final(self).consumed(), i)
            },
    {
        let ghost bs = self.block_size as nat;
        let mut out: Vec<Vec<u8>> = Vec::new();
        let mut i: usize = 0;
        proof {
            assert(views(out@) =~= Seq::<Seq<u8>>::empty());
            assert(old(self).sealed@ + views(out@) =~= old(self).sealed@);
            assert(data@.subrange(0, 0) =~= Seq::<u8>::empty());
            assert(old(self).consumed@ + data@.subrange(0, 0) =~= old(self).consumed@);
        }
        while i < data.len()
            invariant
                self.wf(),
                self.key@ == old(self).key@,
                self.prefix@ == old(self).prefix@,
                self.block_size == old(self).block_size,
                bs == self.block_size as nat,
                i <= data@.len(),
                self.consumed@ == old(self).consumed@ + data@.subrange(0, i as int),
                self.sealed@ == old(self).sealed@ + views(out@),
            decreases data.len() - i,
        {
            if self.buffer.len() == self.block_size {
                if self.position == MAX_POSITION {
                    proof {
                        let total = (old(self).consumed@.len() + data@.len()) as nat;
                        assert(self.consumed@.len() == (MAX_POSITION as nat + 1) * bs) by (nonlinear_arith)
                            requires self.consumed@.len() == (MAX_POSITION as nat) * bs + self.buffer@.len(),
                                self.buffer@.len() == bs;
                        lemma_too_many_blocks(total, bs, self.consumed@.len() as nat);
                    }
                    return Err(ShareError::StreamExhausted);
                }
                let block = match stream_seal(self.key.as_slice(), self.prefix.as_slice(), self.position, false, self.buffer.as_slice()) {
                    Ok(b) => b,
                    Err(_) => return Err(ShareError::MessageTooLong),
                };
                let ghost p = self.position as int;
                proof {
                    assert(self.buffer@ == self.consumed@.subrange(p * bs, (p + 1) * bs)) by {
                        assert((p + 1) * bs == p * bs + bs) by (nonlinear_arith);
                    }
                    self.sealed@ = self.sealed@.push(block@);
                }
                out.push(block);
                self.buffer.clear();
                self.position = self.position + 1;
                proof {
                    assert((p + 1) * bs == p * bs + bs) by (nonlinear_arith);
                    assert(self.buffer@ =~= self.consumed@.subrange((p + 1) * bs, self.consumed@.len() as int));
                    assert(views(out@) =~= views(out@.drop_last()).push(block@));
                    assert(self.sealed@ =~= old(self).sealed@ + views(out@));
                }
            }
            let room = self.block_size - self.buffer.len();
            let rest = data.len() - i;
            let take = if room < rest { room } else { rest };
            let mut piece = slice_to_vec(slice_subrange(data, i, i + take));
            self.buffer.append(&mut piece);
            proof {
                let p = self.position as int;
                let prev = self.consumed@;
                self.consumed@ = self.consumed@ + data@.subrange(i as int, (i + take) as int);
                assert(data@.subrange(0, i as int) + data@.subrange(i as int, (i + take) as int) =~= data@.subrange(0, (i + take) as int));
                assert(self.consumed@ =~= old(self).consumed@ + data@.subrange(0, (i + take) as int));
                assert(self.buffer@ =~= self.consumed@.subrange(p * bs, self.consumed@.len() as int));
                assert forall|j: int| 0 <= j < p implies #[trigger] self.sealed@[j] == next_block_seal(
                    self.key@, self.prefix@, bs, self.consumed@, j) by {
                    lemma_full_block_stable(self.key@, self.prefix@, bs, prev, data@.subrange(i as int, (i + take) as int), j, p);
                }
            }
            i = i + take;
        }
        proof {
            assert(data@.subrange(0, data@.len() as int) =~= data@);
            let total = self.consumed@.len() as nat;
            lemma_shape(total, bs, self.position as nat, self.buffer@.len() as nat);
            assert forall|j: int| 0 <= j < out@.len() implies (#[trigger] out@[j])@.len() == bs + TAG_LEN by {
                assert(self.sealed@[old(self).sealed@.len() + j] == views(out@)[j]);
            }
        }
        Ok(out)
    }

    /// Seals what is left as the last block. Together with the blocks handed
    /// out before, it gives exactly the blocks of the share of all the
    /// plaintext pushed.
    pub fn finish(self) -> (block: Vec<u8>)
        requires
            self.wf(),
        ensures
            self.sealed().push(block@) == sealed_blocks(self.key(), self.prefix(), self.block_size(), self.consumed()),
            block@.len() == block_len(self.consumed().len(), self.block_size(), self.sealed().len() as int) + TAG_LEN,
    {
        let ghost bs = self.block_size as nat;
        let ghost pt = self.consumed@;
        let ghost p = self.position as int;
        let block = match stream_seal(self.key.as_slice(), self.prefix.as_slice(), self.position, true, self.buffer.as_slice()) {
            Ok(b) => b,
            Err(_) => Vec::new(),
        };
        proof {
            lemma_shape(pt.len(), bs, p as nat, self.buffer@.len() as nat);
            let all = sealed_blocks(self.key@, self.prefix@, bs, pt);
            assert forall|j: int| 0 <= j < p implies #[trigger] all[j] == self.sealed@[j] by {
                assert((j + 1) * bs == j * bs + bs) by (nonlinear_arith);
                assert(block_plain(pt, pt.len(), bs, j) =~= pt.subrange(j * bs, (j + 1) * bs));
            }
            assert(block_plain(pt, pt.len(), bs, p) =~= self.buffer@);
            assert(self.sealed@.push(block@) =~= all);
        }
        block
    }
}

/// Plaintext beyond `(j + 1) * bs` leaves the seal of full block `j` as it is.
proof fn lemma_full_block_stable(key: Seq<u8>, prefix: Seq<u8>, bs: nat, consumed: Seq<u8>, more: Seq<u8>, j: int, p: int)
    requires
        0 <= j < p,
        p * bs <= consumed.len(),
    ensures
        next_block_seal(key, prefix, bs, consumed + more, j) == next_block_seal(key, prefix, bs, consumed, j),
{
    assert((j + 1) * bs <= p * bs) by (nonlinear_arith)
        requires j + 1 <= p;
    assert(0 <= j * bs) by (nonlinear_arith)
        requires 0 <= j;
    assert(j * bs <= (j + 1) * bs) by (nonlinear_arith);
    assert((consumed + more).subrange(j * bs, (j + 1) * bs) =~= consumed.subrange(j * bs, (j + 1) * bs));
}

/// With `2^32` full blocks already and more plaintext to come, the share
/// needs more than `2^32` blocks.
proof fn lemma_too_many_blocks(total: nat, bs: nat, consumed: nat)
    requires
        bs >= 1,
        consumed == (MAX_POSITION as nat + 1) * bs,
        consumed < total,
    ensures
        num_blocks(total, bs) > MAX_POSITION as nat + 1,
{
    let n = num_blocks(total, bs);
    crate::layout::lemma_last_block(total, bs);
    if n <= MAX_POSITION as nat + 1 {
        let last = block_len(total, bs, n - 1);
        assert((n - 1) * bs + last <= (MAX_POSITION as nat) * bs + bs) by (nonlinear_arith)
            requires n <= MAX_POSITION as nat + 1, last <= bs, n >= 1;
        assert((MAX_POSITION as nat) * bs + bs == (MAX_POSITION as nat + 1) * bs) by (nonlinear_arith);
    }
}

} // verus!

verus! {

/// Uploads a plaintext held whole in memory: the descriptor to send, and
/// the blocks to send after it, in order (the first is sequence number 1).
pub fn seal_share(passphrase: &[u8], filename: &[u8], secrets: &ShareSecrets, plaintext: &[u8], block_size: usize) -> (r: Result<(MetadataCreationReq, Vec<Vec<u8>>), ShareError>)
    requires
        secrets.wf(),
    ensures
        r is Err <==> block_size == 0 || !aead_len_ok(block_size as nat) || !aead_len_ok(filename@.len())
            || num_blocks(plaintext@.len(), block_size as nat) > MAX_POSITION as nat + 1,
        r is Err ==> r->Err_0 == ShareError::InvalidBlockSize || r->Err_0 == ShareError::MessageTooLong
            || r->Err_0 == ShareError::StreamExhausted,
        r matches Ok((req, blocks)) ==> {
            let key = share_key(passphrase@, secrets.salt@);
            &&& req.salt@ == secrets.salt@
            &&& req.nonce@ == secrets.stream_nonce@
            &&& req.filename_nonce@ == secrets.filename_nonce@
            &&& req.filename@ == xchacha20poly1305_seal(key, secrets.filename_nonce@, filename@)
            &&& req.filename@.len() == filename@.len() + TAG_LEN
            &&& req.size == plaintext@.len()
            &&& req.block_size == block_size
            &&& views(blocks@) == sealed_blocks(key, secrets.stream_nonce@, block_size as nat, plaintext@)
            &&& forall|i: int| 0 <= i < blocks@.len()
                ==> (#[trigger] blocks@[i])@.len() == block_len(plaintext@.len(), block_size as nat, i) + TAG_LEN
        },
{
    let (mut u, req) = match Uploader::new(passphrase, filename, secrets, plaintext.len(), block_size) {
        Ok(started) => started,
        Err(e) => return Err(e),
    };
    let mut blocks = match u.push(plaintext) {
        Ok(b) => b,
        Err(e) => return Err(e),
    };
    proof {
        assert(Seq::<u8>::empty() + plaintext@ =~= plaintext@);
        assert(Seq::<Seq<u8>>::empty() + views(blocks@) =~= views(blocks@));
    }
    let ghost u_final = u;
    let last = u.finish();
    let ghost before = blocks@;
    blocks.push(last);
    proof {
        assert(views(blocks@) =~= views(before).push(last@));
        let bs = block_size as nat;
        lemma_shape(plaintext@.len(), bs, u_final.position as nat, u_final.buffer@.len() as nat);
        assert forall|i: int| 0 <= i < blocks@.len()
            implies (#[trigger] blocks@[i])@.len() == block_len(plaintext@.len(), bs, i) + TAG_LEN by {
            if i < before.len() {
                assert(views(before)[i] == u_final.sealed@[i]);
            }
        }
    }
    Ok((req, blocks))
}

} // verus!
