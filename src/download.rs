//! The download side: the descriptor checked, the filename opened, then the
//! blocks opened in order by the STREAM construction and joined.
use crate::crypto::{aead_len_ok, block_nonce, xchacha20poly1305_seal, stream_open, KEY_LEN, NONCE_LEN, STREAM_PREFIX_LEN};
use crate::descriptor::Metadata;
use crate::error::ShareError;
use crate::keys::{derive_key, open_filename, opens_to, share_key};
use crate::layout::{
    block_count, block_len, block_plain, block_seal, lemma_block_bounds, lemma_blocks_rejoin, lemma_last_block,
    num_blocks, sealed_blocks,
};
use crate::upload::{views, MAX_POSITION};
use vstd::prelude::*;

verus! {

/// The descriptor can describe a share: nonces of the right lengths, a
/// positive block size, and no more blocks than the 32-bit counter numbers.
pub open spec fn descriptor_ok(meta: Metadata) -> bool {
    &&& meta.nonce@.len() == STREAM_PREFIX_LEN
    &&& meta.filename_nonce@.len() == NONCE_LEN
    &&& meta.block_size >= 1
    &&& num_blocks(meta.size as nat, meta.block_size as nat) <= MAX_POSITION as nat + 1
}

/// The STREAM nonce of block `i` of a share of `size` bytes.
pub open spec fn share_block_nonce(prefix: Seq<u8>, size: nat, bs: nat, i: int) -> Seq<u8> {
    block_nonce(prefix, i, i + 1 == num_blocks(size, bs))
}

/// Plaintext bytes received once `k` blocks of a share have been opened.
pub open spec fn received_len(size: nat, bs: nat, k: int) -> int {
    if k == num_blocks(size, bs) {
        size as int
    } else {
        k * bs
    }
}

/// `blocks` are exactly the blocks an upload of `pt`, under this key, nonce
/// prefix and block size, hands to the relay.
pub open spec fn honest_blocks(key: Seq<u8>, prefix: Seq<u8>, bs: nat, size: nat, blocks: Seq<Seq<u8>>, pt: Seq<u8>) -> bool {
    &&& pt.len() == size
    &&& aead_len_ok(bs)
    &&& blocks == sealed_blocks(key, prefix, bs, pt)
}

/// `blocks` are exactly the blocks an upload of `pt` under this descriptor
/// and passphrase hands to the relay.
pub open spec fn honest_share(meta: Metadata, passphrase: Seq<u8>, blocks: Seq<Vec<u8>>, pt: Seq<u8>) -> bool {
    honest_blocks(share_key(passphrase, meta.salt@), meta.nonce@, meta.block_size as nat, meta.size as nat, views(blocks), pt)
}

/// Opens the blocks of one share, fetched one at a time, in order.
pub struct Downloader {
    key: Vec<u8>,
    prefix: Vec<u8>,
    size: usize,
    block_size: usize,
    count: usize,
    position: usize,
    body: Vec<u8>,
    accepted: Ghost<Seq<Seq<u8>>>,
}

impl Downloader {
    /// The key derived from the passphrase and the descriptor's salt.
    pub closed spec fn key(&self) -> Seq<u8> {
        self.key@
    }

    /// The STREAM nonce prefix.
    pub closed spec fn prefix(&self) -> Seq<u8> {
        self.prefix@
    }

    /// Plaintext bytes the descriptor announces.
    pub closed spec fn size(&self) -> nat {
        self.size as nat
    }

    /// Plaintext bytes per block.
    pub closed spec fn block_size(&self) -> nat {
        self.block_size as nat
    }

    /// Blocks opened so far.
    pub closed spec fn position(&self) -> nat {
        self.position as nat
    }

    /// Plaintext of the blocks opened so far, joined.
    pub closed spec fn body(&self) -> Seq<u8> {
        self.body@
    }

    /// The ciphertext blocks accepted so far, in order.
    pub closed spec fn accepted(&self) -> Seq<Seq<u8>> {
        self.accepted@
    }

    /// Number of blocks of the share.
    pub open spec fn total(&self) -> nat {
        num_blocks(self.size(), self.block_size())
    }

    /// The STREAM nonce of the next block.
    pub open spec fn next_nonce(&self) -> Seq<u8> {
        share_block_nonce(self.prefix(), self.size(), self.block_size(), self.position() as int)
    }

    /// Plaintext bytes the next block must open to.
    pub open spec fn next_len(&self) -> nat {
        block_len(self.size(), self.block_size(), self.position() as int)
    }

    /// The downloader's invariant: the body holds the plaintext of the
    /// blocks opened so far, and each accepted block is the seal of its slice.
    pub closed spec fn wf(&self) -> bool {
        let bs = self.block_size as nat;
        let size = self.size as nat;
        &&& self.key@.len() == KEY_LEN
        &&& self.prefix@.len() == STREAM_PREFIX_LEN
        &&& bs >= 1
        &&& self.count == num_blocks(size, bs)
        &&& self.count <= MAX_POSITION as nat + 1
        &&& self.position <= self.count
        &&& self.body@.len() == received_len(size, bs, self.position as int)
        &&& self.accepted@.len() == self.position
        &&& forall|i: int| 0 <= i < self.position ==> #[trigger] self.accepted@[i] == block_seal(
            self.key@,
            self.prefix@,
            size,
            bs,
            i,
            block_plain(self.body@, size, bs, i),
        )
    }

    /// Checks the descriptor, derives the key and opens the filename, before
    /// any block is fetched. Returns the downloader and the filename's bytes.
    pub fn new(meta: &Metadata, passphrase: &[u8]) -> (r: Result<(Downloader, Vec<u8>), ShareError>)
        ensures
            !descriptor_ok(*meta) <==> r == Err::<(Downloader, Vec<u8>), ShareError>(ShareError::MalformedMetadata),
            descriptor_ok(*meta) ==> (r is Err <==> !exists|name: Seq<u8>|
                opens_to(share_key(passphrase@, meta.salt@), meta.filename_nonce@, meta.filename@, name)),
            r is Err ==> r->Err_0 == ShareError::MalformedMetadata || r->Err_0 == ShareError::WrongPassphrase,
            forall|name: Seq<u8>|
                descriptor_ok(*meta) && #[trigger] opens_to(share_key(passphrase@, meta.salt@), meta.filename_nonce@, meta.filename@, name)
                ==> r is Ok && r->Ok_0.1@ == name,
            r matches Ok((d, name)) ==> {
                &&& d.wf()
                &&& d.key() == share_key(passphrase@, meta.salt@)
                &&& d.prefix() == meta.nonce@
                &&& d.size() == meta.size
                &&& d.block_size() == meta.block_size
                &&& d.position() == 0
                &&& d.body() == Seq::<u8>::empty()
                &&& opens_to(d.key(), meta.filename_nonce@, meta.filename@, name@)
            },
    {
        if meta.nonce.len() != STREAM_PREFIX_LEN || meta.filename_nonce.len() != NONCE_LEN || meta.block_size == 0 {
            return Err(ShareError::MalformedMetadata);
        }
        let count = block_count(meta.size, meta.block_size);
        proof {
            lemma_last_block(meta.size as nat, meta.block_size as nat);
        }
        if count - 1 > MAX_POSITION as usize {
            return Err(ShareError::MalformedMetadata);
        }
        let key = derive_key(passphrase, meta.salt.as_slice());
        let name = match open_filename(key.as_slice(), meta.filename_nonce.as_slice(), meta.filename.as_slice()) {
            Ok(n) => n,
            Err(e) => return Err(e),
        };
        let d = Downloader {
            key,
            prefix: vstd::slice::slice_to_vec(meta.nonce.as_slice()),
            size: meta.size,
            block_size: meta.block_size,
            count,
            position: 0,
            body: Vec::new(),
            accepted: Ghost(Seq::empty()),
        };
        proof {
            assert(0 * (meta.block_size as int) == 0);
            lemma_last_block(meta.size as nat, meta.block_size as nat);
        }
        Ok((d, name))
    }

    /// Number of blocks of the share.
    pub fn block_total(&self) -> (n: usize)
        requires
            self.wf(),
        ensures
            n == num_blocks(self.size(), self.block_size()),
    {
        self.count
    }

    /// The 1-based sequence number of the block to fetch next, or `None` once
    /// the last block has been opened.
    pub fn next_block(&self) -> (r: Option<usize>)
        requires
            self.wf(),
        ensures
            self.position() < num_blocks(self.size(), self.block_size()) ==> r == Some((self.position() + 1) as usize),
            self.position() == num_blocks(self.size(), self.block_size()) ==> r is None,
    {
        if self.position < self.count {
            Some(self.position + 1)
        } else {
            None
        }
    }

    /// Opens the next block, as the last one when it is the share's final
    /// block, and appends its plaintext. A block that does not open is
    /// `CiphertextCorrupted`; one that opens to the wrong number of bytes is
    /// `SizeMismatch`; any block after the last is `StreamExhausted`. On an
    /// error nothing changes.
    pub fn accept_block(&mut self, ciphertext: &[u8]) -> (r: Result<(), ShareError>)
        requires
            old(self).wf(),
        ensures
            final(self).wf(),
            final(self).key() == old(self).key(),
            final(self).prefix() == old(self).prefix(),
            final(self).size() == old(self).size(),
            final(self).block_size() == old(self).block_size(),
            old(self).position() == old(self).total() ==> r == Err::<(), ShareError>(ShareError::StreamExhausted),
            old(self).position() < old(self).total() ==> forall|q: Seq<u8>|
                #[trigger] opens_to(old(self).key(), old(self).next_nonce(), ciphertext@, q) && q.len() == old(self).next_len()
                    ==> r is Ok && final(self).body() == old(self).body() + q,
            old(self).position() < old(self).total() && (forall|q: Seq<u8>|
                !#[trigger] opens_to(old(self).key(), old(self).next_nonce(), ciphertext@, q))
                ==> r == Err::<(), ShareError>(ShareError::CiphertextCorrupted),
            old(self).position() < old(self).total() && (exists|q: Seq<u8>|
                #[trigger] opens_to(old(self).key(), old(self).next_nonce(), ciphertext@, q) && q.len() != old(self).next_len())
                ==> r == Err::<(), ShareError>(ShareError::SizeMismatch),
            r is Ok ==> {
                &&& final(self).position() == old(self).position() + 1
                &&& final(self).accepted() == old(self).accepted().push(ciphertext@)
                &&& final(self).body().subrange(0, old(self).body().len() as int) == old(self).body()
                &&& final(self).body().len() == old(self).body().len() + old(self).next_len()
                &&& opens_to(old(self).key(), old(self).next_nonce(), ciphertext@,
                    final(self).body().subrange(old(self).body().len() as int, final(self).body().len() as int))
            },
            r is Err ==> *final(self) == *old(self),
            r is Err ==> r->Err_0 == ShareError::StreamExhausted || r->Err_0 == ShareError::CiphertextCorrupted
                || r->Err_0 == ShareError::SizeMismatch,
    {
        if self.position == self.count {
            return Err(ShareError::StreamExhausted);
        }
        let ghost bs = self.block_size as nat;
        let ghost size = self.size as nat;
        let ghost i = self.position as int;
        let ghost nonce = share_block_nonce(self.prefix@, size, bs, i);
        let last = self.position + 1 == self.count;
        let plain = match stream_open(self.key.as_slice(), self.prefix.as_slice(), self.position as u32, last, ciphertext) {
            Ok(p) => p,
            Err(_) => return Err(ShareError::CiphertextCorrupted),
        };
        proof {
            assert(block_nonce(self.prefix@, self.position as u32 as int, last) == nonce);
            assert(opens_to(self.key@, nonce, ciphertext@, plain@));
            assert(opens_to(old(self).key(), old(self).next_nonce(), ciphertext@, plain@));
            lemma_last_block(size, bs);
            lemma_block_bounds(size, bs, i);
        }
        let want = if last {
            self.size - (self.count - 1) * self.block_size
        } else {
            self.block_size
        };
        assert(want == block_len(size, bs, i));
        if plain.len() != want {
            proof {
                assert forall|q: Seq<u8>| #[trigger] opens_to(self.key@, nonce, ciphertext@, q) implies q.len() != want by {
                    assert(xchacha20poly1305_seal(self.key@, block_nonce(self.prefix@, self.position as u32 as int, last), q)
                        == ciphertext@);
                }
            }
            return Err(ShareError::SizeMismatch);
        }
        let ghost old_body = self.body@;
        let mut plain = plain;
        let ghost q = plain@;
        self.body.append(&mut plain);
        self.position = self.position + 1;
        proof {
            self.accepted@ = self.accepted@.push(ciphertext@);
            assert(old_body.len() == i * bs);
            assert(self.body@.subrange(0, old_body.len() as int) =~= old_body);
            assert(self.body@.subrange(old_body.len() as int, self.body@.len() as int) =~= q);
            assert(block_plain(self.body@, size, bs, i) =~= q);
            assert forall|j: int| 0 <= j < i implies block_plain(self.body@, size, bs, j) == block_plain(old_body, size, bs, j) by {
                lemma_block_bounds(size, bs, j);
                assert((j + 1) * bs <= i * bs) by (nonlinear_arith)
                    requires j + 1 <= i, bs >= 1;
                assert((j + 1) * bs == j * bs + bs) by (nonlinear_arith);
                assert(block_plain(self.body@, size, bs, j) =~= block_plain(old_body, size, bs, j));
            }
            assert forall|j: int| 0 <= j < self.position implies #[trigger] self.accepted@[j] == block_seal(
                self.key@, self.prefix@, size, bs, j, block_plain(self.body@, size, bs, j)) by {
                if j < i {
                    assert(block_plain(self.body@, size, bs, j) == block_plain(old_body, size, bs, j));
                }
            }
            if i + 1 < self.count {
                assert((i + 1) * bs == i * bs + bs) by (nonlinear_arith);
            }
        }
        Ok(())
    }

    /// The plaintext, once every block has been opened; `SizeMismatch` while
    /// blocks are missing. The accepted blocks are then exactly the blocks an
    /// upload of that plaintext produces.
    pub fn finish(self) -> (r: Result<Vec<u8>, ShareError>)
        requires
            self.wf(),
        ensures
            r is Ok <==> self.position() == num_blocks(self.size(), self.block_size()),
            r is Err ==> r->Err_0 == ShareError::SizeMismatch,
            r is Ok ==> r->Ok_0@ == self.body() && self.body().len() == self.size()
                && self.accepted() == sealed_blocks(self.key(), self.prefix(), self.block_size(), self.body()),
    {
        if self.position < self.count {
            return Err(ShareError::SizeMismatch);
        }
        proof {
            assert(self.accepted@ =~= sealed_blocks(self.key@, self.prefix@, self.block_size as nat, self.body@));
        }
        Ok(self.body)
    }
}

} // verus!

verus! {

/// `aead_len_ok` holds of every length up to one it holds of.
proof fn lemma_len_ok_below(m: nat, n: nat)
    requires
        m <= n,
        aead_len_ok(n),
    ensures
        aead_len_ok(m),
{
    vstd::arithmetic::div_mod::lemma_div_is_ordered(m as int, n as int, 64);
}

/// Downloads a share whose blocks are all at hand, in order: checks the
/// descriptor, opens the filename, then opens the blocks one by one. A block
/// the descriptor calls for that is missing is `CiphertextCorrupted`; blocks
/// beyond the last are never read. Returns the filename's bytes and the
/// plaintext.
pub fn open_share(meta: &Metadata, passphrase: &[u8], blocks: &Vec<Vec<u8>>) -> (r: Result<(Vec<u8>, Vec<u8>), ShareError>)
    ensures
        !descriptor_ok(*meta) <==> r == Err::<(Vec<u8>, Vec<u8>), ShareError>(ShareError::MalformedMetadata),
        descriptor_ok(*meta) ==> (r == Err::<(Vec<u8>, Vec<u8>), ShareError>(ShareError::WrongPassphrase) <==> !exists|name: Seq<u8>|
            opens_to(share_key(passphrase@, meta.salt@), meta.filename_nonce@, meta.filename@, name)),
        r is Err ==> r->Err_0 == ShareError::MalformedMetadata || r->Err_0 == ShareError::WrongPassphrase
            || r->Err_0 == ShareError::CiphertextCorrupted || r->Err_0 == ShareError::SizeMismatch,
        r matches Ok((name, pt)) ==> {
            let key = share_key(passphrase@, meta.salt@);
            &&& opens_to(key, meta.filename_nonce@, meta.filename@, name@)
            &&& pt@.len() == meta.size
            &&& blocks@.len() >= num_blocks(meta.size as nat, meta.block_size as nat)
            &&& views(blocks@).take(num_blocks(meta.size as nat, meta.block_size as nat) as int)
                == sealed_blocks(key, meta.nonce@, meta.block_size as nat, pt@)
        },
        forall|name: Seq<u8>|
            descriptor_ok(*meta) && #[trigger] opens_to(share_key(passphrase@, meta.salt@), meta.filename_nonce@, meta.filename@, name)
            ==> r is Err || r->Ok_0.0@ == name,
        forall|pt: Seq<u8>|
            descriptor_ok(*meta)
                && (exists|name: Seq<u8>| opens_to(share_key(passphrase@, meta.salt@), meta.filename_nonce@, meta.filename@, name))
                && #[trigger] honest_share(*meta, passphrase@, blocks@, pt)
            ==> r is Ok && r->Ok_0.1@ == pt,
{
    let (mut d, name) = match Downloader::new(meta, passphrase) {
        Ok(started) => started,
        Err(e) => return Err(e),
    };
    let ghost key = d.key();
    let ghost prefix = d.prefix();
    proof {
        assert(descriptor_ok(*meta));
        assert(opens_to(key, meta.filename_nonce@, meta.filename@, name@));
    }
    let ghost size = meta.size as nat;
    let ghost bs = meta.block_size as nat;
    let ghost all = views(blocks@);
    let n = d.block_total();
    let mut k: usize = 0;
    proof {
        assert(all.take(0) =~= Seq::<Seq<u8>>::empty());
        assert(d.accepted() =~= Seq::<Seq<u8>>::empty());
        assert forall|pt: Seq<u8>| #[trigger] honest_share(*meta, passphrase@, blocks@, pt)
            implies d.body() == pt.subrange(0, received_len(size, bs, 0)) by {
            lemma_last_block(size, bs);
            assert(0 * bs == 0) by (nonlinear_arith);
            assert(pt.subrange(0, 0) =~= Seq::<u8>::empty());
        }
    }
    while k < n
        invariant
            d.wf(),
            d.key() == key,
            d.prefix() == prefix,
            key == share_key(passphrase@, meta.salt@),
            prefix == meta.nonce@,
            bs == meta.block_size as nat,
            size == meta.size as nat,
            descriptor_ok(*meta),
            opens_to(key, meta.filename_nonce@, meta.filename@, name@),
            d.size() == size,
            d.block_size() == bs,
            bs >= 1,
            n == num_blocks(size, bs),
            d.position() == k,
            k <= n,
            all == views(blocks@),
            k <= all.len() ==> d.accepted() == all.take(k as int),
            k <= all.len(),
            forall|pt: Seq<u8>| #[trigger] honest_share(*meta, passphrase@, blocks@, pt)
                ==> d.body() == pt.subrange(0, received_len(size, bs, k as int)),
        decreases n - k,
    {
        if k >= blocks.len() {
            proof {
                assert forall|pt: Seq<u8>| !#[trigger] honest_share(*meta, passphrase@, blocks@, pt) by {
                    assert(all.len() == blocks@.len());
                    if honest_share(*meta, passphrase@, blocks@, pt) {
                        assert(honest_blocks(key, prefix, bs, size, all, pt));
                        assert(all.len() == n);
                    }
                }
            }
            return Err(ShareError::CiphertextCorrupted);
        }
        let ghost before = d;
        let ct = blocks[k].as_slice();
        proof {
            assert(all[k as int] == blocks@[k as int]@);
            assert(ct@ == all[k as int]);
        }
        match d.accept_block(ct) {
            Ok(()) => {},
            Err(e) => {
                proof {
                    assert forall|pt: Seq<u8>| !#[trigger] honest_share(*meta, passphrase@, blocks@, pt) by {
                        if honest_share(*meta, passphrase@, blocks@, pt) {
                            assert(honest_blocks(key, prefix, bs, size, all, pt));
                            lemma_round_trip_block(key, prefix, bs, size, all, pt, k as int);
                            assert(opens_to(before.key(), before.next_nonce(), ct@, block_plain(pt, size, bs, k as int)));
                        }
                    }
                }
                return Err(e);
            },
        }
        proof {
            assert(all.take(k + 1) =~= all.take(k as int).push(blocks@[k as int]@));
            assert forall|pt: Seq<u8>| #[trigger] honest_share(*meta, passphrase@, blocks@, pt)
                implies d.body() == pt.subrange(0, received_len(size, bs, k + 1)) by {
                lemma_round_trip_block(key, prefix, bs, size, all, pt, k as int);
                assert(opens_to(before.key(), before.next_nonce(), ct@, block_plain(pt, size, bs, k as int)));
            }
        }
        k = k + 1;
    }
    let ghost done = d;
    let pt = match d.finish() {
        Ok(p) => p,
        Err(e) => return Err(e),
    };
    proof {
        assert forall|pt2: Seq<u8>| #[trigger] honest_share(*meta, passphrase@, blocks@, pt2) implies pt@ == pt2 by {
            lemma_last_block(size, bs);
            assert(pt2.subrange(0, size as int) =~= pt2);
        }
    }
    Ok((name, pt))
}

/// Upload then download, block by block: block `k` of the blocks an upload
/// of `pt` produces opens, at its place in a stream of `pt.len()` bytes, to
/// its slice of `pt`, of exactly the length the downloader expects there;
/// and that slice, appended to the plaintext of the blocks before it, gives
/// the plaintext of the first `k + 1` blocks, which for the last block is
/// `pt` itself.
pub proof fn lemma_round_trip_block(key: Seq<u8>, prefix: Seq<u8>, bs: nat, size: nat, all: Seq<Seq<u8>>, pt: Seq<u8>, k: int)
    requires
        bs >= 1,
        0 <= k < num_blocks(size, bs),
        honest_blocks(key, prefix, bs, size, all, pt),
    ensures
        opens_to(key, share_block_nonce(prefix, size, bs, k), all[k], block_plain(pt, size, bs, k)),
        block_plain(pt, size, bs, k).len() == block_len(size, bs, k),
        pt.subrange(0, received_len(size, bs, k)) + block_plain(pt, size, bs, k)
            == pt.subrange(0, received_len(size, bs, k + 1)),
        k + 1 == num_blocks(size, bs) ==> pt.subrange(0, received_len(size, bs, k + 1)) == pt,
{
    lemma_blocks_rejoin(pt, bs);
    lemma_last_block(size, bs);
    lemma_block_bounds(size, bs, k);
    lemma_len_ok_below(block_len(size, bs, k), bs);
    if k + 1 < num_blocks(size, bs) {
        assert((k + 1) * bs == k * bs + bs) by (nonlinear_arith);
    } else {
        assert(pt.subrange(0, size as int) =~= pt);
    }
}

} // verus!
