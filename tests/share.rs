use aead::stream::EncryptorBE32;
use chacha20poly1305::aead::generic_array::GenericArray;
use chacha20poly1305::{KeyInit, XChaCha20Poly1305};
use nanum::descriptor::{Metadata, MetadataCreationReq};
use nanum::download::{open_share, Downloader};
use nanum::error::ShareError;
use nanum::keys::ShareSecrets;
use nanum::layout::block_count;
use nanum::upload::{seal_share, Uploader};

const MIB: usize = 1024 * 1024;

fn fixed_secrets() -> ShareSecrets {
    ShareSecrets {
        salt: (0u8..32).collect(),
        stream_nonce: (100u8..119).collect(),
        filename_nonce: (200u8..224).collect(),
    }
}

fn stamp(req: MetadataCreationReq) -> Metadata {
    req.into_metadata("owner@example.com".to_string())
}

fn upload(passphrase: &str, filename: &str, plaintext: &[u8], block_size: usize) -> (Metadata, Vec<Vec<u8>>) {
    let secrets = ShareSecrets::generate().expect("entropy");
    let (req, blocks) =
        seal_share(passphrase.as_bytes(), filename.as_bytes(), &secrets, plaintext, block_size).expect("sealed");
    (stamp(req), blocks)
}

#[test]
fn empty_file_round_trip() {
    let (meta, blocks) = upload("hunter2", "empty.txt", b"", 1048576);
    assert_eq!(meta.size, 0);
    assert_eq!(meta.block_size, 1048576);
    assert_eq!(blocks.len(), 1);
    assert_eq!(blocks[0].len(), 16);
    let (name, pt) = open_share(&meta, b"hunter2", &blocks).expect("opened");
    assert_eq!(name, b"empty.txt".to_vec());
    assert_eq!(pt, Vec::<u8>::new());
}

#[test]
fn single_block_round_trip() {
    let plaintext = vec![0x41u8; 100];
    let (meta, blocks) = upload("hunter2", "a.bin", &plaintext, 1048576);
    assert_eq!(blocks.len(), 1);
    assert_eq!(blocks[0].len(), 116);
    let (name, pt) = open_share(&meta, b"hunter2", &blocks).expect("opened");
    assert_eq!(name, b"a.bin".to_vec());
    assert_eq!(pt, plaintext);
}

#[test]
fn exact_boundary_round_trip() {
    let plaintext = vec![0u8; 2 * MIB];
    let (meta, blocks) = upload("correct horse battery staple", "boundary", &plaintext, 1048576);
    assert_eq!(blocks.len(), 2);
    assert_eq!(blocks[0].len(), 1048592);
    assert_eq!(blocks[1].len(), 1048592);
    let (name, pt) = open_share(&meta, b"correct horse battery staple", &blocks).expect("opened");
    assert_eq!(name, b"boundary".to_vec());
    assert_eq!(pt, plaintext);
}

#[test]
fn straddling_block_round_trip() {
    let plaintext = vec![0xFFu8; MIB + 1];
    let (meta, blocks) = upload("hunter2", "straddle", &plaintext, 1048576);
    assert_eq!(blocks.len(), 2);
    assert_eq!(blocks[0].len(), 1048592);
    assert_eq!(blocks[1].len(), 17);
    let (_, pt) = open_share(&meta, b"hunter2", &blocks).expect("opened");
    assert_eq!(pt, plaintext);
}

#[test]
fn wrong_passphrase_fetches_no_block() {
    let plaintext = vec![0x41u8; 100];
    let (meta, blocks) = upload("hunter2", "a.bin", &plaintext, 1048576);
    assert_eq!(open_share(&meta, b"hunter3", &blocks), Err(ShareError::WrongPassphrase));
    let mut fetched: Vec<usize> = Vec::new();
    match Downloader::new(&meta, b"hunter3") {
        Ok((mut d, _)) => {
            while let Some(seq) = d.next_block() {
                fetched.push(seq);
                d.accept_block(&blocks[seq - 1]).expect("block");
            }
            panic!("the filename opened under the wrong passphrase");
        }
        Err(e) => assert_eq!(e, ShareError::WrongPassphrase),
    }
    assert!(fetched.is_empty());
}

#[test]
fn bit_flip_is_detected_at_block_one() {
    let plaintext = vec![0u8; 2 * MIB];
    let (meta, mut blocks) = upload("correct horse battery staple", "boundary", &plaintext, 1048576);
    blocks[0][12345] ^= 0x08;
    assert_eq!(
        open_share(&meta, b"correct horse battery staple", &blocks),
        Err(ShareError::CiphertextCorrupted)
    );
    let (mut d, _) = Downloader::new(&meta, b"correct horse battery staple").expect("filename");
    assert_eq!(d.next_block(), Some(1));
    assert_eq!(d.accept_block(&blocks[0]), Err(ShareError::CiphertextCorrupted));
    assert_eq!(d.next_block(), Some(1));
    assert_eq!(d.finish(), Err(ShareError::SizeMismatch));
}

#[test]
fn flipped_tag_bit_in_last_block_is_detected() {
    let plaintext: Vec<u8> = (0..5000u32).map(|i| (i % 251) as u8).collect();
    let (meta, mut blocks) = upload("pw", "f", &plaintext, 1024);
    let last = blocks.len() - 1;
    let end = blocks[last].len() - 1;
    blocks[last][end] ^= 0x01;
    assert_eq!(open_share(&meta, b"pw", &blocks), Err(ShareError::CiphertextCorrupted));
}

#[test]
fn swapped_blocks_are_detected() {
    let plaintext: Vec<u8> = (0..4096u32).map(|i| (i % 7) as u8).collect();
    let (meta, mut blocks) = upload("pw", "f", &plaintext, 1024);
    assert_eq!(blocks.len(), 4);
    blocks.swap(0, 1);
    assert_eq!(open_share(&meta, b"pw", &blocks), Err(ShareError::CiphertextCorrupted));
}

#[test]
fn deleted_block_is_detected() {
    let plaintext: Vec<u8> = (0..4096u32).map(|i| (i % 13) as u8).collect();
    let (meta, mut blocks) = upload("pw", "f", &plaintext, 1024);
    blocks.remove(1);
    assert_eq!(open_share(&meta, b"pw", &blocks), Err(ShareError::CiphertextCorrupted));
}

#[test]
fn duplicated_block_is_detected() {
    let plaintext: Vec<u8> = (0..4096u32).map(|i| (i % 11) as u8).collect();
    let (meta, mut blocks) = upload("pw", "f", &plaintext, 1024);
    let first = blocks[0].clone();
    blocks[1] = first;
    assert_eq!(open_share(&meta, b"pw", &blocks), Err(ShareError::CiphertextCorrupted));
}

#[test]
fn truncated_share_is_detected() {
    let plaintext: Vec<u8> = (0..4096u32).map(|i| (i % 5) as u8).collect();
    let (meta, mut blocks) = upload("pw", "f", &plaintext, 1024);
    blocks.pop();
    assert_eq!(open_share(&meta, b"pw", &blocks), Err(ShareError::CiphertextCorrupted));
}

#[test]
fn extra_block_posing_as_last_is_detected() {
    // Four full blocks were uploaded, the fourth sealed as "not last" because
    // a fifth followed; a descriptor that claims four blocks must not accept it.
    let plaintext: Vec<u8> = (0..4097u32).map(|i| (i % 3) as u8).collect();
    let (mut meta, mut blocks) = upload("pw", "f", &plaintext, 1024);
    assert_eq!(blocks.len(), 5);
    blocks.pop();
    meta.size = 4096;
    assert_eq!(open_share(&meta, b"pw", &blocks), Err(ShareError::CiphertextCorrupted));
}

#[test]
fn size_declared_wrongly_is_a_size_mismatch() {
    let plaintext = vec![7u8; 3000];
    let (mut meta, blocks) = upload("pw", "f", &plaintext, 1024);
    meta.size = 2999;
    assert_eq!(open_share(&meta, b"pw", &blocks), Err(ShareError::SizeMismatch));
}

#[test]
fn extra_blocks_beyond_the_last_are_not_read() {
    let plaintext = vec![9u8; 1500];
    let (meta, mut blocks) = upload("pw", "f", &plaintext, 1024);
    blocks.push(vec![1, 2, 3]);
    let (_, pt) = open_share(&meta, b"pw", &blocks).expect("opened");
    assert_eq!(pt, plaintext);
}

#[test]
fn malformed_descriptors_are_refused() {
    let (meta, blocks) = upload("pw", "f", b"hello", 4);
    let mut short_nonce = meta.clone();
    short_nonce.nonce.pop();
    assert_eq!(open_share(&short_nonce, b"pw", &blocks), Err(ShareError::MalformedMetadata));
    let mut short_filename_nonce = meta.clone();
    short_filename_nonce.filename_nonce.push(0);
    assert_eq!(open_share(&short_filename_nonce, b"pw", &blocks), Err(ShareError::MalformedMetadata));
    let mut zero_block = meta.clone();
    zero_block.block_size = 0;
    assert!(matches!(Downloader::new(&zero_block, b"pw"), Err(ShareError::MalformedMetadata)));
}

#[test]
fn zero_block_size_is_refused() {
    let secrets = fixed_secrets();
    assert_eq!(seal_share(b"pw", b"f", &secrets, b"abc", 0).err(), Some(ShareError::InvalidBlockSize));
    assert!(matches!(Uploader::new(b"pw", b"f", &secrets, 3, 0), Err(ShareError::InvalidBlockSize)));
}

#[test]
fn exact_multiples_give_full_last_blocks() {
    for k in 1..=4usize {
        let plaintext = vec![0x5Au8; k * 1000];
        let (meta, blocks) = upload("pw", "f", &plaintext, 1000);
        assert_eq!(blocks.len(), k);
        assert!(blocks.iter().all(|b| b.len() == 1016));
        assert_eq!(open_share(&meta, b"pw", &blocks).expect("opened").1, plaintext);
    }
}

#[test]
fn block_size_one_round_trip() {
    let plaintext = b"tiny blocks".to_vec();
    let (meta, blocks) = upload("pw", "tiny", &plaintext, 1);
    assert_eq!(blocks.len(), plaintext.len());
    assert!(blocks.iter().all(|b| b.len() == 17));
    assert_eq!(open_share(&meta, b"pw", &blocks).expect("opened").1, plaintext);
}

#[test]
fn streaming_upload_matches_whole_upload() {
    let secrets = fixed_secrets();
    let plaintext: Vec<u8> = (0..10_000u32).map(|i| (i * 31 % 256) as u8).collect();
    let (req, whole) = seal_share(b"pw", b"name", &secrets, &plaintext, 1024).expect("sealed");
    let (mut u, req2) = Uploader::new(b"pw", b"name", &secrets, plaintext.len(), 1024).expect("started");
    assert_eq!(req, req2);
    let mut streamed: Vec<Vec<u8>> = Vec::new();
    let mut at = 0usize;
    for piece in [1usize, 1023, 1, 3000, 0, 24, 5951].iter() {
        let out = u.push(&plaintext[at..at + piece]).expect("pushed");
        streamed.extend(out);
        at += piece;
        assert_eq!(u.blocks_sealed() as usize, streamed.len());
    }
    assert_eq!(at, plaintext.len());
    streamed.push(u.finish());
    assert_eq!(streamed, whole);
}

#[test]
fn streaming_download_matches_whole_download() {
    let plaintext: Vec<u8> = (0..3333u32).map(|i| (i % 256) as u8).collect();
    let (meta, blocks) = upload("pw", "doc.txt", &plaintext, 1000);
    let (mut d, name) = Downloader::new(&meta, b"pw").expect("filename");
    assert_eq!(name, b"doc.txt".to_vec());
    assert_eq!(d.block_total(), 4);
    let mut seqs = Vec::new();
    while let Some(seq) = d.next_block() {
        seqs.push(seq);
        d.accept_block(&blocks[seq - 1]).expect("block");
    }
    assert_eq!(seqs, vec![1, 2, 3, 4]);
    assert_eq!(d.accept_block(&blocks[3]), Err(ShareError::StreamExhausted));
    assert_eq!(d.finish().expect("complete"), plaintext);
}

#[test]
fn blocks_interoperate_with_the_aead_stream_encryptor() {
    let secrets = fixed_secrets();
    let plaintext: Vec<u8> = (0..2500u32).map(|i| (i % 199) as u8).collect();
    let (_, blocks) = seal_share(b"pw", b"f", &secrets, &plaintext, 1000).expect("sealed");
    let key = nanum::keys::derive_key(b"pw", &secrets.salt);
    let cipher = XChaCha20Poly1305::new(GenericArray::from_slice(&key));
    let mut enc = EncryptorBE32::from_aead(cipher, GenericArray::from_slice(&secrets.stream_nonce));
    assert_eq!(enc.encrypt_next(&plaintext[0..1000]).unwrap(), blocks[0]);
    assert_eq!(enc.encrypt_next(&plaintext[1000..2000]).unwrap(), blocks[1]);
    assert_eq!(enc.encrypt_last(&plaintext[2000..2500]).unwrap(), blocks[2]);
}

#[test]
fn descriptor_fields_follow_the_secrets() {
    let secrets = fixed_secrets();
    let (req, _) = seal_share(b"pw", b"report.pdf", &secrets, b"abc", 2).expect("sealed");
    assert_eq!(req.salt, secrets.salt);
    assert_eq!(req.nonce, secrets.stream_nonce);
    assert_eq!(req.filename_nonce, secrets.filename_nonce);
    assert_eq!(req.filename.len(), b"report.pdf".len() + 16);
    assert_ne!(&req.filename[..10], b"report.pdf");
    assert_eq!(req.size, 3);
    assert_eq!(req.block_size, 2);
    let meta = req.clone().into_metadata("me@example.com".to_string());
    assert_eq!(meta.creator_email, "me@example.com");
    assert_eq!(meta.salt, req.salt);
    assert_eq!(meta.nonce, req.nonce);
    assert_eq!(meta.filename_nonce, req.filename_nonce);
    assert_eq!(meta.filename, req.filename);
    assert_eq!(meta.size, 3);
    assert_eq!(meta.block_size, 2);
}

#[test]
fn block_counts() {
    assert_eq!(block_count(0, 1048576), 1);
    assert_eq!(block_count(1, 1), 1);
    assert_eq!(block_count(100, 1048576), 1);
    assert_eq!(block_count(2 * MIB, MIB), 2);
    assert_eq!(block_count(MIB + 1, MIB), 2);
    assert_eq!(block_count(10, 3), 4);
    assert_eq!(block_count(9, 3), 3);
    assert_eq!(block_count(usize::MAX, 2), usize::MAX / 2 + 1);
}
