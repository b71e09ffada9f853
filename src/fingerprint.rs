use vstd::prelude::*;
use vstd::string::*;
use vstd::std_specs::hash::DefaultHasherAdditionalSpecFns;
use vstd::utf8::encode_utf8;
use std::collections::hash_map::DefaultHasher;
use std::hash::Hasher;
use crate::diff::FileHash;
use crate::text::{decimal, hex, push_decimal, push_hex};

verus! {

/// Files larger than this, in bytes, are fingerprinted by their size alone.
pub const LARGE_FILE_THRESHOLD: u64 = 10485760;

/// Length of the head and of the tail that are read from a file.
pub const CHUNK_LEN: u64 = 4096;

/// Files larger than this, in bytes, have their tail read as well as their head.
pub const TAIL_THRESHOLD: u64 = 8192;

/// Which bytes of a file its fingerprint reads.
pub enum ReadPlan {
    /// No content: the size alone.
    SizeOnly,
    /// The first `len` bytes.
    Head { len: u64 },
    /// The first `head_len` bytes, and `tail_len` bytes from offset `tail_offset`.
    HeadAndTail { head_len: u64, tail_offset: u64, tail_len: u64 },
}

/// The plan for a regular file of `size` bytes.
pub open spec fn plan_for(size: u64) -> ReadPlan {
    if size > LARGE_FILE_THRESHOLD {
        ReadPlan::SizeOnly
    } else if size <= TAIL_THRESHOLD {
        ReadPlan::Head { len: if size < CHUNK_LEN { size } else { CHUNK_LEN } }
    } else {
        ReadPlan::HeadAndTail {
            head_len: CHUNK_LEN,
            tail_offset: (size - CHUNK_LEN) as u64,
            tail_len: CHUNK_LEN,
        }
    }
}

/// How many content bytes a plan reads.
pub open spec fn planned_bytes(p: ReadPlan) -> nat {
    match p {
        ReadPlan::SizeOnly => 0,
        ReadPlan::Head { len } => len as nat,
        ReadPlan::HeadAndTail { head_len, tail_len, .. } => (head_len + tail_len) as nat,
    }
}

/// Decides which bytes of a regular file of `size` bytes are read to fingerprint it.
/// A file of at most 8192 bytes is read at most once and never past its end; a file over
/// the large-file threshold is not read at all; no file has more than two chunks read.
pub fn read_plan(size: u64) -> (r: ReadPlan)
    ensures
        r == plan_for(size),
        planned_bytes(r) <= size,
        planned_bytes(r) <= 2 * CHUNK_LEN,
        size <= TAIL_THRESHOLD ==> r matches ReadPlan::Head { .. },
        size > LARGE_FILE_THRESHOLD ==> planned_bytes(r) == 0,
{
    if size > LARGE_FILE_THRESHOLD {
        ReadPlan::SizeOnly
    } else if size <= TAIL_THRESHOLD {
        ReadPlan::Head { len: if size < CHUNK_LEN { size } else { CHUNK_LEN } }
    } else {
        ReadPlan::HeadAndTail { head_len: CHUNK_LEN, tail_offset: size - CHUNK_LEN, tail_len: CHUNK_LEN }
    }
}

/// The digest given to directories.
pub open spec fn directory_digest() -> Seq<char> {
    seq!['d', 'i', 'r', 'e', 'c', 't', 'o', 'r', 'y']
}

/// The digest of a regular file of `size` bytes whose sampled head and tail are given:
/// `size:<bytes>` above the large-file threshold, else the hexadecimal hash of the size's
/// decimal text, the head and the tail, written in that order.
pub open spec fn digest_of(size: u64, head: Seq<u8>, tail: Seq<u8>) -> Seq<char> {
    if size > LARGE_FILE_THRESHOLD {
        seq!['s', 'i', 'z', 'e', ':'] + decimal(size as nat)
    } else {
        hex(
            DefaultHasher::spec_finish(seq![encode_utf8(decimal(size as nat)), head, tail]) as nat,
        )
    }
}

/// Computes the digest of a regular file from its size and the bytes its read plan read
/// (`tail` is empty where the plan has no tail).
pub fn file_digest(size: u64, head: &[u8], tail: &[u8]) -> (r: String)
    ensures
        r@ == digest_of(size, head@, tail@),
{
    let mut out = String::new();
    if size > LARGE_FILE_THRESHOLD {
        proof {
            reveal_strlit("size:");
        }
        out.append("size:");
        push_decimal(&mut out, size);
        assert(out@ =~= seq!['s', 'i', 'z', 'e', ':'] + decimal(size as nat));
    } else {
        let mut size_text = String::new();
        push_decimal(&mut size_text, size);
        assert(size_text@ =~= decimal(size as nat));
        let mut hasher = DefaultHasher::new();
        hasher.write(size_text.as_str().as_bytes());
        hasher.write(head);
        hasher.write(tail);
        assert(hasher@ =~= seq![encode_utf8(decimal(size as nat)), head@, tail@]);
        let h = hasher.finish();
        push_hex(&mut out, h);
        assert(out@ =~= hex(h as nat));
    }
    out
}

/// The fingerprint of a regular file.
pub fn file_fingerprint(path: String, size: u64, head: &[u8], tail: &[u8]) -> (r: FileHash)
    ensures
        r.path@ == path@,
        r.hash@ == digest_of(size, head@, tail@),
        !r.is_dir,
        r.size == size,
{
    let hash = file_digest(size, head, tail);
    FileHash { path, hash, is_dir: false, size }
}

/// The fingerprint of a directory: a fixed digest and size 0.
pub fn directory_fingerprint(path: String) -> (r: FileHash)
    ensures
        r.path@ == path@,
        r.hash@ == directory_digest(),
        r.is_dir,
        r.size == 0,
{
    proof {
        reveal_strlit("directory");
    }
    let hash = String::from_str("directory");
    assert(hash@ =~= directory_digest());
    FileHash { path, hash, is_dir: true, size: 0 }
}

} // verus!
