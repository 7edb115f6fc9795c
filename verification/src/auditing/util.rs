//! Hashing a crate's sources, checking an audit against them, and limits on
//! audit files.
use vstd::prelude::*;

use crate::audit_file::AuditFile;

verus! {

/// The maximum size for an effect tree when creating a default caller-checked policy
pub const MAX_CALLER_CHECKED_TREE_SIZE: i32 = 10_000_000;

/// The maximum sum of sizes of effect trees when createing a default caller-checked policy
pub const MAX_AUDIT_FILE_SIZE: i32 = 20_000_000;

/// What SHA-256 gives for a sequence of bytes.
pub uninterp spec fn spec_sha256(data: Seq<u8>) -> Seq<u8>;

/// The bytes of a list of files, one after the other.
pub open spec fn concat_bytes(files: Seq<Vec<u8>>) -> Seq<u8> {
    files.map_values(|f: Vec<u8>| f@).flatten()
}

/// Calls `sha2::Sha256::digest`: the result is the name `spec_sha256` applied to
/// the bytes. Nothing more about the name is stated.
#[verifier::external_body]
fn sha256_digest(data: &Vec<u8>) -> (r: [u8; 32])
    ensures
        r@ == spec_sha256(data@),
{
    <sha2::Sha256 as sha2::Digest>::digest(data.as_slice()).into()
}

/// The hash of a crate's source files: SHA-256 over the contents of its files,
/// in the order given (the order in which the directory walk sorted by file name
/// visits them). Hashing the files one after the other in a single hasher, as
/// the walk does, gives the hash of their concatenation.
pub fn hash_dir_contents(files: &Vec<Vec<u8>>) -> (r: [u8; 32])
    ensures
        r@ == spec_sha256(concat_bytes(files@)),
{
    let mut all: Vec<u8> = Vec::new();
    let mut i: usize = 0;
    let ghost fv = files@.map_values(|f: Vec<u8>| f@);
    proof {
        assert(fv.take(0).flatten() =~= Seq::<u8>::empty());
    }
    while i < files.len()
        invariant
            i <= files.len(),
            fv == files@.map_values(|f: Vec<u8>| f@),
            all@ == fv.take(i as int).flatten(),
        decreases files.len() - i,
    {
        let f = &files[i];
        let mut j: usize = 0;
        let ghost before = all@;
        while j < f.len()
            invariant
                j <= f.len(),
                all@ == before + f@.take(j as int),
            decreases f.len() - j,
        {
            all.push(f[j]);
            assert(all@ =~= before + f@.take(j + 1));
            j = j + 1;
        }
        proof {
            assert(f@.take(f.len() as int) =~= f@);
            assert(fv.take(i + 1) =~= fv.take(i as int).push(f@));
            fv.take(i as int).lemma_flatten_push(f@);
        }
        i = i + 1;
    }
    assert(fv.take(files.len() as int) =~= fv);
    sha256_digest(&all)
}

/// Whether the audit was made from the same sources: whether the hash of the
/// crate's files, given in walk order, is the one the audit recorded.
pub fn is_audit_scan_valid(audit_file: &AuditFile, files: &Vec<Vec<u8>>) -> (r: bool)
    ensures
        r == (audit_file.hash@ == spec_sha256(concat_bytes(files@))),
{
    let hash = hash_dir_contents(files);
    let mut i: usize = 0;
    while i < 32
        invariant
            i <= 32,
            hash@ == spec_sha256(concat_bytes(files@)),
            forall|k: int| 0 <= k < i ==> audit_file.hash@[k] == hash@[k],
        decreases 32 - i,
    {
        if audit_file.hash[i] != hash[i] {
            return false;
        }
        i = i + 1;
    }
    assert(audit_file.hash@ =~= hash@);
    true
}

} // verus!
