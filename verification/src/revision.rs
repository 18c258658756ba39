//! Revisions of a Markdown file's contents, to notice changes made by others.
use vstd::prelude::*;
use crate::repository::MarkdownTaskRepository;
use vstd::string::StringSliceAdditionalSpecFns;

verus! {

/// Whether a file exists, its length in bytes, and an FNV-1a fingerprint of
/// its bytes.
#[derive(Debug, Clone, Copy, Default, PartialEq, Eq, Structural)]
pub struct FileRevision {
    pub exists: bool,
    pub length: u64,
    pub fingerprint: u64,
}

pub open spec fn fnv_offset() -> u64 {
    0xcbf29ce484222325u64
}

pub open spec fn fnv_prime() -> u64 {
    0x100000001b3u64
}

/// The 64-bit FNV-1a hash of `bytes`.
pub open spec fn fnv1a(bytes: Seq<u8>) -> u64
    decreases bytes.len(),
{
    if bytes.len() == 0 {
        fnv_offset()
    } else {
        (fnv1a(bytes.drop_last()) ^ (bytes.last() as u64)).wrapping_mul(fnv_prime())
    }
}

/// The revision of a text read from a file (`exists`), or of a missing file
/// read as empty.
pub fn revision_for_source(exists: bool, source: &str) -> (r: FileRevision)
    ensures
        r.exists == exists,
        r.length == source.spec_bytes().len(),
        r.fingerprint == fnv1a(source.spec_bytes()),
{
    let bytes = source.as_bytes();
    let mut fingerprint: u64 = 0xcbf29ce484222325;
    let mut i: usize = 0;
    while i < bytes.len()
        invariant
            i <= bytes@.len(),
            bytes@ == source.spec_bytes(),
            fingerprint == fnv1a(bytes@.take(i as int)),
        decreases bytes.len() - i,
    {
        proof {
            assert(bytes@.take(i + 1).drop_last() =~= bytes@.take(i as int));
        }
        fingerprint = (fingerprint ^ (bytes[i] as u64)).wrapping_mul(0x100000001b3);
        i += 1;
    }
    proof {
        assert(bytes@.take(i as int) =~= bytes@);
    }
    FileRevision { exists, length: source.len() as u64, fingerprint }
}

impl MarkdownTaskRepository {
    /// The revision of this repository's file given what reading it gave:
    /// its text, or `None` when it does not exist (an empty, missing file).
    pub fn revision(&self, contents: Option<&str>) -> (r: FileRevision)
        ensures
            match contents {
                Some(text) => r.exists && r.length == text.spec_bytes().len() && r.fingerprint == fnv1a(text.spec_bytes()),
                None => !r.exists && r.length == 0 && r.fingerprint == 0,
            },
    {
        match contents {
            Some(text) => revision_for_source(true, text),
            None => FileRevision { exists: false, length: 0, fingerprint: 0 },
        }
    }
}

} // verus!
