use crate::chars::{string_from_chars, to_hex_lower};
use vstd::prelude::*;
use vstd::string::{StringExecFns, StringSliceAdditionalSpecFns};

verus! {

/// Calls `blake3::hash` and hands back the 32 bytes of the digest. The digest is a function
/// of the input alone and takes pages to state, so it is named by `blake3_digest`.
#[verifier::external_body]
fn blake3_hash(data: &[u8]) -> (digest: Vec<u8>)
    ensures
        digest@ == blake3_digest(data@),
        digest@.len() == 32,
{
    blake3::hash(data).as_bytes().to_vec()
}

/// The BLAKE3 digest of `data`.
pub uninterp spec fn blake3_digest(data: Seq<u8>) -> Seq<u8>;

/// Why a record directory could not be used.
#[derive(Debug, Clone, PartialEq, Eq)]
pub enum RecordManagerError {
    /// The path does not name a directory.
    NotADirectory(String),
}

impl RecordManagerError {
    /// The message that reports the error.
    pub fn message(&self) -> (m: String)
        ensures
            match self {
                RecordManagerError::NotADirectory(p) => m@ == "`"@ + p@ + "` is not a directory"@,
            },
    {
        match self {
            RecordManagerError::NotADirectory(p) => String::from_str("`").concat(p.as_str()).concat("` is not a directory"),
        }
    }
}

/// Where the input records of the texts typed so far are kept: one file per text, named
/// after a hash of the text.
pub struct RecordManager<'dir> {
    directory: &'dir str,
}

/// The name of the record file of a text: the first ten lowercase hex digits of the BLAKE3
/// digest of its UTF-8 bytes.
pub open spec fn record_file_name(text: &str) -> Seq<char> {
    crate::chars::hex_lower(blake3_digest(text.spec_bytes()).take(5))
}

/// `dir` joined with the relative file name `name`, as `Path::join` joins them.
pub open spec fn join_path(dir: Seq<char>, name: Seq<char>) -> Seq<char> {
    if dir.len() == 0 || dir.last() == '/' {
        dir + name
    } else {
        dir + seq!['/'] + name
    }
}

/// The record file of a text is named by ten hex digits: those of the first five bytes of
/// its digest (a BLAKE3 digest has 32).
pub proof fn lemma_record_file_name_len(text: &str)
    requires
        blake3_digest(text.spec_bytes()).len() == 32,
    ensures
        record_file_name(text).len() == 10,
{
    crate::chars::lemma_hex_lower_len(blake3_digest(text.spec_bytes()).take(5));
}

impl<'dir> RecordManager<'dir> {
    pub closed spec fn spec_directory(&self) -> &'dir str {
        self.directory
    }

    /// Uses `pathstr` as the record directory; `is_dir` tells whether the path names a
    /// directory, which the caller probes. Refused, with the path, when it does not.
    pub fn mount_dir(pathstr: &'dir str, is_dir: bool) -> (r: Result<RecordManager<'dir>, RecordManagerError>)
        ensures
            is_dir ==> (r matches Ok(m) && m.spec_directory() == pathstr),
            !is_dir ==> (r matches Err(RecordManagerError::NotADirectory(p)) && p@ == pathstr@),
    {
        if is_dir {
            Ok(RecordManager { directory: pathstr })
        } else {
            Err(RecordManagerError::NotADirectory(pathstr.to_owned()))
        }
    }

    /// The path of the record file of `text` in the record directory.
    pub fn derive_filepath(&self, text: &str) -> (path: String)
        ensures
            path@ == join_path(self.spec_directory()@, record_file_name(text)),
    {
        let digest = blake3_hash(text.as_bytes());
        let mut head: Vec<u8> = Vec::new();
        let mut i: usize = 0;
        while i < 5
            invariant
                digest@.len() == 32,
                i <= 5,
                head@ == digest@.take(i as int),
            decreases 5 - i,
        {
            assert(digest@.take(i + 1) =~= digest@.take(i as int).push(digest@[i as int]));
            head.push(digest[i]);
            i = i + 1;
        }
        let hex = to_hex_lower(&head);
        let dir = crate::chars::str_chars(self.directory);
        let mut full: Vec<char> = dir.clone();
        if !(dir.len() == 0 || dir[dir.len() - 1] == '/') {
            full.push('/');
        }
        let mut k: usize = 0;
        let ghost base = full@;
        while k < hex.len()
            invariant
                k <= hex@.len(),
                full@ == base + hex@.take(k as int),
            decreases hex@.len() - k,
        {
            assert(hex@.take(k + 1) =~= hex@.take(k as int).push(hex@[k as int]));
            full.push(hex[k]);
            k = k + 1;
        }
        proof {
            assert(hex@.take(hex@.len() as int) =~= hex@);
            if dir@.len() == 0 || dir@.last() == '/' {
                assert(full@ =~= join_path(self.directory@, record_file_name(text)));
            } else {
                assert(full@ =~= join_path(self.directory@, record_file_name(text)));
            }
        }
        string_from_chars(&full)
    }
}

} // verus!
