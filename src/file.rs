//! Files as they come in from clients and as they are read from the store,
//! with the validators and the content type derived from them.
use vstd::prelude::*;

verus! {

use sha1::Digest;

/// A file without a row id: what a client sends to be stored.
#[derive(Debug, Clone, PartialEq, Eq)]
pub struct NewFile {
    pub path: String,
    pub content: Vec<u8>,
    pub mode: u32,
    /// Seconds since the Unix epoch.
    pub modified: u64,
}

/// A stored file, with its full path derived from its directory chain.
#[derive(Debug, Clone, PartialEq, Eq)]
pub struct File {
    pub id: usize,
    pub path: String,
    pub content: Vec<u8>,
    pub mode: u32,
    /// Seconds since the Unix epoch.
    pub modified: u64,
}

/// The digest SHA-1 gives for `data`.
pub uninterp spec fn sha1_of(data: Seq<u8>) -> Seq<u8>;

/// The MIME type guessed for `path` from its extension.
pub uninterp spec fn mime_type_of(path: Seq<char>) -> Seq<char>;

/// The lowercase hexadecimal digit for `n`, below 16.
pub open spec fn hex_digit(n: int) -> char {
    seq!['0', '1', '2', '3', '4', '5', '6', '7', '8', '9', 'a', 'b', 'c', 'd', 'e', 'f'][n]
}

/// Two lowercase hexadecimal digits for each byte, high half first.
pub open spec fn hex_of(b: Seq<u8>) -> Seq<char>
    decreases b.len(),
{
    if b.len() == 0 {
        Seq::empty()
    } else {
        hex_of(b.drop_last()) + seq![hex_digit(b.last() as int / 16), hex_digit(b.last() as int % 16)]
    }
}

/// The strong entity tag of a content: its SHA-1 digest in hexadecimal.
pub open spec fn etag_of(content: Seq<u8>) -> Seq<char> {
    hex_of(sha1_of(content))
}

/// Relies on sha1's `Digest::digest` for `Sha1`: the SHA-1 digest of
/// `data`, which is 20 bytes long.
#[verifier::external_body]
fn sha1_digest(data: &[u8]) -> (r: Vec<u8>)
    ensures
        r@ == sha1_of(data@),
        r@.len() == 20,
{
    sha1::Sha1::digest(data).to_vec()
}

/// Relies on `hex::encode`: two lowercase hexadecimal digits for each byte,
/// the high half first.
#[verifier::external_body]
fn hex_encode(data: &[u8]) -> (r: String)
    ensures
        r@ == hex_of(data@),
{
    hex::encode(data)
}

/// Relies on `mime_guess::from_path(..).first_or_text_plain()`: the first
/// MIME type known for the path's extension, `text/plain` when none is.
#[verifier::external_body]
fn guess_mime(path: &str) -> (r: String)
    ensures
        r@ == mime_type_of(path@),
{
    mime_guess::from_path(path).first_or_text_plain().to_string()
}

impl File {
    /// The MIME type guessed from the file's extension.
    pub fn content_type(&self) -> (r: String)
        ensures
            r@ == mime_type_of(self.path@),
    {
        guess_mime(self.path.as_str())
    }

    /// The file's entity tag, computed afresh from its content.
    pub fn content_hash(&self) -> (r: String)
        ensures
            r@ == etag_of(self.content@),
    {
        let digest = sha1_digest(self.content.as_slice());
        hex_encode(digest.as_slice())
    }
}

} // verus!
