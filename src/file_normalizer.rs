//! Recognising how a file is compressed from its first four bytes, and
//! reading the version header out of the first decompressed bytes.
use vstd::prelude::*;
use crate::text::string_from_chars;
use crate::version_checker::{get_version, header_outcome, BlenderVersion, InvalidVersionHeader};

verus! {

/// How the content of a file is stored.
#[derive(Clone, Copy, Debug, PartialEq, Eq, Structural)]
pub enum CompressionKind {
    /// Uncompressed: the file opens with `BLEN`.
    Raw,
    /// A gzip stream.
    Gzip,
    /// A zstd frame.
    Zstd,
}

/// The first four bytes of a file that match no known signature.
#[derive(Clone, Copy, Debug, Default)]
pub struct UnknownMagicBytes {
    /// The bytes as they were read.
    pub bytes: [u8; 4],
}

/// The signature of an uncompressed file.
pub open spec fn raw_magic() -> Seq<u8> {
    seq![0x42u8, 0x4cu8, 0x45u8, 0x4eu8]
}

/// The signature of a gzip stream (deflate, no flags).
pub open spec fn gzip_magic() -> Seq<u8> {
    seq![0x1fu8, 0x8bu8, 0x08u8, 0x00u8]
}

/// The signature of a zstd frame.
pub open spec fn zstd_magic() -> Seq<u8> {
    seq![0x28u8, 0xb5u8, 0x2fu8, 0xfdu8]
}

/// The storage that four leading bytes announce, if any.
pub open spec fn kind_of_magic(m: Seq<u8>) -> Option<CompressionKind> {
    if m == raw_magic() {
        Some(CompressionKind::Raw)
    } else if m == gzip_magic() {
        Some(CompressionKind::Gzip)
    } else if m == zstd_magic() {
        Some(CompressionKind::Zstd)
    } else {
        None
    }
}

/// Classifies the first four bytes of a file; unknown bytes are handed back
/// in the error.
pub fn classify_magic(magic: [u8; 4]) -> (r: Result<CompressionKind, UnknownMagicBytes>)
    ensures
        match r {
            Ok(k) => kind_of_magic(magic@) == Some(k),
            Err(e) => kind_of_magic(magic@) is None && e.bytes@ == magic@,
        },
{
    let ghost m = magic@;
    if magic[0] == 0x42 && magic[1] == 0x4c && magic[2] == 0x45 && magic[3] == 0x4e {
        assert(m =~= raw_magic());
        Ok(CompressionKind::Raw)
    } else if magic[0] == 0x1f && magic[1] == 0x8b && magic[2] == 0x08 && magic[3] == 0x00 {
        assert(m =~= gzip_magic());
        Ok(CompressionKind::Gzip)
    } else if magic[0] == 0x28 && magic[1] == 0xb5 && magic[2] == 0x2f && magic[3] == 0xfd {
        assert(m =~= zstd_magic());
        Ok(CompressionKind::Zstd)
    } else {
        Err(UnknownMagicBytes { bytes: magic })
    }
}

/// The lower-case hexadecimal digit for a value in `0..16`.
pub open spec fn hex_digit(n: int) -> char {
    if n < 10 {
        ((n + 48) as u8) as char
    } else {
        ((n + 87) as u8) as char
    }
}

/// A byte as two lower-case hexadecimal digits.
pub open spec fn hex_pair(b: u8) -> Seq<char> {
    seq![hex_digit(b as int / 16), hex_digit(b as int % 16)]
}

/// `unknown magic byte [aa, bb, cc, dd]` for the bytes `aa bb cc dd`.
pub open spec fn unknown_magic_message(b: Seq<u8>) -> Seq<char> {
    "unknown magic byte ["@ + hex_pair(b[0]) + seq![',', ' '] + hex_pair(b[1]) + seq![',', ' ']
        + hex_pair(b[2]) + seq![',', ' '] + hex_pair(b[3]) + seq![']']
}

fn push_hex(r: &mut Vec<char>, b: u8)
    ensures
        final(r)@ == old(r)@ + hex_pair(b),
{
    let hi: u8 = b / 16;
    let lo: u8 = b % 16;
    if hi < 10 {
        r.push((hi + 48) as char);
    } else {
        r.push((hi + 87) as char);
    }
    if lo < 10 {
        r.push((lo + 48) as char);
    } else {
        r.push((lo + 87) as char);
    }
    assert(final(r)@ =~= old(r)@ + hex_pair(b));
}

impl UnknownMagicBytes {
    /// A one-line description for diagnostics, with the bytes in hexadecimal.
    pub fn message(&self) -> (r: String)
        ensures
            r@ == unknown_magic_message(self.bytes@),
    {
        let mut r: Vec<char> = vec![
            'u', 'n', 'k', 'n', 'o', 'w', 'n', ' ', 'm', 'a', 'g', 'i', 'c', ' ', 'b', 'y', 't', 'e', ' ', '[',
        ];
        proof {
            reveal_strlit("unknown magic byte [");
        }
        assert(r@ =~= "unknown magic byte ["@);
        push_hex(&mut r, self.bytes[0]);
        r.push(',');
        r.push(' ');
        push_hex(&mut r, self.bytes[1]);
        r.push(',');
        r.push(' ');
        push_hex(&mut r, self.bytes[2]);
        r.push(',');
        r.push(' ');
        push_hex(&mut r, self.bytes[3]);
        r.push(']');
        assert(r@ =~= unknown_magic_message(self.bytes@));
        string_from_chars(&r)
    }
}

/// Index of the first NUL byte of `b`, or `b.len()` when there is none.
pub open spec fn first_nul(b: Seq<u8>) -> int
    decreases b.len(),
{
    if b.len() == 0 {
        0
    } else if b[0] == 0 {
        0
    } else {
        1 + first_nul(b.drop_first())
    }
}

/// The header text: the bytes before the first NUL, each read as the
/// character of the same code.
pub open spec fn header_text(b: Seq<u8>) -> Seq<char> {
    Seq::new(first_nul(b) as nat, |i: int| b[i] as char)
}

proof fn lemma_first_nul(b: Seq<u8>, i: int)
    requires
        0 <= i <= b.len(),
        forall|j: int| 0 <= j < i ==> b[j] != 0,
        i == b.len() || b[i] == 0,
    ensures
        first_nul(b) == i,
    decreases i,
{
    if i > 0 {
        lemma_first_nul(b.drop_first(), i - 1);
    }
}

/// Parses the version header from the first bytes of the decompressed
/// content: the text before the first NUL byte.
pub fn version_from_header(header: &[u8]) -> (r: Result<BlenderVersion, InvalidVersionHeader>)
    ensures
        header_outcome(r, header_text(header@)),
{
    let mut text: Vec<char> = Vec::new();
    let mut i: usize = 0;
    while i < header.len() && header[i] != 0
        invariant
            i <= header@.len(),
            forall|j: int| 0 <= j < i ==> header@[j] != 0,
            text@ == Seq::new(i as nat, |k: int| header@[k] as char),
        decreases header@.len() - i,
    {
        text.push(header[i] as char);
        i = i + 1;
        assert(text@ =~= Seq::new(i as nat, |k: int| header@[k] as char));
    }
    proof {
        lemma_first_nul(header@, i as int);
    }
    let s = string_from_chars(&text);
    get_version(s.as_str())
}

} // verus!
