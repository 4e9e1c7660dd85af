//! Content identifiers: `b3:` followed by the lowercase hex of the BLAKE3
//! digest of the content. Same content, same identifier.
use vstd::prelude::*;
use crate::digest::{blake3_digest, blake3_hash, hex_encode, hex_lower, lemma_hex_injective};
use crate::text::{push_str, str_eq};

verus! {

/// The identifier of some content: `b3:` and the hex of its digest.
pub open spec fn cid_text(data: Seq<u8>) -> Seq<char> {
    "b3:"@ + hex_lower(blake3_digest(data))
}

/// A content identifier: a deterministic hash of content.
#[derive(Debug, Clone, PartialEq, Eq, Hash)]
pub struct Cid(String);

impl View for Cid {
    type V = Seq<char>;

    closed spec fn view(&self) -> Seq<char> {
        self.0@
    }
}

impl Cid {
    /// Compute the identifier of raw bytes.
    pub fn from_bytes(data: &[u8]) -> (r: Self)
        ensures
            r@ == cid_text(data@),
    {
        let digest = blake3_hash(data);
        let hex = hex_encode(&digest);
        let mut s = String::new();
        push_str(&mut s, "b3:");
        push_str(&mut s, hex.as_str());
        proof {
            assert(s@ =~= cid_text(data@));
        }
        Cid(s)
    }

    /// Compute the identifier of a string's UTF-8 bytes.
    pub fn from_text(s: &str) -> (r: Self)
        ensures
            r@ == cid_text(vstd::utf8::encode_utf8(s@)),
    {
        Self::from_bytes(s.as_bytes())
    }

    /// The identifier as a string.
    pub fn as_str(&self) -> (r: &str)
        ensures
            r@ == self@,
    {
        self.0.as_str()
    }

    /// Whether `data` has this identifier.
    pub fn verify(&self, data: &[u8]) -> (r: bool)
        ensures
            r == (cid_text(data@) == self@),
    {
        let computed = Self::from_bytes(data);
        str_eq(computed.0.as_str(), self.0.as_str())
    }

    /// The identifier's text (what `Display` writes).
    pub fn to_text(&self) -> (r: String)
        ensures
            r@ == self@,
    {
        crate::text::str_from(self.0.as_str())
    }
}

/// An identifier computed from some content verifies other content exactly
/// where their digests are the same.
pub proof fn law_cid_verifies_own_content(data: Seq<u8>, other: Seq<u8>)
    ensures
        (cid_text(other) == cid_text(data)) <==> (blake3_digest(other) == blake3_digest(data)),
{
    if cid_text(other) == cid_text(data) {
        let p = "b3:"@;
        assert(hex_lower(blake3_digest(other)) =~= cid_text(other).skip(p.len() as int));
        assert(hex_lower(blake3_digest(data)) =~= cid_text(data).skip(p.len() as int));
        lemma_hex_injective(blake3_digest(other), blake3_digest(data));
    }
}

/// Every identifier starts with `b3:`.
pub proof fn law_cid_prefix(data: Seq<u8>)
    ensures
        cid_text(data).take(3) == "b3:"@,
{
    reveal_strlit("b3:");
    assert(cid_text(data).take(3) =~= "b3:"@);
}

} // verus!
