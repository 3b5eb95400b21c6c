//! Content identifiers as plain values, and the links that carry them.

use vstd::prelude::*;

use crate::uvarint::encoded;

verus! {

/// Multicodec code of SHA2-256.
pub const SHA2_256: u64 = 0x12;

/// Multicodec code of DAG-PB, the codec of every version 0 identifier.
pub const DAG_PB: u64 = 0x70;

/// The longest digest that an identifier can hold.
pub const MAX_DIGEST_LEN: u64 = 64;

/// A digest together with the code of the function that made it.
#[derive(Clone, Debug, PartialEq, Eq, Hash)]
pub struct Multihash {
    pub code: u64,
    pub digest: Vec<u8>,
}

/// A content identifier.
#[derive(Clone, Debug, PartialEq, Eq, Hash)]
pub struct Cid {
    pub version: u64,
    pub codec: u64,
    pub hash: Multihash,
}

/// What a [`Cid`] stands for.
#[verifier::ext_equal]
pub struct CidView {
    pub version: u64,
    pub codec: u64,
    pub code: u64,
    pub digest: Seq<u8>,
}

impl View for Cid {
    type V = CidView;

    open spec fn view(&self) -> CidView {
        CidView {
            version: self.version,
            codec: self.codec,
            code: self.hash.code,
            digest: self.hash.digest@,
        }
    }
}

/// The version 0 identifier of a SHA2-256 digest.
pub open spec fn cid_v0(digest: Seq<u8>) -> CidView {
    CidView { version: 0, codec: DAG_PB, code: SHA2_256, digest }
}

/// The version 1 identifier of content encoded with `codec`.
pub open spec fn cid_v1(codec: u64, code: u64, digest: Seq<u8>) -> CidView {
    CidView { version: 1, codec, code, digest }
}

/// Whether `c` is an identifier that the binary format can express.
pub open spec fn valid_cid(c: CidView) -> bool {
    ||| c.version == 0 && c.codec == DAG_PB && c.code == SHA2_256 && c.digest.len() == 32
    ||| c.version == 1 && c.digest.len() <= MAX_DIGEST_LEN
}

/// The bytes of a multihash.
pub open spec fn multihash_bytes(code: u64, digest: Seq<u8>) -> Seq<u8> {
    encoded(code as nat) + encoded(digest.len()) + digest
}

/// The binary form of an identifier: version 0 is a bare multihash.
pub open spec fn cid_bytes(c: CidView) -> Seq<u8> {
    if c.version == 0 {
        multihash_bytes(c.code, c.digest)
    } else {
        encoded(c.version as nat) + encoded(c.codec as nat) + multihash_bytes(c.code, c.digest)
    }
}

/// What `cid::Cid::try_from` makes of `bytes`: an identifier, or the text of its error.
pub uninterp spec fn cid_from_bytes(bytes: Seq<u8>) -> Result<CidView, Seq<char>>;

/// `multihash::Multihash::<64>::wrap`: keeps the code and the digest, and accepts every digest
/// of at most 64 bytes.
#[verifier::external_body]
pub(crate) fn wrap_multihash(code: u64, digest: &[u8]) -> (r: Multihash)
    requires
        digest@.len() <= MAX_DIGEST_LEN,
    ensures
        r.code == code,
        r.digest@ == digest@,
{
    let hash = multihash::Multihash::<64>::wrap(code, digest).unwrap();
    Multihash { code: hash.code(), digest: hash.digest().to_vec() }
}

/// `cid::Cid::new_v0`: accepts exactly the SHA2-256 digests of 32 bytes, under the DAG-PB codec.
#[verifier::external_body]
pub(crate) fn new_cid_v0(hash: &Multihash) -> (r: Option<Cid>)
    requires
        hash.digest@.len() <= MAX_DIGEST_LEN,
    ensures
        r is Some == (hash.code == SHA2_256 && hash.digest@.len() == 32),
        r is Some ==> r->0@ == cid_v0(hash.digest@),
{
    let wrapped = multihash::Multihash::<64>::wrap(hash.code, &hash.digest).unwrap();
    let c = cid::Cid::new_v0(wrapped).ok()?;
    let hash = Multihash { code: c.hash().code(), digest: c.hash().digest().to_vec() };
    Some(Cid { version: u64::from(c.version()), codec: c.codec(), hash })
}

/// `cid::Cid::new_v1`: keeps the codec and the multihash.
#[verifier::external_body]
pub(crate) fn new_cid_v1(codec: u64, hash: &Multihash) -> (r: Cid)
    requires
        hash.digest@.len() <= MAX_DIGEST_LEN,
    ensures
        r@ == cid_v1(codec, hash.code, hash.digest@),
{
    let wrapped = multihash::Multihash::<64>::wrap(hash.code, &hash.digest).unwrap();
    let c = cid::Cid::new_v1(codec, wrapped);
    let hash = Multihash { code: c.hash().code(), digest: c.hash().digest().to_vec() };
    Cid { version: u64::from(c.version()), codec: c.codec(), hash }
}

/// `cid::Cid::try_from` on bytes: its result is named, and it reads back the binary form of
/// every valid identifier.
#[verifier::external_body]
pub(crate) fn parse_cid(bytes: Vec<u8>) -> (r: Result<Cid, String>)
    ensures
        match r {
            Ok(c) => cid_from_bytes(bytes@) == Ok::<CidView, Seq<char>>(c@),
            Err(text) => cid_from_bytes(bytes@) == Err::<CidView, Seq<char>>(text@),
        },
        forall|c: CidView| #![trigger cid_bytes(c)]
            valid_cid(c) && bytes@ == cid_bytes(c) ==> r is Ok && r->Ok_0@ == c,
{
    let c = cid::Cid::try_from(bytes).map_err(|e| e.to_string())?;
    let hash = Multihash { code: c.hash().code(), digest: c.hash().digest().to_vec() };
    Ok(Cid { version: u64::from(c.version()), codec: c.codec(), hash })
}

/// A decoded CBOR value, as far as links are concerned.
#[derive(Clone, Debug, PartialEq, Eq)]
pub enum CborValue {
    /// A byte string.
    Bytes(Vec<u8>),
    /// Any other value.
    Other,
}

/// Why a CBOR value yields no identifier.
#[derive(Clone, Debug, PartialEq, Eq)]
pub enum LinkError {
    /// Not a byte string that starts with the zero byte.
    InvalidEncoding,
    /// The bytes after the zero byte are no identifier; carries the reason.
    Cid(String),
}

impl LinkError {
    /// The error message.
    pub fn text(&self) -> (r: String)
        ensures
            match *self {
                LinkError::InvalidEncoding => r@ == "invalid DAG\u{2011}CBOR link encoding"@,
                LinkError::Cid(reason) => r@ == reason@,
            },
    {
        match self {
            LinkError::InvalidEncoding => "invalid DAG\u{2011}CBOR link encoding".to_owned(),
            LinkError::Cid(reason) => reason.clone(),
        }
    }
}

/// The bytes of a DAG-CBOR link: the binary form of the identifier behind a zero byte.
pub open spec fn link_bytes(c: CidView) -> Seq<u8> {
    seq![0u8] + cid_bytes(c)
}

/// The bytes that a link value holds behind its zero byte, where it is a link.
pub open spec fn linked_bytes(val: CborValue) -> Option<Seq<u8>> {
    match val {
        CborValue::Bytes(b) if b@.len() > 0 && b@[0] == 0 => Some(b@.skip(1)),
        _ => None,
    }
}

/// Extracts the identifier from a DAG-CBOR link value.
pub fn cid_from_cbor_link(val: &CborValue) -> (r: Result<Cid, LinkError>)
    ensures
        match linked_bytes(*val) {
            Some(bytes) => match r {
                Ok(c) => cid_from_bytes(bytes) == Ok::<CidView, Seq<char>>(c@),
                Err(LinkError::Cid(text)) => cid_from_bytes(bytes) == Err::<CidView, Seq<char>>(text@),
                Err(LinkError::InvalidEncoding) => false,
            },
            None => r == Err::<Cid, LinkError>(LinkError::InvalidEncoding),
        },
        forall|c: CidView| #![trigger link_bytes(c)]
            valid_cid(c) && val is Bytes && val->Bytes_0@ == link_bytes(c) ==> r is Ok && r->Ok_0@ == c,
{
    if let CborValue::Bytes(b) = val {
        if b.len() > 0 && b[0] == 0 {
            let tail: Vec<u8> = vstd::slice::slice_to_vec(vstd::slice::slice_subrange(b.as_slice(), 1, b.len()));
            assert(tail@ =~= b@.skip(1));
            proof {
                assert forall|c: CidView| #![trigger link_bytes(c)] valid_cid(c) && b@ == link_bytes(c) implies tail@ == cid_bytes(c) by {
                    assert(tail@ =~= cid_bytes(c));
                }
            }
            return match parse_cid(tail) {
                Ok(c) => Ok(c),
                Err(text) => Err(LinkError::Cid(text)),
            };
        }
    }
    proof {
        if let CborValue::Bytes(b) = val {
            assert forall|c: CidView| #![trigger link_bytes(c)] b@ != link_bytes(c) by {
                assert(link_bytes(c)[0] == 0);
            }
        }
    }
    Err(LinkError::InvalidEncoding)
}

/// An identifier is made of what it is made from.
pub proof fn law_cid_fields(codec: u64, code: u64, digest: Seq<u8>)
    ensures
        cid_v1(codec, code, digest) == (CidView { version: 1, codec, code, digest }),
        cid_v0(digest) == (CidView { version: 0, codec: 0x70, code: 0x12, digest }),
        digest.len() <= 64 ==> valid_cid(cid_v1(codec, code, digest)),
        digest.len() == 32 ==> valid_cid(cid_v0(digest)),
{
}

/// The view of an identifier tells all of it.
pub proof fn law_cid_view(a: Cid)
    ensures
        a@ == (CidView {
            version: a.version,
            codec: a.codec,
            code: a.hash.code,
            digest: a.hash.digest@,
        }),
{
}

/// The binary form of version 1 has its four numbers and the digest one after the other, that of
/// version 0 the last two and the digest; a link has a zero byte in front.
pub proof fn law_cid_bytes(codec: u64, code: u64, digest: Seq<u8>)
    ensures
        ({
            let hash = encoded(code as nat) + encoded(digest.len()) + digest;
            &&& cid_bytes(cid_v1(codec, code, digest)) == seq![1u8] + encoded(codec as nat) + hash
            &&& digest.len() == 32 ==> cid_bytes(cid_v0(digest)) == seq![0x12u8, 0x20u8] + digest
        }),
        forall|c: CidView| #[trigger] link_bytes(c) == seq![0u8] + cid_bytes(c),
{
    assert(encoded(1) =~= seq![1u8]);
    if digest.len() == 32 {
        assert(cid_bytes(cid_v0(digest)) =~= seq![0x12u8, 0x20u8] + digest);
    }
}

/// A link is a byte string with a zero in front, and all that follows the zero is read; nothing else
/// is a link.
pub proof fn law_links(val: CborValue, b: Vec<u8>, rest: Seq<u8>)
    ensures
        b@ == seq![0u8] + rest ==> linked_bytes(CborValue::Bytes(b)) == Some(rest),
        linked_bytes(val) is Some ==> val is Bytes && val->Bytes_0@ == seq![0u8] + linked_bytes(val)->0,
        b@.len() == 0 || b@[0] != 0 ==> linked_bytes(CborValue::Bytes(b)) is None,
        linked_bytes(CborValue::Other) is None,
{
    if b@ == seq![0u8] + rest {
        assert(b@.skip(1) =~= rest);
    }
    if linked_bytes(val) is Some {
        assert(val->Bytes_0@ =~= seq![0u8] + linked_bytes(val)->0);
    }
}

} // verus!
