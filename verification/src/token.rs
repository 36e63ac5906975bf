//! Token identifiers (`TICKER-abcdef`, or `EGLD` for the native coin).
use vstd::prelude::*;

verus! {

/// Identifier of a fungible token or of the native coin, as its bytes.
#[derive(Debug)]
pub struct TokenId {
    pub bytes: Vec<u8>,
}

impl Clone for TokenId {
    fn clone(&self) -> (r: Self)
        ensures
            r@ == self@,
    {
        TokenId { bytes: self.bytes.clone() }
    }
}

impl View for TokenId {
    type V = Seq<u8>;

    open spec fn view(&self) -> Seq<u8> {
        self.bytes@
    }
}

/// The bytes of the native coin's identifier, `EGLD`.
pub open spec fn egld_bytes() -> Seq<u8> {
    seq![69u8, 71u8, 76u8, 68u8]
}

/// The bytes of the wrapped native coin's ticker, `WEGLD`.
pub open spec fn wegld_bytes() -> Seq<u8> {
    seq![87u8, 69u8, 71u8, 76u8, 68u8]
}

/// The ticker of an ESDT identifier: all but its last seven bytes (the `-` and the
/// six random characters); `None` for an identifier shorter than that, on which the
/// chain's ticker lookup aborts.
pub open spec fn ticker_of(id: Seq<u8>) -> Option<Seq<u8>> {
    if id.len() < 7 {
        None
    } else {
        Some(id.subrange(0, id.len() - 7))
    }
}

/// Whether a byte is an ASCII digit or uppercase letter.
pub open spec fn upper_alnum(c: u8) -> bool {
    (48 <= c <= 57) || (65 <= c <= 90)
}

/// Whether a byte is an ASCII digit or lowercase letter.
pub open spec fn lower_alnum(c: u8) -> bool {
    (48 <= c <= 57) || (97 <= c <= 122)
}

/// A well-formed ESDT identifier: a ticker of 3 to 10 uppercase letters or digits, a
/// `-`, and six lowercase letters or digits.
pub open spec fn valid_esdt_identifier(id: Seq<u8>) -> bool {
    let len = id.len();
    &&& 10 <= len <= 17
    &&& forall|i: int| 0 <= i < len - 7 ==> upper_alnum(#[trigger] id[i])
    &&& id[len - 7] == 45u8
    &&& forall|i: int| len - 6 <= i < len ==> lower_alnum(#[trigger] id[i])
}

/// Checks an ESDT identifier with the chain's
/// `multiversx_chain_core::token_identifier_util::validate_token_identifier`, which
/// accepts exactly the identifiers `valid_esdt_identifier` describes.
#[verifier::external_body]
fn validate_identifier_bytes(bytes: &Vec<u8>) -> (r: bool)
    ensures
        r == valid_esdt_identifier(bytes@),
{
    multiversx_chain_core::token_identifier_util::validate_token_identifier(bytes.as_slice())
}

/// The chain's ticker length of an identifier of `token_id_len` bytes: the length
/// less the `-` and the six random characters.
pub assume_specification[multiversx_chain_core::token_identifier_util::get_token_ticker_len](token_id_len: usize) -> (r: usize)
    requires
        token_id_len >= 7,
    ensures
        r == token_id_len - 7,
;

impl TokenId {
    /// Builds an identifier from its bytes.
    pub fn new(bytes: Vec<u8>) -> (r: TokenId)
        ensures
            r@ == bytes@,
    {
        TokenId { bytes }
    }

    /// The native coin's identifier.
    pub fn egld() -> (r: TokenId)
        ensures
            r@ == egld_bytes(),
    {
        let mut v: Vec<u8> = Vec::new();
        v.push(69u8);
        v.push(71u8);
        v.push(76u8);
        v.push(68u8);
        assert(v@ =~= egld_bytes());
        TokenId { bytes: v }
    }

    /// Whether this is the native coin.
    pub fn is_egld(&self) -> (r: bool)
        ensures
            r == (self@ == egld_bytes()),
    {
        let e = TokenId::egld();
        same_token(self, &e)
    }

    /// Whether the identifier names the native coin or is a well-formed ESDT identifier.
    pub fn is_valid(&self) -> (r: bool)
        ensures
            r == (self@ == egld_bytes() || valid_esdt_identifier(self@)),
    {
        self.is_egld() || validate_identifier_bytes(&self.bytes)
    }

    /// The ticker part of the identifier (see `ticker_of`).
    pub fn ticker(&self) -> (r: Option<Vec<u8>>)
        ensures
            r is None <==> ticker_of(self@) is None,
            r matches Some(t) ==> ticker_of(self@) == Some(t@),
    {
        let n = self.bytes.len();
        if n < 7 {
            return None;
        }
        let ticker_len = multiversx_chain_core::token_identifier_util::get_token_ticker_len(n);
        let mut out: Vec<u8> = Vec::new();
        let mut i: usize = 0;
        while i < ticker_len
            invariant
                n == self@.len(),
                n >= 7,
                ticker_len == n - 7,
                i <= ticker_len,
                out@ == self@.subrange(0, i as int),
            decreases ticker_len - i,
        {
            out.push(self.bytes[i]);
            i = i + 1;
            proof {
                assert(out@ =~= self@.subrange(0, i as int));
            }
        }
        Some(out)
    }
}

/// Byte-wise equality of two byte strings.
pub fn same_bytes(a: &Vec<u8>, b: &Vec<u8>) -> (r: bool)
    ensures
        r == (a@ == b@),
{
    if a.len() != b.len() {
        return false;
    }
    let mut i: usize = 0;
    while i < a.len()
        invariant
            a@.len() == b@.len(),
            i <= a@.len(),
            forall|k: int| 0 <= k < i ==> a@[k] == b@[k],
        decreases a@.len() - i,
    {
        if a[i] != b[i] {
            return false;
        }
        i = i + 1;
    }
    assert(a@ =~= b@);
    true
}

/// Whether two identifiers name the same token.
pub fn same_token(a: &TokenId, b: &TokenId) -> (r: bool)
    ensures
        r == (a@ == b@),
{
    same_bytes(&a.bytes, &b.bytes)
}

} // verus!
