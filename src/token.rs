//! Asset identifiers and checked amounts.
use vstd::prelude::*;

verus! {

/// Largest amount of any asset or value: amounts must fit a signed 64-bit integer.
pub const MAX_AMOUNT: u64 = 9223372036854775807;

/// Smallest value a ledger record can hold.
pub const MIN_BOX_RAW: u64 = 10800;

/// Identifier of an asset: a 32-byte digest.
#[derive(Clone, Copy, Debug)]
pub struct TokenId {
    pub bytes: [u8; 32],
}

impl View for TokenId {
    type V = Seq<u8>;

    open spec fn view(&self) -> Seq<u8> {
        self.bytes@
    }
}

/// Compares two byte arrays of equal length, element by element.
pub(crate) fn same_bytes(a: &[u8; 32], b: &[u8; 32]) -> (r: bool)
    ensures
        r == (a@ == b@),
{
    let mut i: usize = 0;
    while i < 32
        invariant
            0 <= i <= 32,
            a@.len() == 32,
            b@.len() == 32,
            forall|j: int| 0 <= j < i ==> a@[j] == b@[j],
        decreases 32 - i,
    {
        if a[i] != b[i] {
            assert(a@[i as int] != b@[i as int]);
            return false;
        }
        i = i + 1;
    }
    assert(a@ =~= b@);
    true
}

impl TokenId {
    pub fn new(bytes: [u8; 32]) -> (r: TokenId)
        ensures
            r.bytes == bytes,
    {
        TokenId { bytes }
    }
}

impl PartialEq for TokenId {
    fn eq(&self, other: &TokenId) -> (r: bool)
        ensures
            r == (self@ == other@),
    {
        same_bytes(&self.bytes, &other.bytes)
    }
}

impl Eq for TokenId {
}

impl vstd::std_specs::cmp::PartialEqSpecImpl for TokenId {
    open spec fn obeys_eq_spec() -> bool {
        true
    }

    open spec fn eq_spec(&self, other: &TokenId) -> bool {
        self@ == other@
    }
}

/// Error of an amount that leaves its bounds.
#[derive(Clone, Copy, Debug, PartialEq, Eq, Structural)]
pub enum TokenAmountError {
    /// The value is below one or above the largest amount.
    OutOfBounds(u64),
    /// The arithmetic itself overflowed or underflowed.
    Overflow,
}

/// A positive number of units of some asset, at most `MAX_AMOUNT`.
#[derive(Clone, Copy, Debug, PartialEq, Eq, Structural)]
pub struct TokenAmount {
    value: u64,
}

/// Whether `v` is a valid token amount.
pub open spec fn token_amount_in_bounds(v: int) -> bool {
    1 <= v <= MAX_AMOUNT
}

impl TokenAmount {
    #[verifier::type_invariant]
    spec fn inv(self) -> bool {
        token_amount_in_bounds(self.value as int)
    }

    pub closed spec fn spec_u64(self) -> u64 {
        self.value
    }

    pub fn as_u64(&self) -> (r: u64)
        ensures
            r == self.spec_u64(),
            token_amount_in_bounds(r as int),
    {
        proof {
            use_type_invariant(self);
        }
        self.value
    }

    /// Builds an amount, failing outside `1..=MAX_AMOUNT`.
    pub fn try_new(v: u64) -> (r: Result<TokenAmount, TokenAmountError>)
        ensures
            token_amount_in_bounds(v as int) <==> r is Ok,
            r is Ok ==> r->Ok_0.spec_u64() == v,
            r is Err ==> r->Err_0 == TokenAmountError::OutOfBounds(v),
    {
        if 1 <= v && v <= MAX_AMOUNT {
            Ok(TokenAmount { value: v })
        } else {
            Err(TokenAmountError::OutOfBounds(v))
        }
    }

    pub fn checked_add(&self, rhs: &TokenAmount) -> (r: Result<TokenAmount, TokenAmountError>)
        ensures
            r is Ok <==> self.spec_u64() + rhs.spec_u64() <= MAX_AMOUNT,
            r is Ok ==> r->Ok_0.spec_u64() == self.spec_u64() + rhs.spec_u64(),
    {
        proof {
            use_type_invariant(self);
            use_type_invariant(rhs);
        }
        if self.value <= MAX_AMOUNT - rhs.value {
            Ok(TokenAmount { value: self.value + rhs.value })
        } else {
            Err(TokenAmountError::OutOfBounds(MAX_AMOUNT))
        }
    }

    pub fn checked_sub(&self, rhs: &TokenAmount) -> (r: Result<TokenAmount, TokenAmountError>)
        ensures
            r is Ok <==> self.spec_u64() > rhs.spec_u64(),
            r is Ok ==> r->Ok_0.spec_u64() == self.spec_u64() - rhs.spec_u64(),
    {
        proof {
            use_type_invariant(self);
            use_type_invariant(rhs);
        }
        if self.value < rhs.value {
            Err(TokenAmountError::Overflow)
        } else if self.value == rhs.value {
            Err(TokenAmountError::OutOfBounds(0))
        } else {
            Ok(TokenAmount { value: self.value - rhs.value })
        }
    }
}

/// An amount of one asset.
#[derive(Clone, Copy, Debug)]
pub struct Token {
    pub token_id: TokenId,
    pub amount: TokenAmount,
}

impl Token {
    pub fn new(token_id: TokenId, amount: TokenAmount) -> (r: Token)
        ensures
            r.token_id == token_id,
            r.amount == amount,
    {
        Token { token_id, amount }
    }
}

/// Error of a record value that leaves its bounds.
#[derive(Clone, Copy, Debug, PartialEq, Eq, Structural)]
pub enum BoxValueError {
    OutOfBounds(u64),
}

/// The native value held by a ledger record, in `MIN_BOX_RAW..=MAX_AMOUNT`.
#[derive(Clone, Copy, Debug, PartialEq, Eq, Structural)]
pub struct BoxValue {
    value: u64,
}

/// Whether `v` is a valid record value.
pub open spec fn box_value_in_bounds(v: int) -> bool {
    MIN_BOX_RAW <= v <= MAX_AMOUNT
}

impl BoxValue {
    #[verifier::type_invariant]
    spec fn inv(self) -> bool {
        box_value_in_bounds(self.value as int)
    }

    pub closed spec fn spec_u64(self) -> u64 {
        self.value
    }

    /// The value holding `v`, when `v` is in bounds.
    pub closed spec fn from_spec(v: u64) -> BoxValue {
        BoxValue { value: v }
    }

    pub proof fn lemma_from_spec(b: BoxValue)
        ensures
            b == BoxValue::from_spec(b.spec_u64()),
            box_value_in_bounds(b.spec_u64() as int) ==> BoxValue::from_spec(
                b.spec_u64(),
            ).spec_u64() == b.spec_u64(),
    {
    }

    pub proof fn lemma_from_spec_value(v: u64)
        ensures
            BoxValue::from_spec(v).spec_u64() == v,
    {
    }

    pub fn as_u64(&self) -> (r: u64)
        ensures
            r == self.spec_u64(),
            box_value_in_bounds(r as int),
    {
        proof {
            use_type_invariant(self);
        }
        self.value
    }

    pub fn as_i64(&self) -> (r: i64)
        ensures
            r as int == self.spec_u64() as int,
    {
        proof {
            use_type_invariant(self);
        }
        self.value as i64
    }

    /// Builds a value, failing outside `MIN_BOX_RAW..=MAX_AMOUNT`.
    pub fn try_new(v: u64) -> (r: Result<BoxValue, BoxValueError>)
        ensures
            box_value_in_bounds(v as int) <==> r is Ok,
            r is Ok ==> r->Ok_0.spec_u64() == v,
            r is Err ==> r->Err_0 == BoxValueError::OutOfBounds(v),
    {
        if MIN_BOX_RAW <= v && v <= MAX_AMOUNT {
            Ok(BoxValue { value: v })
        } else {
            Err(BoxValueError::OutOfBounds(v))
        }
    }

    /// Builds a value from a signed integer, failing outside `MIN_BOX_RAW..=MAX_AMOUNT`.
    pub fn try_from_i64(v: i64) -> (r: Result<BoxValue, BoxValueError>)
        ensures
            box_value_in_bounds(v as int) <==> r is Ok,
            r is Ok ==> r->Ok_0.spec_u64() == v,
    {
        if v >= MIN_BOX_RAW as i64 {
            Ok(BoxValue { value: v as u64 })
        } else {
            Err(BoxValueError::OutOfBounds(0))
        }
    }
}

} // verus!
