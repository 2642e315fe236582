//! A two-asset constant-product pool with a proportional fee.
use crate::liquidity::{
    lemma_quote_keeps_product, quote_input, quote_output, LiquidityProviderError,
};
use crate::matcher::BoxId;
use crate::token::{
    token_amount_in_bounds, Token, TokenAmount, TokenAmountError, TokenId, MAX_AMOUNT,
};
use crate::wide::{big_add, big_div, big_from, big_mul, big_to_u64, big_value};
use num_bigint::BigInt;
use vstd::prelude::*;

verus! {

#[derive(Clone, Copy, Debug, PartialEq, Eq, Structural)]
pub enum PoolType {
    /// A pool of the native asset against one token.
    N2T,
}

impl PoolType {
    pub fn as_str(&self) -> (r: &'static str)
        ensures
            *self == PoolType::N2T ==> r@ == "N2T"@,
    {
        match self {
            PoolType::N2T => "N2T",
        }
    }
}

#[derive(Clone, Copy, Debug)]
pub enum SpectrumPoolError {
    /// The record is no pool of a known type.
    BoxParseFailure(BoxId),
    TokenAmountError(TokenAmountError),
}

/// Identifier of the native asset, the numeraire of every pool.
pub open spec fn native_id() -> Seq<u8> {
    Seq::new(32, |i: int| 0u8)
}

/// A record can hold a pool: the pool script, a fee, and exactly three tokens.
pub open spec fn pool_record_shape(n2t_script: bool, tokens: Option<Vec<Token>>, fee: Option<i32>) -> bool {
    n2t_script && fee is Some && (tokens matches Some(v) && v@.len() == 3)
}

#[derive(Clone, Copy, Debug)]
pub struct SpectrumPool {
    pub pool_nft: Token,
    pub asset_lp: Token,
    /// Reserve of the numeraire.
    pub asset_x: Token,
    /// Reserve of the traded token.
    pub asset_y: Token,
    pub fee_num: i32,
    pub fee_denom: i32,
    pub pool_type: PoolType,
}

impl SpectrumPool {
    /// The fee is a proper positive fraction and the two reserves are of different assets.
    pub open spec fn wf(&self) -> bool {
        &&& 0 < self.fee_num < self.fee_denom
        &&& self.asset_x.token_id@ != self.asset_y.token_id@
    }

    pub open spec fn x(&self) -> int {
        self.asset_x.amount.spec_u64() as int
    }

    pub open spec fn y(&self) -> int {
        self.asset_y.amount.spec_u64() as int
    }

    /// The reserves a swap draws on, for an asset paid in: `(from, to)`.
    pub open spec fn input_sides(&self, id: Seq<u8>) -> Option<(Token, Token)> {
        if id == self.asset_x.token_id@ {
            Some((self.asset_x, self.asset_y))
        } else if id == self.asset_y.token_id@ {
            Some((self.asset_y, self.asset_x))
        } else {
            None
        }
    }

    /// The reserves a swap draws on, for an asset paid out: `(from, to)`.
    pub open spec fn output_sides(&self, id: Seq<u8>) -> Option<(Token, Token)> {
        if id == self.asset_y.token_id@ {
            Some((self.asset_x, self.asset_y))
        } else if id == self.asset_x.token_id@ {
            Some((self.asset_y, self.asset_x))
        } else {
            None
        }
    }

    /// What the pool pays out for `input` paid in along `(from, to)`.
    pub open spec fn output_quote(&self, from: Token, to: Token, input: int) -> int {
        quote_output(
            from.amount.spec_u64() as int,
            to.amount.spec_u64() as int,
            input,
            self.fee_num as int,
            self.fee_denom as int,
        )
    }

    /// What must be paid in along `(from, to)` for `output` paid out.
    pub open spec fn input_quote(&self, from: Token, to: Token, output: int) -> int {
        quote_input(
            from.amount.spec_u64() as int,
            to.amount.spec_u64() as int,
            output,
            self.fee_num as int,
            self.fee_denom as int,
        )
    }

    pub open spec fn same_but_reserves(&self, other: SpectrumPool) -> bool {
        &&& other.pool_nft == self.pool_nft
        &&& other.asset_lp == self.asset_lp
        &&& other.fee_num == self.fee_num
        &&& other.fee_denom == self.fee_denom
        &&& other.pool_type == self.pool_type
        &&& other.asset_x.token_id == self.asset_x.token_id
        &&& other.asset_y.token_id == self.asset_y.token_id
    }

    /// Reads a pool out of a ledger record's contents: whether its script is that
    /// of a native-to-token pool, the tokens it holds (the pool's NFT, its liquidity
    /// token, the traded token), the fee numerator in its first register and its
    /// value, which is the numeraire reserve. The fee is in thousandths.
    pub fn from_record(
        box_id: BoxId,
        n2t_script: bool,
        tokens: Option<Vec<Token>>,
        fee: Option<i32>,
        value: u64,
    ) -> (r: Result<SpectrumPool, SpectrumPoolError>)
        ensures
            !pool_record_shape(n2t_script, tokens, fee) ==> r == Err::<SpectrumPool, _>(
                SpectrumPoolError::BoxParseFailure(box_id),
            ),
            pool_record_shape(n2t_script, tokens, fee) ==> {
                let v = tokens->Some_0@;
                &&& r is Ok <==> token_amount_in_bounds(value as int)
                &&& r is Ok ==> {
                    let p = r->Ok_0;
                    &&& p.pool_nft == v[0] && p.asset_lp == v[1] && p.asset_y == v[2]
                    &&& p.asset_x.token_id@ == native_id() && p.x() == value
                    &&& p.fee_num == fee->Some_0 && p.fee_denom == 1000
                    &&& p.pool_type == PoolType::N2T
                }
            },
    {
        let fee_num = match fee {
            Some(f) => f,
            None => return Err(SpectrumPoolError::BoxParseFailure(box_id)),
        };
        let v = match tokens {
            Some(v) => v,
            None => return Err(SpectrumPoolError::BoxParseFailure(box_id)),
        };
        if !n2t_script || v.len() != 3 {
            return Err(SpectrumPoolError::BoxParseFailure(box_id));
        }
        let x_amount = match TokenAmount::try_new(value) {
            Ok(a) => a,
            Err(e) => return Err(SpectrumPoolError::TokenAmountError(e)),
        };
        let native = TokenId::new([0u8; 32]);
        assert(native@ =~= native_id());
        Ok(
            SpectrumPool {
                pool_nft: v[0],
                asset_lp: v[1],
                asset_x: Token { token_id: native, amount: x_amount },
                asset_y: v[2],
                fee_num,
                fee_denom: 1000,
                pool_type: PoolType::N2T,
            },
        )
    }

    /// The numeraire paid per traded token at the reserves' ratio, rounded down.
    pub fn pure_price(&self) -> (r: u64)
        ensures
            r as int == self.x() / self.y(),
    {
        let x = self.asset_x.amount.as_u64();
        let y = self.asset_y.amount.as_u64();
        x / y
    }

    /// The product of the two reserves.
    pub fn amm_factor(&self) -> (r: BigInt)
        ensures
            big_value(r) == self.x() * self.y(),
    {
        big_mul(big_from(self.asset_x.amount.as_u64()), big_from(self.asset_y.amount.as_u64()))
    }

    /// Whether the pool is well formed.
    pub fn is_valid(&self) -> (r: bool)
        ensures
            r == self.wf(),
    {
        0 < self.fee_num && self.fee_num < self.fee_denom && !(self.asset_x.token_id
            == self.asset_y.token_id)
    }

    pub fn asset_x(&self) -> (r: &Token)
        ensures
            *r == self.asset_x,
    {
        &self.asset_x
    }

    pub fn asset_y(&self) -> (r: &Token)
        ensures
            *r == self.asset_y,
    {
        &self.asset_y
    }

    /// Whether the pool holds a reserve of the asset.
    pub fn can_swap(&self, token_id: &TokenId) -> (r: bool)
        ensures
            r == (token_id@ == self.asset_x.token_id@ || token_id@ == self.asset_y.token_id@),
    {
        *token_id == self.asset_x.token_id || *token_id == self.asset_y.token_id
    }

    /// What the pool pays out for `input`.
    pub fn output_amount(&self, input: &Token) -> (r: Result<Token, LiquidityProviderError>)
        requires
            self.wf(),
        ensures
            self.input_sides(input.token_id@) is None ==> r == Err::<Token, _>(
                LiquidityProviderError::MissingToken(input.token_id),
            ),
            self.input_sides(input.token_id@) matches Some((from, to)) ==> {
                let q = self.output_quote(from, to, input.amount.spec_u64() as int);
                &&& 0 <= q < to.amount.spec_u64()
                &&& r is Ok <==> q >= 1
                &&& r is Ok ==> r->Ok_0.token_id == to.token_id && r->Ok_0.amount.spec_u64()
                    == q
                &&& q == 0 ==> r == Err::<Token, _>(
                    LiquidityProviderError::TokenAmountError(TokenAmountError::OutOfBounds(0)),
                )
            },
    {
        let (from, to) = if input.token_id == self.asset_x.token_id {
            (&self.asset_x, &self.asset_y)
        } else if input.token_id == self.asset_y.token_id {
            (&self.asset_y, &self.asset_x)
        } else {
            return Err(LiquidityProviderError::MissingToken(input.token_id));
        };
        let from_amount = from.amount.as_u64();
        let to_amount = to.amount.as_u64();
        let input_amount = input.amount.as_u64();
        let num = self.fee_num as u64;
        let denom = self.fee_denom as u64;
        let top = big_mul(big_mul(big_from(to_amount), big_from(input_amount)), big_from(num));
        let bottom = big_add(
            big_mul(big_from(from_amount), big_from(denom)),
            big_mul(big_from(input_amount), big_from(num)),
        );
        proof {
            let (f, t, i, n, d) = (
                from_amount as int,
                to_amount as int,
                input_amount as int,
                num as int,
                denom as int,
            );
            assert(t * i * n >= 0) by (nonlinear_arith)
                requires
                    t >= 1,
                    i >= 1,
                    n >= 1,
            ;
            assert(f * d + i * n > 0) by (nonlinear_arith)
                requires
                    f >= 1,
                    i >= 1,
                    n >= 1,
                    d >= 1,
            ;
        }
        proof {
            lemma_quote_keeps_product(
                from_amount as int,
                to_amount as int,
                input_amount as int,
                num as int,
                denom as int,
            );
        }
        let quotient = big_div(top, bottom);
        match big_to_u64(&quotient) {
            None => Err(LiquidityProviderError::BigIntTruncated(quotient)),
            Some(q) => match TokenAmount::try_new(q) {
                Ok(amount) => Ok(Token { token_id: to.token_id, amount }),
                Err(e) => Err(LiquidityProviderError::TokenAmountError(e)),
            },
        }
    }

    /// What must be paid in to receive `output`.
    pub fn input_amount(&self, output: &Token) -> (r: Result<Token, LiquidityProviderError>)
        requires
            self.wf(),
        ensures
            self.output_sides(output.token_id@) is None ==> r == Err::<Token, _>(
                LiquidityProviderError::MissingToken(output.token_id),
            ),
            self.output_sides(output.token_id@) matches Some((from, to)) ==> {
                let o = output.amount.spec_u64() as int;
                let q = self.input_quote(from, to, o);
                &&& o >= to.amount.spec_u64() ==> r is Err && r->Err_0
                    is InsufficientLiquidity
                &&& r is Ok <==> o < to.amount.spec_u64() && token_amount_in_bounds(q)
                &&& r is Ok ==> r->Ok_0.token_id == from.token_id && r->Ok_0.amount.spec_u64()
                    == q
                &&& o < to.amount.spec_u64() ==> q >= 1
                &&& o < to.amount.spec_u64() && q > u64::MAX ==> r is Err && r->Err_0
                    is BigIntTruncated
                &&& o < to.amount.spec_u64() && MAX_AMOUNT < q <= u64::MAX ==> r == Err::<
                    Token,
                    _,
                >(LiquidityProviderError::TokenAmountError(TokenAmountError::OutOfBounds(q as u64)))
            },
    {
        let (from, to) = if output.token_id == self.asset_y.token_id {
            (&self.asset_x, &self.asset_y)
        } else if output.token_id == self.asset_x.token_id {
            (&self.asset_y, &self.asset_x)
        } else {
            return Err(LiquidityProviderError::MissingToken(output.token_id));
        };
        let from_amount = from.amount.as_u64();
        let to_amount = to.amount.as_u64();
        let output_amount = output.amount.as_u64();
        if output_amount >= to_amount {
            return Err(LiquidityProviderError::InsufficientLiquidity);
        }
        let num = self.fee_num as u64;
        let denom = self.fee_denom as u64;
        let top = big_mul(big_mul(big_from(from_amount), big_from(output_amount)), big_from(denom));
        let bottom = big_mul(big_from(to_amount - output_amount), big_from(num));
        proof {
            let (f, o, r, n, d) = (
                from_amount as int,
                output_amount as int,
                (to_amount - output_amount) as int,
                num as int,
                denom as int,
            );
            assert(f * o * d >= 0) by (nonlinear_arith)
                requires
                    f >= 1,
                    o >= 1,
                    d >= 1,
            ;
            assert(r * n > 0) by (nonlinear_arith)
                requires
                    r >= 1,
                    n >= 1,
            ;
        }
        let quotient = big_add(big_div(top, bottom), big_from(1));
        match big_to_u64(&quotient) {
            None => Err(LiquidityProviderError::BigIntTruncated(quotient)),
            Some(q) => match TokenAmount::try_new(q) {
                Ok(amount) => Ok(Token { token_id: from.token_id, amount }),
                Err(e) => Err(LiquidityProviderError::TokenAmountError(e)),
            },
        }
    }

    /// The pool after `input` is paid in and its quote paid out.
    pub fn with_swap(self, input: &Token) -> (r: Result<SpectrumPool, LiquidityProviderError>)
        requires
            self.wf(),
        ensures
            self.input_sides(input.token_id@) is None ==> r is Err && r->Err_0
                == LiquidityProviderError::MissingToken(input.token_id),
            self.input_sides(input.token_id@) matches Some((from, to)) ==> {
                let i = input.amount.spec_u64() as int;
                let q = self.output_quote(from, to, i);
                &&& r is Ok <==> q >= 1 && from.amount.spec_u64() + i <= MAX_AMOUNT
                &&& r is Ok ==> {
                    let p = r->Ok_0;
                    &&& p.wf()
                    &&& self.same_but_reserves(p)
                    &&& input.token_id@ == self.asset_x.token_id@ ==> p.x() == self.x() + i
                        && p.y() == self.y() - q
                    &&& input.token_id@ != self.asset_x.token_id@ ==> p.x() == self.x() - q
                        && p.y() == self.y() + i
                }
            },
            r is Ok ==> r->Ok_0.x() * r->Ok_0.y() >= self.x() * self.y(),
    {
        // Bring the bounds of the three amounts into scope for the proof below.
        let _ = (self.asset_x.amount.as_u64(), self.asset_y.amount.as_u64(), input.amount.as_u64());
        proof {
            if let Some((from, to)) = self.input_sides(input.token_id@) {
                lemma_quote_keeps_product(
                    from.amount.spec_u64() as int,
                    to.amount.spec_u64() as int,
                    input.amount.spec_u64() as int,
                    self.fee_num as int,
                    self.fee_denom as int,
                );
            }
        }
        let output = self.output_amount(input)?;
        if input.token_id == self.asset_x.token_id {
            let x_amount = match self.asset_x.amount.checked_add(&input.amount) {
                Ok(a) => a,
                Err(e) => return Err(LiquidityProviderError::TokenAmountError(e)),
            };
            let y_amount = match self.asset_y.amount.checked_sub(&output.amount) {
                Ok(a) => a,
                Err(e) => return Err(LiquidityProviderError::TokenAmountError(e)),
            };
            proof {
                let (a, b, i, q) = (
                    self.x(),
                    self.y(),
                    input.amount.spec_u64() as int,
                    output.amount.spec_u64() as int,
                );
                assert((a + i) * (b - q) >= a * b);
            }
            Ok(SpectrumPool {
                asset_x: Token { token_id: self.asset_x.token_id, amount: x_amount },
                asset_y: Token { token_id: self.asset_y.token_id, amount: y_amount },
                ..self
            })
        } else {
            let x_amount = match self.asset_x.amount.checked_sub(&output.amount) {
                Ok(a) => a,
                Err(e) => return Err(LiquidityProviderError::TokenAmountError(e)),
            };
            let y_amount = match self.asset_y.amount.checked_add(&input.amount) {
                Ok(a) => a,
                Err(e) => return Err(LiquidityProviderError::TokenAmountError(e)),
            };
            proof {
                let (a, b, i, q) = (
                    self.x(),
                    self.y(),
                    input.amount.spec_u64() as int,
                    output.amount.spec_u64() as int,
                );
                assert((b + i) * (a - q) >= b * a);
                assert((a - q) * (b + i) >= a * b) by (nonlinear_arith)
                    requires
                        (b + i) * (a - q) >= b * a,
                ;
            }
            Ok(SpectrumPool {
                asset_x: Token { token_id: self.asset_x.token_id, amount: x_amount },
                asset_y: Token { token_id: self.asset_y.token_id, amount: y_amount },
                ..self
            })
        }
    }
}

} // verus!
