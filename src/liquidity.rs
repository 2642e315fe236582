//! Constant-product quote arithmetic and the errors of a liquidity provider.
use crate::token::{BoxValueError, TokenAmountError, TokenId};
use num_bigint::BigInt;
use vstd::prelude::*;

verus! {

#[derive(Debug)]
pub enum LiquidityProviderError {
    /// The pool cannot give the amount asked for.
    InsufficientLiquidity,
    /// The pool holds no reserve of this asset.
    MissingToken(TokenId),
    BoxValueError(BoxValueError),
    TokenAmountError(TokenAmountError),
    /// A quote does not fit 64 bits.
    BigIntTruncated(BigInt),
}

/// What a pool with reserves `from` and `to` pays out for `input` units of the
/// `from` asset, with the fee `num / denom` taken from the input.
pub open spec fn quote_output(from: int, to: int, input: int, num: int, denom: int) -> int {
    (to * input * num) / (from * denom + input * num)
}

/// What must be paid into a pool with reserves `from` and `to` to receive `output`
/// units of the `to` asset; rounded up by one so the pool is never left short.
pub open spec fn quote_input(from: int, to: int, output: int, num: int, denom: int) -> int {
    (from * output * denom) / ((to - output) * num) + 1
}

/// A swap at `quote_output` never lowers the product of the reserves, and never
/// pays out the whole `to` reserve.
pub proof fn lemma_quote_keeps_product(from: int, to: int, input: int, num: int, denom: int)
    requires
        from >= 1,
        to >= 1,
        input >= 1,
        0 < num < denom,
    ensures
        0 <= quote_output(from, to, input, num, denom) < to,
        (from + input) * (to - quote_output(from, to, input, num, denom)) >= from * to,
{
    let q = quote_output(from, to, input, num, denom);
    let a = to * input * num;
    let b = from * denom + input * num;
    assert(b > 0) by (nonlinear_arith)
        requires
            from >= 1,
            input >= 1,
            0 < num < denom,
            b == from * denom + input * num,
    ;
    assert(a >= 0) by (nonlinear_arith)
        requires
            to >= 1,
            input >= 1,
            num > 0,
            a == to * input * num,
    ;
    assert(q * b <= a && q >= 0) by (nonlinear_arith)
        requires
            q == a / b,
            b > 0,
            a >= 0,
    ;
    assert(b >= (from + input) * num) by (nonlinear_arith)
        requires
            from >= 1,
            num < denom,
            b == from * denom + input * num,
    ;
    assert(q * (from + input) * num <= q * b) by (nonlinear_arith)
        requires
            q >= 0,
            b >= (from + input) * num,
    ;
    assert(q * (from + input) <= to * input) by (nonlinear_arith)
        requires
            q * (from + input) * num <= q * b,
            q * b <= a,
            a == to * input * num,
            num > 0,
    ;
    assert(q * b < to * b) by (nonlinear_arith)
        requires
            q * b <= a,
            a == to * input * num,
            b == from * denom + input * num,
            from >= 1,
            denom > 0,
            to >= 1,
    ;
    assert(q < to) by (nonlinear_arith)
        requires
            q * b < to * b,
            b > 0,
    ;
    assert((from + input) * (to - q) >= from * to) by (nonlinear_arith)
        requires
            q * (from + input) <= to * input,
    ;
}

} // verus!
