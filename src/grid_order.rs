//! A single standing grid order, alternating between buying and selling.
use crate::token::{
    box_value_in_bounds, BoxValue, BoxValueError, Token, TokenAmount, TokenAmountError,
    TokenId, MAX_AMOUNT,
};
use crate::units::Fraction;
use vstd::prelude::*;

verus! {

/// Native value that every order record keeps besides its collateral.
pub const MIN_BOX_VALUE: u64 = 1000000;

/// Largest fee a settlement transaction pays.
pub const MAX_FEE: u64 = 2000000;

/// Public key of an order's owner, in compressed form.
#[derive(Clone, Copy, Debug)]
pub struct OwnerKey {
    pub bytes: [u8; 33],
}

#[derive(Clone, Copy, Debug, PartialEq, Eq, Structural)]
pub enum OrderState {
    Buy,
    Sell,
}

#[derive(Clone, Copy, Debug)]
pub enum GridConfigurationError {
    /// Expected id, then the id found.
    TokenId(TokenId, TokenId),
    /// Expected amount, then the amount found.
    TokenAmount(TokenAmount, TokenAmount),
    TokenLength(usize),
    /// Value held, then the value needed.
    BidValue(u64, u64),
}

#[derive(Clone, Copy, Debug)]
pub enum GridOrderError {
    BoxValueError(BoxValueError),
    TokenAmountError(TokenAmountError),
    InvalidConfiguration(GridConfigurationError),
    /// A register held a negative number.
    TryFromIntError,
}

#[derive(Clone, Copy, Debug)]
pub struct GridOrder {
    pub owner: OwnerKey,
    pub bid_value: u64,
    pub ask_value: u64,
    pub token: Token,
    pub state: OrderState,
    pub value: BoxValue,
}

/// The collateral an order holds in a state: the minimum, plus its bid while buying.
pub open spec fn collateral(state: OrderState, bid_value: int) -> int {
    match state {
        OrderState::Sell => MIN_BOX_VALUE as int,
        OrderState::Buy => MIN_BOX_VALUE + bid_value,
    }
}

impl GridOrder {
    pub open spec fn v(self) -> int {
        self.value.spec_u64() as int
    }

    pub open spec fn amount(self) -> int {
        self.token.amount.spec_u64() as int
    }

    /// Prices fit the ledger's integers and the collateral covers the state.
    pub open spec fn wf(self) -> bool {
        &&& self.bid_value <= MAX_AMOUNT
        &&& self.ask_value <= MAX_AMOUNT
        &&& self.v() >= collateral(self.state, self.bid_value as int)
    }

    /// The order after one fill, if its new value is representable.
    pub open spec fn filled(self) -> Option<GridOrder> {
        let v = match self.state {
            OrderState::Sell => self.v() + self.ask_value,
            OrderState::Buy => self.v() - self.bid_value,
        };
        if box_value_in_bounds(v) {
            Some(
                GridOrder {
                    value: BoxValue::from_spec(v as u64),
                    state: match self.state {
                        OrderState::Sell => OrderState::Buy,
                        OrderState::Buy => OrderState::Sell,
                    },
                    ..self
                },
            )
        } else {
            None
        }
    }

    /// Whether the order is well formed.
    pub fn is_valid(&self) -> (r: bool)
        ensures
            r == self.wf(),
    {
        let v = self.value.as_u64();
        self.bid_value <= MAX_AMOUNT && self.ask_value <= MAX_AMOUNT && match self.state {
            OrderState::Sell => v >= MIN_BOX_VALUE,
            OrderState::Buy => v as u128 >= MIN_BOX_VALUE as u128 + self.bid_value as u128,
        }
    }

    /// An order holding exactly the collateral of its state.
    pub fn new(
        owner: OwnerKey,
        bid_value: u64,
        ask_value: u64,
        token: Token,
        state: OrderState,
    ) -> (r: Result<GridOrder, GridOrderError>)
        ensures
            r is Ok <==> box_value_in_bounds(collateral(state, bid_value as int)),
            r is Ok ==> {
                let o = r->Ok_0;
                &&& o.owner == owner && o.bid_value == bid_value && o.ask_value == ask_value
                &&& o.token == token && o.state == state
                &&& o.v() == collateral(state, bid_value as int)
            },
    {
        let v = match state {
            OrderState::Sell => MIN_BOX_VALUE,
            OrderState::Buy => {
                if bid_value > MAX_AMOUNT - MIN_BOX_VALUE {
                    return Err(GridOrderError::BoxValueError(BoxValueError::OutOfBounds(bid_value)));
                }
                MIN_BOX_VALUE + bid_value
            },
        };
        match BoxValue::try_new(v) {
            Ok(value) => Ok(GridOrder { owner, bid_value, ask_value, token, state, value }),
            Err(e) => Err(GridOrderError::BoxValueError(e)),
        }
    }

    pub fn order_amount(&self) -> (r: u64)
        ensures
            r as int == self.amount(),
            1 <= r <= MAX_AMOUNT,
    {
        self.token.amount.as_u64()
    }

    /// Price per token of the buy side.
    pub fn bid(&self) -> (r: Fraction)
        ensures
            r.numer == self.bid_value && r.denom as int == self.amount(),
    {
        Fraction::new(self.bid_value, self.order_amount())
    }

    /// Price per token of the sell side.
    pub fn ask(&self) -> (r: Fraction)
        ensures
            r.numer == self.ask_value && r.denom as int == self.amount(),
    {
        Fraction::new(self.ask_value, self.order_amount())
    }

    /// Reads an order out of a ledger record's contents: the owner, the prices and
    /// the traded amount from its registers, the tokens it holds and its value.
    /// A record without tokens is buying and must hold its collateral; one with
    /// tokens is selling and must hold exactly the traded amount, and nothing else.
    pub fn from_record(
        owner: OwnerKey,
        bid_value: i64,
        ask_value: i64,
        token_id: TokenId,
        order_amount: i64,
        tokens: Option<Vec<Token>>,
        value: BoxValue,
    ) -> (r: Result<GridOrder, GridOrderError>)
        ensures
            bid_value < 0 || ask_value < 0 || order_amount < 0 ==> r
                == Err::<GridOrder, _>(GridOrderError::TryFromIntError),
            bid_value >= 0 && ask_value >= 0 && order_amount == 0 ==> r == Err::<GridOrder, _>(
                GridOrderError::TokenAmountError(TokenAmountError::OutOfBounds(0)),
            ),
            bid_value >= 0 && ask_value >= 0 && order_amount > 0 ==> match tokens {
                None => {
                    &&& value.spec_u64() < MIN_BOX_VALUE + bid_value ==> r == Err::<GridOrder, _>(
                        GridOrderError::InvalidConfiguration(
                            GridConfigurationError::BidValue(
                                value.spec_u64(),
                                (MIN_BOX_VALUE + bid_value) as u64,
                            ),
                        ),
                    )
                    &&& value.spec_u64() >= MIN_BOX_VALUE + bid_value ==> r is Ok
                        && r->Ok_0.state == OrderState::Buy
                },
                Some(v) => {
                    &&& v.len() != 1 ==> r == Err::<GridOrder, _>(
                        GridOrderError::InvalidConfiguration(
                            GridConfigurationError::TokenLength(v.len()),
                        ),
                    )
                    &&& v.len() == 1 && v[0].token_id@ != token_id@ ==> r == Err::<GridOrder, _>(
                        GridOrderError::InvalidConfiguration(
                            GridConfigurationError::TokenId(token_id, v[0].token_id),
                        ),
                    )
                    &&& v.len() == 1 && v[0].token_id@ == token_id@ && v[0].amount.spec_u64()
                        != order_amount ==> (r matches Err(
                        GridOrderError::InvalidConfiguration(
                            GridConfigurationError::TokenAmount(e, g),
                        ),
                    ) && e.spec_u64() == order_amount && g == v[0].amount)
                    &&& v.len() == 1 && v[0].token_id@ == token_id@ && v[0].amount.spec_u64()
                        == order_amount ==> r is Ok && r->Ok_0.state == OrderState::Sell
                },
            },
            r is Ok ==> {
                let o = r->Ok_0;
                &&& o.owner == owner && o.value == value
                &&& o.bid_value == bid_value && o.ask_value == ask_value
                &&& o.token.token_id == token_id && o.amount() == order_amount
                &&& o.state == OrderState::Buy ==> o.wf()
            },
    {
        if bid_value < 0 || ask_value < 0 || order_amount < 0 {
            return Err(GridOrderError::TryFromIntError);
        }
        let amount = match TokenAmount::try_new(order_amount as u64) {
            Ok(a) => a,
            Err(e) => return Err(GridOrderError::TokenAmountError(e)),
        };
        let bid = bid_value as u64;
        let ask = ask_value as u64;
        let token = Token { token_id, amount };
        match tokens {
            None => {
                let min_value = MIN_BOX_VALUE + bid;
                let current = value.as_u64();
                if current < min_value {
                    Err(
                        GridOrderError::InvalidConfiguration(
                            GridConfigurationError::BidValue(current, min_value),
                        ),
                    )
                } else {
                    Ok(
                        GridOrder {
                            owner,
                            bid_value: bid,
                            ask_value: ask,
                            token,
                            state: OrderState::Buy,
                            value,
                        },
                    )
                }
            },
            Some(v) => {
                if v.len() != 1 {
                    Err(
                        GridOrderError::InvalidConfiguration(
                            GridConfigurationError::TokenLength(v.len()),
                        ),
                    )
                } else if v[0].token_id != token_id {
                    Err(
                        GridOrderError::InvalidConfiguration(
                            GridConfigurationError::TokenId(token_id, v[0].token_id),
                        ),
                    )
                } else if v[0].amount.as_u64() != amount.as_u64() {
                    Err(
                        GridOrderError::InvalidConfiguration(
                            GridConfigurationError::TokenAmount(amount, v[0].amount),
                        ),
                    )
                } else {
                    Ok(
                        GridOrder {
                            owner,
                            bid_value: bid,
                            ask_value: ask,
                            token,
                            state: OrderState::Sell,
                            value,
                        },
                    )
                }
            },
        }
    }

    /// Native value the order has collected beyond its collateral.
    pub fn profit(&self) -> (r: u64)
        requires
            self.wf(),
        ensures
            r as int == self.v() - collateral(self.state, self.bid_value as int),
    {
        let v = self.value.as_u64();
        match self.state {
            OrderState::Sell => v - MIN_BOX_VALUE,
            OrderState::Buy => v - MIN_BOX_VALUE - self.bid_value,
        }
    }

    /// The order after it is matched: a buy pays its bid and becomes a sell, a
    /// sell receives its ask and becomes a buy.
    pub fn into_filled(self) -> (r: Result<GridOrder, GridOrderError>)
        ensures
            self.filled() is Some <==> r is Ok,
            r is Ok ==> r->Ok_0 == self.filled()->Some_0,
    {
        let v = self.value.as_u64();
        let nv: u64 = match self.state {
            OrderState::Sell => {
                if self.ask_value > MAX_AMOUNT - v {
                    return Err(GridOrderError::BoxValueError(BoxValueError::OutOfBounds(MAX_AMOUNT)));
                }
                v + self.ask_value
            },
            OrderState::Buy => {
                if self.bid_value > v {
                    return Err(GridOrderError::BoxValueError(BoxValueError::OutOfBounds(0)));
                }
                v - self.bid_value
            },
        };
        let value = match BoxValue::try_new(nv) {
            Ok(value) => value,
            Err(e) => return Err(GridOrderError::BoxValueError(e)),
        };
        proof {
            BoxValue::lemma_from_spec(value);
        }
        let state = match self.state {
            OrderState::Sell => OrderState::Buy,
            OrderState::Buy => OrderState::Sell,
        };
        Ok(GridOrder { value, state, ..self })
    }
}

/// Filling an order twice brings it back to its state, with its value moved by
/// `ask_value - bid_value`, the profit of one round; where the two prices are equal
/// the order comes back exactly as it was.
pub proof fn lemma_fill_twice(o: GridOrder)
    requires
        o.filled() is Some,
        o.filled()->Some_0.filled() is Some,
    ensures
        o.filled()->Some_0.filled()->Some_0.state == o.state,
        o.filled()->Some_0.filled()->Some_0.v() == o.v() + o.ask_value - o.bid_value,
        o.bid_value == o.ask_value ==> o.filled()->Some_0.filled()->Some_0 == o,
{
    let o1 = o.filled()->Some_0;
    let o2 = o1.filled()->Some_0;
    let v1 = match o.state {
        OrderState::Sell => o.v() + o.ask_value,
        OrderState::Buy => o.v() - o.bid_value,
    };
    BoxValue::lemma_from_spec_value(v1 as u64);
    let v2 = match o1.state {
        OrderState::Sell => o1.v() + o1.ask_value,
        OrderState::Buy => o1.v() - o1.bid_value,
    };
    BoxValue::lemma_from_spec_value(v2 as u64);
    BoxValue::lemma_from_spec(o.value);
}

} // verus!
