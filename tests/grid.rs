use off_the_grid::grid_fill::{best_grid_fill, fill_grid_orders, settlement_change};
use off_the_grid::grid_order::{
    GridConfigurationError, GridOrder, GridOrderError, OrderState, OwnerKey, MIN_BOX_VALUE,
};
use off_the_grid::pool::{PoolType, SpectrumPool};
use off_the_grid::token::{BoxValue, Token, TokenAmount, TokenId};

fn id(first: u8) -> TokenId {
    let mut bytes = [0u8; 32];
    bytes[0] = first;
    TokenId::new(bytes)
}

fn amount(v: u64) -> TokenAmount {
    TokenAmount::try_new(v).unwrap()
}

fn owner() -> OwnerKey {
    OwnerKey { bytes: [2u8; 33] }
}

fn pool(x: u64, y: u64, fee_num: i32) -> SpectrumPool {
    SpectrumPool {
        pool_nft: Token::new(id(1), amount(1)),
        asset_lp: Token::new(id(2), amount(1000)),
        asset_x: Token::new(id(0), amount(x)),
        asset_y: Token::new(id(3), amount(y)),
        fee_num,
        fee_denom: 1000,
        pool_type: PoolType::N2T,
    }
}

fn buy_order(bid: u64, ask: u64, tokens: u64) -> GridOrder {
    GridOrder::new(owner(), bid, ask, Token::new(id(3), amount(tokens)), OrderState::Buy).unwrap()
}

#[test]
fn new_order_holds_its_collateral() {
    let buy = buy_order(5000, 6000, 10);
    assert_eq!(buy.value.as_u64(), MIN_BOX_VALUE + 5000);
    let sell =
        GridOrder::new(owner(), 5000, 6000, Token::new(id(3), amount(10)), OrderState::Sell)
            .unwrap();
    assert_eq!(sell.value.as_u64(), MIN_BOX_VALUE);
    assert_eq!(buy.profit(), 0);
    assert!(buy.bid().lt(&buy.ask()));
}

#[test]
fn fill_twice_restores_state_and_moves_value_by_spread() {
    let order = buy_order(5000, 6000, 10);
    let once = order.into_filled().unwrap();
    assert_eq!(once.state, OrderState::Sell);
    assert_eq!(once.value.as_u64(), MIN_BOX_VALUE);
    let twice = once.into_filled().unwrap();
    assert_eq!(twice.state, OrderState::Buy);
    assert_eq!(twice.value.as_u64(), MIN_BOX_VALUE + 5000 + 1000);
    assert_eq!(twice.profit(), 1000);

    let flat = buy_order(5000, 5000, 10);
    let back = flat.into_filled().unwrap().into_filled().unwrap();
    assert_eq!(back.state, flat.state);
    assert_eq!(back.value, flat.value);
}

#[test]
fn record_validation() {
    let value = BoxValue::try_new(MIN_BOX_VALUE + 100).unwrap();
    let ok = GridOrder::from_record(owner(), 100, 200, id(3), 5, None, value).unwrap();
    assert_eq!(ok.state, OrderState::Buy);

    let short = BoxValue::try_new(MIN_BOX_VALUE + 99).unwrap();
    assert!(matches!(
        GridOrder::from_record(owner(), 100, 200, id(3), 5, None, short),
        Err(GridOrderError::InvalidConfiguration(GridConfigurationError::BidValue(v, m)))
            if v == MIN_BOX_VALUE + 99 && m == MIN_BOX_VALUE + 100
    ));
    assert!(matches!(
        GridOrder::from_record(owner(), -1, 200, id(3), 5, None, value),
        Err(GridOrderError::TryFromIntError)
    ));
    let held = vec![Token::new(id(3), amount(5))];
    let sell = GridOrder::from_record(owner(), 100, 200, id(3), 5, Some(held), value).unwrap();
    assert_eq!(sell.state, OrderState::Sell);
    let wrong = vec![Token::new(id(4), amount(5))];
    assert!(matches!(
        GridOrder::from_record(owner(), 100, 200, id(3), 5, Some(wrong), value),
        Err(GridOrderError::InvalidConfiguration(GridConfigurationError::TokenId(_, _)))
    ));
    let fewer = vec![Token::new(id(3), amount(4))];
    assert!(matches!(
        GridOrder::from_record(owner(), 100, 200, id(3), 5, Some(fewer), value),
        Err(GridOrderError::InvalidConfiguration(GridConfigurationError::TokenAmount(_, _)))
    ));
    assert!(matches!(
        GridOrder::from_record(owner(), 100, 200, id(3), 5, Some(vec![]), value),
        Err(GridOrderError::InvalidConfiguration(GridConfigurationError::TokenLength(0)))
    ));
}

#[test]
fn single_engine_empty_orders() {
    let p = pool(1_000_000_000_000, 1_000_000, 997);
    let (after, filled) = fill_grid_orders(p, &vec![]).unwrap();
    assert!(filled.is_empty());
    assert_eq!(after.asset_x.amount, p.asset_x.amount);
    assert_eq!(after.asset_y.amount, p.asset_y.amount);
}

#[test]
fn single_engine_fills_orders_that_clear_the_quote() {
    let p = pool(1_000_000_000_000, 1_000_000, 997);
    let orders = vec![
        buy_order(90_000_000, 95_000_000, 100),
        buy_order(102_000_000, 107_000_000, 100),
        buy_order(110_000_000, 115_000_000, 100),
    ];
    let (after, filled) = fill_grid_orders(p, &orders).unwrap();
    let indices: Vec<usize> = filled.iter().map(|(i, _)| *i).collect();
    assert_eq!(indices, vec![2, 1]);
    for (i, o) in filled.iter() {
        assert_eq!(o.state, OrderState::Sell);
        assert_eq!(o.value.as_u64(), MIN_BOX_VALUE);
        assert_eq!(o.bid_value, orders[*i].bid_value);
    }
    // Two fills of 100 tokens cost 200_641_934 in total; the pool pays out 200 tokens.
    assert_eq!(after.asset_x.amount.as_u64(), 1_000_200_641_934);
    assert_eq!(after.asset_y.amount.as_u64(), 999_800);
}

#[test]
fn single_engine_sells() {
    let p = pool(1_000_000_000_000, 1_000_000, 997);
    let sell = GridOrder::new(
        owner(),
        90_000_000,
        95_000_000,
        Token::new(id(3), amount(100)),
        OrderState::Sell,
    )
    .unwrap();
    let (after, filled) = fill_grid_orders(p, &vec![sell]).unwrap();
    assert_eq!(filled.len(), 1);
    assert_eq!(filled[0].1.state, OrderState::Buy);
    assert_eq!(filled[0].1.value.as_u64(), MIN_BOX_VALUE + 95_000_000);
    assert_eq!(after.asset_y.amount.as_u64(), 1_000_100);
    assert!(after.asset_x.amount.as_u64() < 1_000_000_000_000 - 95_000_000);
}

#[test]
fn settlement_change_after_fills() {
    let p = pool(1_000_000_000_000, 1_000_000, 997);
    let orders = vec![
        buy_order(90_000_000, 95_000_000, 100),
        buy_order(102_000_000, 107_000_000, 100),
        buy_order(110_000_000, 115_000_000, 100),
    ];
    let (after, filled) = fill_grid_orders(p, &orders).unwrap();
    // The orders give up 212_000_000 and the pool takes 200_641_934 of it.
    let change = settlement_change(&orders, &p, &after, &filled).unwrap();
    assert_eq!(change, 212_000_000 - 200_641_934 - 2_000_000);
    assert_eq!(settlement_change(&orders, &p, &p, &vec![]), None);
    assert!(p.pure_price() == 1_000_000);
}

#[test]
fn single_engine_commits_only_positive_surplus() {
    let p = pool(1_000_000_000_000, 1_000_000, 997);
    let orders = vec![
        buy_order(90_000_000, 95_000_000, 100),
        buy_order(102_000_000, 107_000_000, 100),
        buy_order(110_000_000, 115_000_000, 100),
    ];
    let mut done = vec![false; 3];
    let (mut total_in, mut total_out) = (0u64, 0u64);
    let mut running: i128 = 0;
    let mut steps = vec![];
    while let Some((i, (new_in, new_out, surplus))) =
        best_grid_fill(&p, &orders, &done, total_in, total_out)
    {
        assert!(surplus > 0);
        running += surplus;
        steps.push((i, surplus, running));
        done[i] = true;
        total_in = new_in;
        total_out = new_out;
    }
    assert_eq!(steps, vec![(2, 9_689_066, 9_689_066), (1, 1_669_000, 11_358_066)]);
}
