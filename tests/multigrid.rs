use off_the_grid::grid_order::{OrderState, OwnerKey, MIN_BOX_VALUE};
use off_the_grid::multigrid_fill::{
    best_fill, calculate_surplus, fill_multigrid_orders, LadderMatch, OrderMatchingState,
    SurplusResult,
};
use off_the_grid::multigrid_order::{
    GridOrderEntries, GridOrderEntriesError, GridOrderEntry, MultiGridOrder, MultiGridOrderError,
};
use off_the_grid::pool::{PoolType, SpectrumPool};
use off_the_grid::multigrid_order::MultiGridConfigurationError;
use off_the_grid::token::{BoxValue, Token, TokenAmount, TokenId};

fn id(first: u8) -> TokenId {
    let mut bytes = [0u8; 32];
    bytes[0] = first;
    TokenId::new(bytes)
}

fn amount(v: u64) -> TokenAmount {
    TokenAmount::try_new(v).unwrap()
}

fn owner() -> OwnerKey {
    OwnerKey { bytes: [2u8; 33] }
}

fn test_pool(x: u64, y: u64, fee_num: i32) -> SpectrumPool {
    SpectrumPool {
        pool_nft: Token::new(id(1), amount(1)),
        asset_lp: Token::new(id(2), amount(1000)),
        asset_x: Token::new(id(0), amount(x)),
        asset_y: Token::new(id(3), amount(y)),
        fee_num,
        fee_denom: 1000,
        pool_type: PoolType::N2T,
    }
}

fn test_entries(
    low: u64,
    high: u64,
    num_entries: usize,
    mut num_sell_entries: usize,
    token_amounts: Vec<u64>,
) -> GridOrderEntries {
    let step = (high - low) as usize / num_entries;
    let entries = (low..high)
        .step_by(step)
        .zip(token_amounts)
        .map(|(price, token_amount)| {
            let state = if num_sell_entries > 0 {
                num_sell_entries -= 1;
                OrderState::Sell
            } else {
                OrderState::Buy
            };
            GridOrderEntry::new(state, amount(token_amount), price, price + step as u64)
        })
        .collect();
    GridOrderEntries::new(entries)
}

fn ladder() -> GridOrderEntries {
    GridOrderEntries::new(
        (0..10)
            .map(|k| {
                GridOrderEntry::new(
                    OrderState::Buy,
                    amount(100),
                    95_000_000 + k * 1_000_000,
                    97_000_000 + k * 1_000_000,
                )
            })
            .collect(),
    )
}

#[test]
fn fill_orders_token_oob() {
    let pool = test_pool(3829747537295142317, 566054526045810730, 434);

    let entries = test_entries(1, 2, 1, 1, vec![8657317510808965078]);

    let order = MultiGridOrder::new(owner(), id(3), entries).unwrap();

    let refs = vec![order];

    let _ = fill_multigrid_orders(pool, &refs).expect("Failed to fill orders");
}

#[test]
fn best_entries_and_fills() {
    let entries = GridOrderEntries::new(vec![
        GridOrderEntry::new(OrderState::Buy, amount(10), 100, 120),
        GridOrderEntry::new(OrderState::Buy, amount(10), 110, 130),
        GridOrderEntry::new(OrderState::Sell, amount(10), 120, 140),
        GridOrderEntry::new(OrderState::Sell, amount(10), 130, 150),
    ]);
    assert_eq!(entries.bid_index(), Some(1));
    assert_eq!(entries.ask_index(), Some(2));
    assert_eq!(entries.token_amount(), 20);
    let filled = entries.into_fill_bid().unwrap();
    assert_eq!(filled.entries[1].state, OrderState::Sell);
    assert_eq!(filled.bid_index(), Some(0));
    let all_sell = GridOrderEntries::new(vec![GridOrderEntry::new(
        OrderState::Sell,
        amount(10),
        1,
        2,
    )]);
    assert!(matches!(all_sell.into_fill_bid(), Err(GridOrderEntriesError::NoBidOrders)));
    let all_buy = GridOrderEntries::new(vec![GridOrderEntry::new(
        OrderState::Buy,
        amount(10),
        1,
        2,
    )]);
    assert!(matches!(all_buy.into_fill_ask(), Err(GridOrderEntriesError::NoAskOrders)));
}

#[test]
fn register_round_trip() {
    let e = GridOrderEntry::new(OrderState::Buy, amount(7), 11, 13);
    let t = e.to_register().unwrap();
    assert_eq!(t, ((7, true), (11, 13)));
    let back = GridOrderEntry::from_register(t).unwrap();
    assert_eq!(back.order_amount(), 7);
    assert_eq!(back.state, OrderState::Buy);
    assert!(matches!(
        GridOrderEntry::from_register(((7, false), (-1, 13))),
        Err(MultiGridOrderError::TryFromIntError)
    ));
}

#[test]
fn order_value_and_overflow() {
    let order = MultiGridOrder::new(owner(), id(3), ladder()).unwrap();
    assert_eq!(order.value.as_u64(), MIN_BOX_VALUE + 995_000_000);
    assert_eq!(order.profit(), 0);
    let huge = GridOrderEntries::new(vec![
        GridOrderEntry::new(OrderState::Buy, amount(1), u64::MAX / 2, 0),
        GridOrderEntry::new(OrderState::Buy, amount(1), u64::MAX / 2, 0),
    ]);
    assert!(matches!(
        MultiGridOrder::new(owner(), id(3), huge),
        Err(MultiGridOrderError::ValueOverflow)
    ));
}

#[test]
fn surplus_of_a_buy() {
    let pool = test_pool(1_000_000_000_000, 1_000_000, 997);
    let e = GridOrderEntry::new(OrderState::Buy, amount(100), 104_000_000, 106_000_000);
    let r = calculate_surplus(&pool, &e, 0, 0).unwrap();
    assert_eq!(r, SurplusResult::new(OrderState::Buy, 104_000_000, -100, 3_689_066));
}

#[test]
fn multi_engine_empty_orders() {
    let pool = test_pool(1_000_000_000_000, 1_000_000, 997);
    let (after, filled) = fill_multigrid_orders(pool, &vec![]).unwrap();
    assert!(filled.is_empty());
    assert_eq!(after.asset_x.amount, pool.asset_x.amount);
    assert_eq!(after.asset_y.amount, pool.asset_y.amount);
}

#[test]
fn multi_engine_fills_best_bids_in_order() {
    let pool = test_pool(1_000_000_000_000, 1_000_000, 997);
    let order = MultiGridOrder::new(owner(), id(3), ladder()).unwrap();
    let (after, filled) = fill_multigrid_orders(pool, &vec![order]).unwrap();
    assert_eq!(filled.len(), 1);
    let (index, filled_order) = &filled[0];
    assert_eq!(*index, 0);
    let states: Vec<OrderState> = filled_order.entries.entries.iter().map(|e| e.state).collect();
    let mut expected = vec![OrderState::Buy; 6];
    expected.extend(vec![OrderState::Sell; 4]);
    assert_eq!(states, expected);
    assert_eq!(filled_order.value.as_u64(), MIN_BOX_VALUE + 995_000_000 - 410_000_000);
    assert_eq!(after.asset_x.amount.as_u64(), 1_000_401_364_157);
    assert_eq!(after.asset_y.amount.as_u64(), 999_600);
}

#[test]
fn multigrid_record_validation() {
    let regs = vec![((10, true), (100, 120)), ((10, false), (110, 130))];
    let value = BoxValue::try_new(MIN_BOX_VALUE + 210).unwrap();
    let held = vec![Token::new(id(3), amount(10))];
    let ok = MultiGridOrder::from_record(owner(), &regs, id(3), Some(held.clone()), value).unwrap();
    assert_eq!(ok.entries.entries.len(), 2);
    // A record holding tokens must still cover the bids of its buying rungs.
    let minimum = BoxValue::try_new(10800).unwrap();
    let big_bid = vec![((1, true), (5_000_000, 6_000_000)), ((10, false), (110, 130))];
    assert!(matches!(
        MultiGridOrder::from_record(owner(), &big_bid, id(3), Some(held), minimum),
        Err(MultiGridOrderError::InvalidConfiguration(MultiGridConfigurationError::BidValue(
            need, held
        ))) if need == MIN_BOX_VALUE + 5_000_000 && held == 10800
    ));
    assert!(matches!(
        MultiGridOrder::from_record(owner(), &regs, id(3), None, value),
        Err(MultiGridOrderError::InvalidConfiguration(MultiGridConfigurationError::TokenLength(0)))
    ));
    let wrong = vec![Token::new(id(3), amount(9))];
    assert!(matches!(
        MultiGridOrder::from_record(owner(), &regs, id(3), Some(wrong), value),
        Err(MultiGridOrderError::InvalidConfiguration(MultiGridConfigurationError::TokenAmount(
            10, 9
        )))
    ));
    let buys = vec![((10, true), (100, 120)), ((10, true), (110, 130))];
    let short = BoxValue::try_new(MIN_BOX_VALUE + 209).unwrap();
    assert!(matches!(
        MultiGridOrder::from_record(owner(), &buys, id(3), None, short),
        Err(MultiGridOrderError::InvalidConfiguration(MultiGridConfigurationError::BidValue(
            need, held
        ))) if need == MIN_BOX_VALUE + 210 && held == MIN_BOX_VALUE + 209
    ));
    let extra = vec![Token::new(id(3), amount(1))];
    assert!(matches!(
        MultiGridOrder::from_record(owner(), &buys, id(3), Some(extra), value),
        Err(MultiGridOrderError::InvalidConfiguration(
            MultiGridConfigurationError::TokenLengthNonZero(1)
        ))
    ));
    let bad = vec![((0, true), (100, 120))];
    assert!(matches!(
        MultiGridOrder::from_record(owner(), &bad, id(3), None, value),
        Err(MultiGridOrderError::TokenAmountError(_))
    ));
}

#[test]
fn with_entries_moves_value() {
    let order = MultiGridOrder::new(owner(), id(3), ladder()).unwrap();
    let filled = GridOrderEntries::new(
        order
            .entries
            .entries
            .iter()
            .enumerate()
            .map(|(i, e)| {
                let state = if i == 9 { OrderState::Sell } else { e.state };
                GridOrderEntry::new(state, e.token_amount, e.bid_value, e.ask_value)
            })
            .collect(),
    );
    let next = order.with_entries(filled).unwrap();
    assert_eq!(next.value.as_u64(), MIN_BOX_VALUE + 995_000_000 - 104_000_000);
    assert_eq!(next.profit(), 0);
    assert_eq!(next.bid().unwrap().numer, 103_000_000);
    assert_eq!(next.ask().unwrap().numer, 106_000_000);
}

#[test]
fn running_surplus_rises_with_each_fill() {
    let pool = test_pool(1_000_000_000_000, 1_000_000, 997);
    let mut ladders = vec![LadderMatch { state: OrderMatchingState::NotMatched, entries: ladder() }];
    let (mut x, mut y, mut surplus) = (0i64, 0i64, 0i64);
    let mut surpluses = vec![];
    while let Some((i, c)) = best_fill(&pool, &ladders, x, y) {
        if c.surplus <= surplus {
            break;
        }
        assert!(c.surplus > surplus);
        let l = ladders.remove(i);
        ladders.insert(i, l.fill(c.matched_state));
        x = c.new_x;
        y = c.new_y;
        surplus = c.surplus;
        surpluses.push(surplus);
    }
    assert_eq!(surpluses, vec![3_689_066, 6_358_066, 8_006_993, 8_635_843]);
    assert_eq!(ladders[0].state, OrderMatchingState::MatchedBid);
}

#[test]
fn ties_pick_last_bid_and_first_ask() {
    let entries = GridOrderEntries::new(vec![
        GridOrderEntry::new(OrderState::Buy, amount(10), 100, 150),
        GridOrderEntry::new(OrderState::Buy, amount(20), 200, 300),
        GridOrderEntry::new(OrderState::Sell, amount(10), 100, 150),
        GridOrderEntry::new(OrderState::Sell, amount(20), 100, 300),
    ]);
    assert_eq!(entries.bid_index(), Some(1));
    assert_eq!(entries.ask_index(), Some(2));
}

#[test]
fn multi_engine_three_single_rung_ladders() {
    let pool = test_pool(1_000_000_000_000, 1_000_000, 997);
    let rung = |bid: u64| {
        let entries =
            GridOrderEntries::new(vec![GridOrderEntry::new(OrderState::Buy, amount(100), bid, bid + 5_000_000)]);
        MultiGridOrder::new(owner(), id(3), entries).unwrap()
    };
    let orders = vec![rung(90_000_000), rung(102_000_000), rung(110_000_000)];
    let (after, filled) = fill_multigrid_orders(pool, &orders).unwrap();
    let indices: Vec<usize> = filled.iter().map(|(i, _)| *i).collect();
    assert_eq!(indices, vec![1, 2]);
    for (_, o) in &filled {
        assert_eq!(o.entries.entries[0].state, OrderState::Sell);
        assert_eq!(o.value.as_u64(), MIN_BOX_VALUE);
    }
    assert_eq!(after.asset_x.amount.as_u64(), 1_000_200_641_934);
    assert_eq!(after.asset_y.amount.as_u64(), 999_800);
}
