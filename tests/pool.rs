use off_the_grid::liquidity::LiquidityProviderError;
use off_the_grid::matcher::BoxId;
use off_the_grid::pool::{PoolType, SpectrumPool, SpectrumPoolError};
use off_the_grid::token::{Token, TokenAmount, TokenAmountError, TokenId};

fn id(first: u8) -> TokenId {
    let mut bytes = [0u8; 32];
    bytes[0] = first;
    TokenId::new(bytes)
}

fn amount(v: u64) -> TokenAmount {
    TokenAmount::try_new(v).unwrap()
}

fn test_pool(x_amount: u64, y_amount: u64) -> SpectrumPool {
    SpectrumPool {
        pool_nft: Token::new(id(1), amount(1)),
        asset_lp: Token::new(id(2), amount(1000)),
        asset_x: Token::new(id(0), amount(x_amount)),
        asset_y: Token::new(id(3), amount(y_amount)),
        fee_num: 998,
        fee_denom: 1000,
        pool_type: PoolType::N2T,
    }
}

#[test]
fn swap_output() {
    let pool = test_pool(1000000000, 1000);

    let mut input = pool.asset_x;
    input.amount = amount(500000000);

    let output = pool.output_amount(&input).expect("Swap failed");

    assert_eq!(output.token_id, pool.asset_y.token_id);
    assert_eq!(output.amount, amount(332));

    let swapped = pool.with_swap(&input).expect("Swap failed");

    assert_eq!(swapped.asset_y.amount, amount(668));
    assert_eq!(swapped.asset_x.amount, amount(1500000000));
}

#[test]
fn swap_keeps_reserve_product() {
    let pool = test_pool(1000000000, 1000);
    let input = Token::new(id(3), amount(250));
    let swapped = pool.with_swap(&input).unwrap();
    let before = pool.asset_x.amount.as_u64() as u128 * pool.asset_y.amount.as_u64() as u128;
    let after =
        swapped.asset_x.amount.as_u64() as u128 * swapped.asset_y.amount.as_u64() as u128;
    assert!(after >= before);
    // 10^9 * 250 * 998 / (1000 * 1000 + 250 * 998) = 199_679_871
    assert_eq!(swapped.asset_x.amount.as_u64(), 1000000000 - 199679871);
    assert_eq!(swapped.asset_y.amount.as_u64(), 1250);
}

#[test]
fn input_amount_rounds_up() {
    let pool = test_pool(1000000000, 1000);
    let output = Token::new(id(3), amount(332));
    let input = pool.input_amount(&output).unwrap();
    assert_eq!(input.token_id, id(0));
    // 10^9 * 332 * 1000 / (668 * 998) + 1
    assert_eq!(input.amount.as_u64(), 498001992 + 1);
}

#[test]
fn input_amount_insufficient_liquidity() {
    let pool = test_pool(1000000000, 1000);
    let output = Token::new(id(3), amount(1000));
    assert!(matches!(
        pool.input_amount(&output),
        Err(LiquidityProviderError::InsufficientLiquidity)
    ));
}

#[test]
fn output_amount_unknown_token() {
    let pool = test_pool(1000000000, 1000);
    let input = Token::new(id(9), amount(10));
    match pool.output_amount(&input) {
        Err(LiquidityProviderError::MissingToken(t)) => assert_eq!(t, id(9)),
        _ => panic!("expected a missing token"),
    }
    assert!(!pool.can_swap(&id(9)));
    assert!(pool.can_swap(&id(3)));
}

#[test]
fn output_amount_rounds_to_zero() {
    let pool = test_pool(1000000000, 1000);
    let input = Token::new(id(0), amount(1));
    assert!(matches!(
        pool.output_amount(&input),
        Err(LiquidityProviderError::TokenAmountError(TokenAmountError::OutOfBounds(0)))
    ));
}

#[test]
fn token_amount_bounds() {
    assert!(TokenAmount::try_new(0).is_err());
    assert!(TokenAmount::try_new(9223372036854775807).is_ok());
    assert!(TokenAmount::try_new(9223372036854775808).is_err());
    assert!(amount(5).checked_sub(&amount(5)).is_err());
    assert_eq!(amount(5).checked_add(&amount(6)).unwrap().as_u64(), 11);
}

#[test]
fn pool_type_name() {
    assert_eq!(PoolType::N2T.as_str(), "N2T");
}

#[test]
fn pool_from_record() {
    let tokens = vec![
        Token::new(id(1), amount(1)),
        Token::new(id(2), amount(1000)),
        Token::new(id(3), amount(500)),
    ];
    let p = SpectrumPool::from_record(BoxId::new([7u8; 32]), true, Some(tokens.clone()), Some(997), 10_000)
        .unwrap();
    assert_eq!(p.asset_x.token_id, TokenId::new([0u8; 32]));
    assert_eq!(p.asset_x.amount.as_u64(), 10_000);
    assert_eq!(p.asset_y.token_id, id(3));
    assert_eq!(p.fee_num, 997);
    assert!(p.is_valid());
    assert!(matches!(
        SpectrumPool::from_record(BoxId::new([7u8; 32]), true, Some(tokens[..2].to_vec()), Some(997), 10_000),
        Err(SpectrumPoolError::BoxParseFailure(_))
    ));
    assert!(matches!(
        SpectrumPool::from_record(BoxId::new([7u8; 32]), true, Some(tokens.clone()), None, 10_000),
        Err(SpectrumPoolError::BoxParseFailure(_))
    ));
    assert!(matches!(
        SpectrumPool::from_record(BoxId::new([7u8; 32]), true, Some(tokens), Some(997), 0),
        Err(SpectrumPoolError::TokenAmountError(_))
    ));
}

#[test]
fn pool_price_and_product() {
    let pool = test_pool(1000000000, 1000);
    assert_eq!(pool.pure_price(), 1000000);
    assert_eq!(pool.amm_factor().to_string(), "1000000000000");
}

#[test]
fn hex_decoding() {
    use_hex();
}

fn use_hex() {
    assert_eq!(off_the_grid::hex::hex_decode("00ff1A"), Some(vec![0u8, 255, 26]));
    assert_eq!(off_the_grid::hex::hex_decode("abc"), None);
    assert_eq!(off_the_grid::hex::hex_decode("zz"), None);
    let script = off_the_grid::hex::hex_decode(off_the_grid::hex::N2T_POOL_ERGO_TREE_BASE16).unwrap();
    assert_eq!(script.len(), off_the_grid::hex::N2T_POOL_ERGO_TREE_BASE16.len() / 2);
    assert_eq!(&script[..3], &[0x19, 0x99, 0x03]);
}
