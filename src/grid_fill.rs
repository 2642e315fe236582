//! The single-order filling engine: greedy matching of grid orders that all wait
//! on the same side against a pool, settled with one net swap.
use crate::grid_order::{GridOrder, OrderState, MAX_FEE};
use crate::liquidity::LiquidityProviderError;
use crate::pool::SpectrumPool;
use crate::token::{token_amount_in_bounds, Token, TokenAmount, MAX_AMOUNT};
use vstd::prelude::*;

verus! {

/// A candidate fill of `o` on top of the running totals: the pool's total input
/// and output after it, and its surplus. A buy takes `amount` more tokens out of
/// the pool and pays its bid, against the extra numeraire the pool then asks for;
/// a sell puts `amount` more tokens in and receives its ask, against the extra
/// numeraire the pool then pays out. Orders whose quote fails, or whose filled
/// value is not representable, give no candidate.
pub open spec fn grid_candidate(pool: SpectrumPool, o: GridOrder, total_in: int, total_out: int) -> Option<
    (int, int, int),
> {
    if o.filled() is None {
        None
    } else {
        match o.state {
            OrderState::Buy => {
                let new_out = total_out + o.amount();
                let new_in = pool.input_quote(pool.asset_x, pool.asset_y, new_out);
                if token_amount_in_bounds(new_out) && new_out < pool.y() && token_amount_in_bounds(
                    new_in,
                ) {
                    Some((new_in, new_out, o.bid_value - (new_in - total_in)))
                } else {
                    None
                }
            },
            OrderState::Sell => {
                let new_in = total_in + o.amount();
                let new_out = pool.output_quote(pool.asset_y, pool.asset_x, new_in);
                if token_amount_in_bounds(new_in) && token_amount_in_bounds(new_out) {
                    Some((new_in, new_out, (new_out - total_out) - o.ask_value))
                } else {
                    None
                }
            },
        }
    }
}

/// The candidate with the largest positive surplus among the first `n` orders not
/// yet filled, the first one where several share it.
pub open spec fn best_grid_upto(
    pool: SpectrumPool,
    orders: Seq<GridOrder>,
    done: Seq<bool>,
    total_in: int,
    total_out: int,
    n: int,
) -> Option<(int, (int, int, int))>
    decreases n,
{
    if n <= 0 {
        None
    } else {
        let prev = best_grid_upto(pool, orders, done, total_in, total_out, n - 1);
        match grid_candidate(pool, orders[n - 1], total_in, total_out) {
            Some(c) => if !done[n - 1] && c.2 > 0 && (prev is None || c.2 > prev->Some_0.1.2) {
                Some((n - 1, c))
            } else {
                prev
            },
            None => prev,
        }
    }
}

/// Number of orders not yet filled.
pub open spec fn open_count(done: Seq<bool>) -> nat
    decreases done.len(),
{
    if done.len() == 0 {
        0
    } else {
        open_count(done.drop_last()) + if done.last() {
            0nat
        } else {
            1nat
        }
    }
}

proof fn lemma_open_count_update(done: Seq<bool>, i: int)
    requires
        0 <= i < done.len(),
        !done[i],
    ensures
        open_count(done.update(i, true)) + 1 == open_count(done),
    decreases done.len(),
{
    if i < done.len() - 1 {
        lemma_open_count_update(done.drop_last(), i);
        assert(done.update(i, true).drop_last() =~= done.drop_last().update(i, true));
    } else {
        assert(done.update(i, true).drop_last() =~= done.drop_last());
    }
}

/// The greedy run: commit the best candidate while one has a positive surplus,
/// adding it to the running surplus `s` and to the list `chosen`.
pub open spec fn run_grid(
    pool: SpectrumPool,
    orders: Seq<GridOrder>,
    done: Seq<bool>,
    total_in: int,
    total_out: int,
    s: int,
    chosen: Seq<int>,
) -> (Seq<bool>, int, int, int, Seq<int>)
    decreases open_count(done)
    via run_grid_decreases
{
    match best_grid_upto(pool, orders, done, total_in, total_out, orders.len() as int) {
        Some((i, c)) => if 0 <= i < done.len() && !done[i] {
            run_grid(pool, orders, done.update(i, true), c.0, c.1, s + c.2, chosen.push(i))
        } else {
            (done, total_in, total_out, s, chosen)
        },
        None => (done, total_in, total_out, s, chosen),
    }
}

#[via_fn]
proof fn run_grid_decreases(
    pool: SpectrumPool,
    orders: Seq<GridOrder>,
    done: Seq<bool>,
    total_in: int,
    total_out: int,
    s: int,
    chosen: Seq<int>,
) {
    if let Some((i, c)) = best_grid_upto(pool, orders, done, total_in, total_out, orders.len() as int) {
        if 0 <= i < done.len() && !done[i] {
            lemma_open_count_update(done, i);
        }
    }
}

/// The running surplus of a run never falls, and every fill it commits adds a
/// strictly positive surplus to it.
pub proof fn lemma_run_grid_surplus(
    pool: SpectrumPool,
    orders: Seq<GridOrder>,
    done: Seq<bool>,
    total_in: int,
    total_out: int,
    s: int,
    chosen: Seq<int>,
)
    ensures
        run_grid(pool, orders, done, total_in, total_out, s, chosen).3 >= s,
        run_grid(pool, orders, done, total_in, total_out, s, chosen).4.len() > chosen.len()
            ==> run_grid(pool, orders, done, total_in, total_out, s, chosen).3 > s,
        best_grid_upto(pool, orders, done, total_in, total_out, orders.len() as int) matches Some(
            (_, c),
        ) ==> c.2 > 0,
    decreases open_count(done),
{
    lemma_best_grid_positive(pool, orders, done, total_in, total_out, orders.len() as int);
    if let Some((i, c)) = best_grid_upto(pool, orders, done, total_in, total_out, orders.len() as int) {
        if 0 <= i < done.len() && !done[i] {
            lemma_open_count_update(done, i);
            lemma_run_grid_surplus(
                pool,
                orders,
                done.update(i, true),
                c.0,
                c.1,
                s + c.2,
                chosen.push(i),
            );
        }
    }
}

/// The best candidate is an order not yet filled, with a positive surplus.
pub proof fn lemma_best_grid_positive(
    pool: SpectrumPool,
    orders: Seq<GridOrder>,
    done: Seq<bool>,
    total_in: int,
    total_out: int,
    n: int,
)
    ensures
        best_grid_upto(pool, orders, done, total_in, total_out, n) matches Some((i, c)) ==> 0 <= i
            < n && !done[i] && c.2 > 0 && grid_candidate(pool, orders[i], total_in, total_out)
            == Some(c),
    decreases n,
{
    if n > 0 {
        lemma_best_grid_positive(pool, orders, done, total_in, total_out, n - 1);
    }
}

/// Computes `grid_candidate` for one order.
pub fn grid_fill_candidate(pool: &SpectrumPool, order: &GridOrder, total_in: u64, total_out: u64) -> (r:
    Option<(u64, u64, i128)>)
    requires
        pool.wf(),
        order.wf(),
        total_in <= MAX_AMOUNT,
        total_out <= MAX_AMOUNT,
    ensures
        r matches Some(c) ==> grid_candidate(*pool, *order, total_in as int, total_out as int)
            == Some((c.0 as int, c.1 as int, c.2 as int)),
        r is None ==> grid_candidate(*pool, *order, total_in as int, total_out as int) is None,
{
    if order.into_filled().is_err() {
        return None;
    }
    let amount = order.order_amount();
    match order.state {
        OrderState::Buy => {
            let new_out = match TokenAmount::try_new(total_out + amount) {
                Ok(a) => a,
                Err(_) => return None,
            };
            let output = Token { token_id: pool.asset_y.token_id, amount: new_out };
            match pool.input_amount(&output) {
                Ok(input) => {
                    let new_in = input.amount.as_u64();
                    Some(
                        (
                            new_in,
                            total_out + amount,
                            order.bid_value as i128 - (new_in as i128 - total_in as i128),
                        ),
                    )
                },
                Err(_) => None,
            }
        },
        OrderState::Sell => {
            let new_in = match TokenAmount::try_new(total_in + amount) {
                Ok(a) => a,
                Err(_) => return None,
            };
            let input = Token { token_id: pool.asset_y.token_id, amount: new_in };
            match pool.output_amount(&input) {
                Ok(output) => {
                    let new_out = output.amount.as_u64();
                    Some(
                        (
                            total_in + amount,
                            new_out,
                            (new_out as i128 - total_out as i128) - order.ask_value as i128,
                        ),
                    )
                },
                Err(_) => None,
            }
        },
    }
}

/// Finds the best candidate among the orders not yet filled.
pub fn best_grid_fill(
    pool: &SpectrumPool,
    orders: &Vec<GridOrder>,
    done: &Vec<bool>,
    total_in: u64,
    total_out: u64,
) -> (r: Option<(usize, (u64, u64, i128))>)
    requires
        pool.wf(),
        forall|i: int| 0 <= i < orders@.len() ==> (#[trigger] orders@[i]).wf(),
        done@.len() == orders@.len(),
        total_in <= MAX_AMOUNT,
        total_out <= MAX_AMOUNT,
    ensures
        r matches Some((i, c)) ==> best_grid_upto(
            *pool,
            orders@,
            done@,
            total_in as int,
            total_out as int,
            orders@.len() as int,
        ) == Some((i as int, (c.0 as int, c.1 as int, c.2 as int))) && i < orders@.len(),
        r is None ==> best_grid_upto(
            *pool,
            orders@,
            done@,
            total_in as int,
            total_out as int,
            orders@.len() as int,
        ) is None,
{
    let mut best: Option<(usize, (u64, u64, i128))> = None;
    let mut i: usize = 0;
    while i < orders.len()
        invariant
            i <= orders@.len(),
            pool.wf(),
            forall|k: int| 0 <= k < orders@.len() ==> (#[trigger] orders@[k]).wf(),
            done@.len() == orders@.len(),
            total_in <= MAX_AMOUNT,
            total_out <= MAX_AMOUNT,
            best matches Some((b, c)) ==> best_grid_upto(
                *pool,
                orders@,
                done@,
                total_in as int,
                total_out as int,
                i as int,
            ) == Some((b as int, (c.0 as int, c.1 as int, c.2 as int))) && b < i,
            best is None ==> best_grid_upto(
                *pool,
                orders@,
                done@,
                total_in as int,
                total_out as int,
                i as int,
            ) is None,
        decreases orders@.len() - i,
    {
        assert(orders@[i as int].wf());
        if !done[i] {
            match grid_fill_candidate(pool, &orders[i], total_in, total_out) {
                Some(c) => {
                    if c.2 > 0 {
                        match best {
                            None => {
                                best = Some((i, c));
                            },
                            Some((_, b)) => {
                                if c.2 > b.2 {
                                    best = Some((i, c));
                                }
                            },
                        }
                    }
                },
                None => {},
            }
        }
        i = i + 1;
    }
    best
}

/// Whether the one net swap of `total_in` for orders waiting on side `side` succeeds:
/// buys pay numeraire into the pool, sells pay tokens.
pub open spec fn grid_settle_succeeds(pool: SpectrumPool, side: OrderState, total_in: int) -> bool {
    if total_in == 0 {
        true
    } else {
        match side {
            OrderState::Buy => pool.output_quote(pool.asset_x, pool.asset_y, total_in) >= 1
                && pool.x() + total_in <= MAX_AMOUNT,
            OrderState::Sell => pool.output_quote(pool.asset_y, pool.asset_x, total_in) >= 1
                && pool.y() + total_in <= MAX_AMOUNT,
        }
    }
}

/// `p` is `pool` after the one net swap of `total_in` for side `side`.
pub open spec fn grid_settled(pool: SpectrumPool, p: SpectrumPool, side: OrderState, total_in: int) -> bool {
    if total_in == 0 {
        p == pool
    } else {
        match side {
            OrderState::Buy => {
                &&& pool.same_but_reserves(p)
                &&& p.x() == pool.x() + total_in
                &&& p.y() == pool.y() - pool.output_quote(pool.asset_x, pool.asset_y, total_in)
            },
            OrderState::Sell => {
                &&& pool.same_but_reserves(p)
                &&& p.y() == pool.y() + total_in
                &&& p.x() == pool.x() - pool.output_quote(pool.asset_y, pool.asset_x, total_in)
            },
        }
    }
}

pub open spec fn initial_done(n: int) -> Seq<bool> {
    Seq::new(n as nat, |i: int| false)
}

/// Matches grid orders that all wait on the same side against a pool: greedily
/// commits the fill with the largest positive surplus, evaluated against the
/// totals of the fills already chosen, until none is left; then makes one net
/// swap for the total. Returns the pool after that swap and, in the order they
/// were chosen, the index of each filled order among `grid_orders` with the
/// order as filled.
pub fn fill_grid_orders(pool: SpectrumPool, grid_orders: &Vec<GridOrder>) -> (r: Result<
    (SpectrumPool, Vec<(usize, GridOrder)>),
    LiquidityProviderError,
>)
    requires
        pool.wf(),
        forall|i: int| 0 <= i < grid_orders@.len() ==> (#[trigger] grid_orders@[i]).wf(),
        forall|i: int|
            0 <= i < grid_orders@.len() ==> (#[trigger] grid_orders@[i]).state
                == grid_orders@[0].state,
    ensures
        grid_orders@.len() == 0 ==> r is Ok && r->Ok_0.0 == pool && r->Ok_0.1@.len() == 0,
        grid_orders@.len() > 0 ==> ({
            let run = run_grid(
                pool,
                grid_orders@,
                initial_done(grid_orders@.len() as int),
                0,
                0,
                0,
                Seq::empty(),
            );
            let side = grid_orders@[0].state;
            &&& r is Ok <==> grid_settle_succeeds(pool, side, run.1)
            &&& r is Ok ==> {
                let (p, filled) = r->Ok_0;
                &&& grid_settled(pool, p, side, run.1)
                &&& filled@.len() == run.4.len()
                &&& forall|k: int|
                    0 <= k < run.4.len() ==> #[trigger] run.4[k] == filled@[k].0 as int
                &&& forall|k: int|
                    0 <= k < filled@.len() ==> (#[trigger] filled@[k]).1 == grid_orders@[filled@[k].0 as int].filled()->Some_0
            }
        }),
{
    let n = grid_orders.len();
    if n == 0 {
        return Ok((pool, Vec::new()));
    }
    let side = grid_orders[0].state;
    let mut done: Vec<bool> = Vec::new();
    let mut i: usize = 0;
    while i < n
        invariant
            n == grid_orders@.len(),
            i <= n,
            done@ =~= initial_done(n as int).subrange(0, i as int),
        decreases n - i,
    {
        done.push(false);
        i = i + 1;
    }
    assert(done@ =~= initial_done(n as int));
    let ghost init = run_grid(pool, grid_orders@, done@, 0, 0, 0, Seq::empty());
    let ghost mut s: int = 0;
    let ghost mut chosen: Seq<int> = Seq::empty();
    let mut total_in: u64 = 0;
    let mut total_out: u64 = 0;
    let mut filled: Vec<(usize, GridOrder)> = Vec::new();
    loop
        invariant
            pool.wf(),
            forall|i: int| 0 <= i < grid_orders@.len() ==> (#[trigger] grid_orders@[i]).wf(),
            done@.len() == grid_orders@.len(),
            total_in <= MAX_AMOUNT,
            total_out <= MAX_AMOUNT,
            run_grid(pool, grid_orders@, done@, total_in as int, total_out as int, s, chosen)
                == init,
            filled@.len() == chosen.len(),
            forall|k: int|
                0 <= k < chosen.len() ==> #[trigger] chosen[k] == filled@[k].0 as int,
            forall|k: int|
                0 <= k < filled@.len() ==> (#[trigger] filled@[k]).0 < grid_orders@.len()
                    && filled@[k].1 == grid_orders@[filled@[k].0 as int].filled()->Some_0,
            total_in == 0 <==> chosen.len() == 0,
        ensures
            init == (done@, total_in as int, total_out as int, s, chosen),
            filled@.len() == chosen.len(),
            total_in == 0 <==> chosen.len() == 0,
        decreases open_count(done@),
    {
        match best_grid_fill(&pool, grid_orders, &done, total_in, total_out) {
            Some((i, c)) => {
                proof {
                    lemma_best_grid_positive(
                        pool,
                        grid_orders@,
                        done@,
                        total_in as int,
                        total_out as int,
                        grid_orders@.len() as int,
                    );
                    lemma_open_count_update(done@, i as int);
                }
                let order = grid_orders[i];
                let filled_order = order.into_filled();
                if let Ok(f) = filled_order {
                    let ghost before = filled@;
                    let ghost old_chosen = chosen;
                    filled.push((i, f));
                    done.set(i, true);
                    total_in = c.0;
                    total_out = c.1;
                    proof {
                        s = s + c.2;
                        chosen = chosen.push(i as int);
                        assert forall|k: int| 0 <= k < chosen.len() implies #[trigger] chosen[k]
                            == filled@[k].0 as int by {
                            if k < old_chosen.len() {
                                assert(filled@[k] == before[k]);
                                assert(chosen[k] == old_chosen[k]);
                            }
                        }
                        assert forall|k: int| 0 <= k < filled@.len() implies (#[trigger] filled@[k]).0
                            < grid_orders@.len() && filled@[k].1
                            == grid_orders@[filled@[k].0 as int].filled()->Some_0 by {
                            if k < before.len() {
                                assert(filled@[k] == before[k]);
                            }
                        }
                    }
                } else {
                    break ;
                }
            },
            None => {
                break ;
            },
        }
    }
    let p = if total_in == 0 {
        pool
    } else {
        let amount = match TokenAmount::try_new(total_in) {
            Ok(a) => a,
            Err(e) => return Err(LiquidityProviderError::TokenAmountError(e)),
        };
        let token_id = match side {
            OrderState::Buy => pool.asset_x.token_id,
            OrderState::Sell => pool.asset_y.token_id,
        };
        pool.with_swap(&Token { token_id, amount })?
    };
    Ok((p, filled))
}

/// Native value the filled orders gave up, over the first `n` fills: what they held
/// before less what they hold after.
pub open spec fn released_value(orders: Seq<GridOrder>, filled: Seq<(usize, GridOrder)>, n: int) -> int
    decreases n,
{
    if n <= 0 {
        0
    } else {
        released_value(orders, filled, n - 1) + orders[filled[n - 1].0 as int].v() - filled[n
            - 1].1.v()
    }
}

/// The surplus a settlement leaves: the value the filled orders and the pool give
/// up together.
pub open spec fn settlement_surplus(
    orders: Seq<GridOrder>,
    pool: SpectrumPool,
    new_pool: SpectrumPool,
    filled: Seq<(usize, GridOrder)>,
) -> int {
    released_value(orders, filled, filled.len() as int) + pool.x() - new_pool.x()
}

/// The value of the change record of a settlement: the surplus less the fee. A
/// settlement with no fill, or whose surplus does not exceed the fee, is not worth
/// sending and gives `None`.
pub fn settlement_change(
    orders: &Vec<GridOrder>,
    pool: &SpectrumPool,
    new_pool: &SpectrumPool,
    filled: &Vec<(usize, GridOrder)>,
) -> (r: Option<u64>)
    requires
        forall|k: int| 0 <= k < filled@.len() ==> (#[trigger] filled@[k]).0 < orders@.len(),
    ensures
        ({
            let s = settlement_surplus(orders@, *pool, *new_pool, filled@);
            &&& r is Some <==> filled@.len() > 0 && MAX_FEE < s <= MAX_FEE + u64::MAX
            &&& r matches Some(c) ==> c == s - MAX_FEE
        }),
{
    let mut released: i128 = 0;
    let mut k: usize = 0;
    while k < filled.len()
        invariant
            k <= filled@.len(),
            forall|j: int| 0 <= j < filled@.len() ==> (#[trigger] filled@[j]).0 < orders@.len(),
            released as int == released_value(orders@, filled@, k as int),
            -(k as int) * MAX_AMOUNT <= released <= (k as int) * MAX_AMOUNT,
        decreases filled@.len() - k,
    {
        let (i, ref o) = filled[k];
        let before = orders[i].value.as_u64();
        let after = o.value.as_u64();
        proof {
            assert((k as int + 1) * MAX_AMOUNT == (k as int) * MAX_AMOUNT + MAX_AMOUNT) by (nonlinear_arith);
            assert((k as int + 1) * MAX_AMOUNT <= (usize::MAX as int) * MAX_AMOUNT) by (nonlinear_arith)
                requires
                    k < filled@.len(),
                    filled@.len() <= usize::MAX,
            ;
        }
        released = released + before as i128 - after as i128;
        k = k + 1;
    }
    if filled.len() == 0 {
        return None;
    }
    let surplus = released + pool.asset_x.amount.as_u64() as i128 - new_pool.asset_x.amount.as_u64() as i128;
    if surplus <= MAX_FEE as i128 || surplus - (MAX_FEE as i128) > u64::MAX as i128 {
        None
    } else {
        Some((surplus - MAX_FEE as i128) as u64)
    }
}

} // verus!
