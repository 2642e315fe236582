//! The multi-entry filling engine: greedy matching of order ladders against a pool.
use crate::grid_order::OrderState;
use crate::liquidity::LiquidityProviderError;
use crate::multigrid_order::{
    best_ask, best_bid, GridOrderEntries, GridOrderEntry, MultiGridOrder,
};
use crate::pool::SpectrumPool;
use crate::token::{token_amount_in_bounds, Token, TokenAmount};
use vstd::prelude::*;

verus! {

/// A candidate fill: the side it fills, the running reserve deltas after it, and
/// the surplus those deltas leave.
#[derive(Clone, Copy, Debug, PartialEq, Eq, Structural)]
pub struct SurplusResult {
    pub matched_state: OrderState,
    pub new_x: i64,
    pub new_y: i64,
    pub surplus: i64,
}

impl SurplusResult {
    pub fn new(matched_state: OrderState, new_x: i64, new_y: i64, surplus: i64) -> (r:
        SurplusResult)
        ensures
            r == (SurplusResult { matched_state, new_x, new_y, surplus }),
    {
        SurplusResult { matched_state, new_x, new_y, surplus }
    }
}

pub open spec fn in_i64(v: int) -> bool {
    i64::MIN <= v <= i64::MAX
}

/// The candidate from filling `e` on top of running deltas `(x, y)`: a buy adds
/// its bid to the numeraire and takes its tokens; a sell does the reverse. The
/// surplus is the numeraire left once the pool has absorbed the token delta: what
/// the pool pays for a positive delta, less what it asks for a negative one.
pub open spec fn surplus_of(pool: SpectrumPool, e: GridOrderEntry, x: i64, y: i64) -> Option<
    SurplusResult,
> {
    let (nx, ny) = match e.state {
        OrderState::Buy => (x + e.bid_value, y - e.amount()),
        OrderState::Sell => (x - e.ask_value, y + e.amount()),
    };
    if !in_i64(nx) || !in_i64(ny) {
        None
    } else if ny > 0 {
        let q = pool.output_quote(pool.asset_y, pool.asset_x, ny);
        if token_amount_in_bounds(q) && in_i64(nx + q) {
            Some(SurplusResult { matched_state: e.state, new_x: nx as i64, new_y: ny as i64, surplus: (nx + q) as i64 })
        } else {
            None
        }
    } else if ny < 0 {
        let q = pool.input_quote(pool.asset_x, pool.asset_y, -ny);
        if token_amount_in_bounds(-ny) && -ny < pool.y() && token_amount_in_bounds(q) && in_i64(
            nx - q,
        ) {
            Some(SurplusResult { matched_state: e.state, new_x: nx as i64, new_y: ny as i64, surplus: (nx - q) as i64 })
        } else {
            None
        }
    } else {
        Some(SurplusResult { matched_state: e.state, new_x: nx as i64, new_y: ny as i64, surplus: nx as i64 })
    }
}

/// Computes `surplus_of` for one entry.
pub fn calculate_surplus(pool: &SpectrumPool, entry: &GridOrderEntry, cur_x: i64, cur_y: i64) -> (r:
    Option<SurplusResult>)
    requires
        pool.wf(),
        entry.wf(),
    ensures
        r == surplus_of(*pool, *entry, cur_x, cur_y),
{
    let amount = entry.order_amount();
    let (new_x, new_y) = match entry.state {
        OrderState::Buy => {
            let nx = match cur_x.checked_add(entry.bid_value as i64) {
                Some(v) => v,
                None => return None,
            };
            let ny = match cur_y.checked_sub(amount as i64) {
                Some(v) => v,
                None => return None,
            };
            (nx, ny)
        },
        OrderState::Sell => {
            let nx = match cur_x.checked_sub(entry.ask_value as i64) {
                Some(v) => v,
                None => return None,
            };
            let ny = match cur_y.checked_add(amount as i64) {
                Some(v) => v,
                None => return None,
            };
            (nx, ny)
        },
    };
    if new_y > 0 {
        let input_amount = match TokenAmount::try_new(new_y as u64) {
            Ok(a) => a,
            Err(_) => return None,
        };
        let input = Token { token_id: pool.asset_y.token_id, amount: input_amount };
        let output = match pool.output_amount(&input) {
            Ok(o) => o,
            Err(_) => return None,
        };
        match new_x.checked_add(output.amount.as_u64() as i64) {
            Some(surplus) => Some(SurplusResult::new(entry.state, new_x, new_y, surplus)),
            None => None,
        }
    } else if new_y < 0 {
        if new_y == i64::MIN {
            return None;
        }
        let output_amount = match TokenAmount::try_new((-new_y) as u64) {
            Ok(a) => a,
            Err(_) => return None,
        };
        let output = Token { token_id: pool.asset_y.token_id, amount: output_amount };
        let input = match pool.input_amount(&output) {
            Ok(i) => i,
            Err(_) => return None,
        };
        match new_x.checked_sub(input.amount.as_u64() as i64) {
            Some(surplus) => Some(SurplusResult::new(entry.state, new_x, new_y, surplus)),
            None => None,
        }
    } else {
        Some(SurplusResult::new(entry.state, new_x, new_y, new_x))
    }
}

/// Which sides of a ladder may still fill in this run: both until one fills,
/// then only that one, since its neighbour in the ladder becomes the next best.
#[derive(Clone, Copy, Debug, PartialEq, Eq, Structural)]
pub enum OrderMatchingState {
    NotMatched,
    MatchedBid,
    MatchedAsk,
}

/// A ladder in the middle of a run: its matching state and its current entries.
#[derive(Debug)]
pub struct LadderMatch {
    pub state: OrderMatchingState,
    pub entries: GridOrderEntries,
}

impl View for LadderMatch {
    type V = (OrderMatchingState, Seq<GridOrderEntry>);

    open spec fn view(&self) -> (OrderMatchingState, Seq<GridOrderEntry>) {
        (self.state, self.entries@)
    }
}

pub open spec fn entries_wf(s: Seq<GridOrderEntry>) -> bool {
    forall|i: int| 0 <= i < s.len() ==> (#[trigger] s[i]).wf()
}

pub open spec fn side_surplus(
    pool: SpectrumPool,
    s: Seq<GridOrderEntry>,
    best: Option<int>,
    x: i64,
    y: i64,
) -> Option<SurplusResult> {
    match best {
        Some(i) => surplus_of(pool, s[i], x, y),
        None => None,
    }
}

/// The best candidate a ladder offers: the better of its two sides while it is
/// unmatched (the ask side on a tie), else the side it has matched.
pub open spec fn ladder_surplus(
    pool: SpectrumPool,
    l: (OrderMatchingState, Seq<GridOrderEntry>),
    x: i64,
    y: i64,
) -> Option<SurplusResult> {
    let bid = side_surplus(pool, l.1, best_bid(l.1), x, y);
    let ask = side_surplus(pool, l.1, best_ask(l.1), x, y);
    match l.0 {
        OrderMatchingState::NotMatched => match (bid, ask) {
            (Some(b), Some(a)) => if b.surplus > a.surplus {
                Some(b)
            } else {
                Some(a)
            },
            (Some(b), None) => Some(b),
            (None, a) => a,
        },
        OrderMatchingState::MatchedBid => bid,
        OrderMatchingState::MatchedAsk => ask,
    }
}

/// A candidate whose deltas would leave either reserve outside the signed range
/// is set aside, so that such an order cannot block the others.
pub open spec fn fits_reserves(pool: SpectrumPool, c: SurplusResult) -> bool {
    in_i64(pool.y() + c.new_y) && in_i64(pool.x() + c.new_x)
}

/// The best candidate over the first `n` ladders: the largest surplus, the last
/// ladder where several share it.
pub open spec fn best_upto(
    pool: SpectrumPool,
    ls: Seq<(OrderMatchingState, Seq<GridOrderEntry>)>,
    x: i64,
    y: i64,
    n: int,
) -> Option<(int, SurplusResult)>
    decreases n,
{
    if n <= 0 {
        None
    } else {
        let prev = best_upto(pool, ls, x, y, n - 1);
        match ladder_surplus(pool, ls[n - 1], x, y) {
            Some(c) => if fits_reserves(pool, c) && (prev is None || c.surplus
                >= prev->Some_0.1.surplus) {
                Some((n - 1, c))
            } else {
                prev
            },
            None => prev,
        }
    }
}

/// A ladder after the side `side` fills: its best entry on that side changes
/// state and the ladder is bound to that side.
pub open spec fn fill_ladder(l: (OrderMatchingState, Seq<GridOrderEntry>), side: OrderState) -> (
    OrderMatchingState,
    Seq<GridOrderEntry>,
) {
    match side {
        OrderState::Buy => match best_bid(l.1) {
            Some(i) => (
                OrderMatchingState::MatchedBid,
                l.1.update(i, GridOrderEntry { state: OrderState::Sell, ..l.1[i] }),
            ),
            None => l,
        },
        OrderState::Sell => match best_ask(l.1) {
            Some(i) => (
                OrderMatchingState::MatchedAsk,
                l.1.update(i, GridOrderEntry { state: OrderState::Buy, ..l.1[i] }),
            ),
            None => l,
        },
    }
}

/// A ladder bound to one side only ever offers candidates on that side.
pub proof fn lemma_candidate_side(
    pool: SpectrumPool,
    ls: Seq<(OrderMatchingState, Seq<GridOrderEntry>)>,
    x: i64,
    y: i64,
    n: int,
)
    requires
        0 <= n <= ls.len(),
    ensures
        best_upto(pool, ls, x, y, n) matches Some((i, c)) ==> {
            &&& 0 <= i < n
            &&& ls[i].0 == OrderMatchingState::MatchedBid ==> c.matched_state == OrderState::Buy
            &&& ls[i].0 == OrderMatchingState::MatchedAsk ==> c.matched_state == OrderState::Sell
        },
    decreases n,
{
    if n > 0 {
        lemma_candidate_side(pool, ls, x, y, n - 1);
        let l = ls[n - 1];
        crate::multigrid_order::lemma_best_in_range(l.1, l.1.len() as int);
    }
}

/// The greedy run from ladders `ls`, deltas `(x, y)` and running surplus `s`:
/// commit the best candidate while its surplus beats the running one.
pub open spec fn run_multi(
    pool: SpectrumPool,
    ls: Seq<(OrderMatchingState, Seq<GridOrderEntry>)>,
    x: i64,
    y: i64,
    s: i64,
) -> (Seq<(OrderMatchingState, Seq<GridOrderEntry>)>, i64, i64, i64)
    decreases i64::MAX - s,
{
    match best_upto(pool, ls, x, y, ls.len() as int) {
        Some((i, c)) => if c.surplus > s {
            run_multi(
                pool,
                ls.update(i, fill_ladder(ls[i], c.matched_state)),
                c.new_x,
                c.new_y,
                c.surplus,
            )
        } else {
            (ls, x, y, s)
        },
        None => (ls, x, y, s),
    }
}

pub open spec fn ladders_view(v: Seq<LadderMatch>) -> Seq<(OrderMatchingState, Seq<GridOrderEntry>)> {
    v.map_values(|l: LadderMatch| l@)
}

pub open spec fn all_ladders_wf(ls: Seq<(OrderMatchingState, Seq<GridOrderEntry>)>) -> bool {
    forall|i: int| 0 <= i < ls.len() ==> entries_wf(#[trigger] ls[i].1)
}

impl LadderMatch {
    /// Computes `ladder_surplus` for this ladder.
    pub fn state_surplus(&self, pool: &SpectrumPool, cur_x: i64, cur_y: i64) -> (r: Option<
        SurplusResult,
    >)
        requires
            pool.wf(),
            entries_wf(self.entries@),
        ensures
            r == ladder_surplus(*pool, self@, cur_x, cur_y),
    {
        let bid = match self.entries.bid_index() {
            Some(i) => calculate_surplus(pool, &self.entries.entries[i], cur_x, cur_y),
            None => None,
        };
        let ask = match self.entries.ask_index() {
            Some(i) => calculate_surplus(pool, &self.entries.entries[i], cur_x, cur_y),
            None => None,
        };
        match self.state {
            OrderMatchingState::NotMatched => match (bid, ask) {
                (Some(b), Some(a)) => if b.surplus > a.surplus {
                    Some(b)
                } else {
                    Some(a)
                },
                (Some(b), None) => Some(b),
                (None, a) => a,
            },
            OrderMatchingState::MatchedBid => bid,
            OrderMatchingState::MatchedAsk => ask,
        }
    }

    /// The ladder after its side `side` fills. A ladder bound to one side cannot
    /// fill the other.
    pub fn fill(self, side: OrderState) -> (r: LadderMatch)
        requires
            !(self.state == OrderMatchingState::MatchedAsk && side == OrderState::Buy),
            !(self.state == OrderMatchingState::MatchedBid && side == OrderState::Sell),
        ensures
            r@ == fill_ladder(self@, side),
    {
        let LadderMatch { state, entries } = self;
        match side {
            OrderState::Buy => match entries.bid_index() {
                None => LadderMatch { state, entries },
                Some(_) => match entries.into_fill_bid() {
                    Ok(e) => LadderMatch { state: OrderMatchingState::MatchedBid, entries: e },
                    Err(_) => {
                        proof {
                            assert(false);
                        }
                        LadderMatch { state, entries: GridOrderEntries::new(Vec::new()) }
                    },
                },
            },
            OrderState::Sell => match entries.ask_index() {
                None => LadderMatch { state, entries },
                Some(_) => match entries.into_fill_ask() {
                    Ok(e) => LadderMatch { state: OrderMatchingState::MatchedAsk, entries: e },
                    Err(_) => {
                        proof {
                            assert(false);
                        }
                        LadderMatch { state, entries: GridOrderEntries::new(Vec::new()) }
                    },
                },
            },
        }
    }
}

/// Finds the best candidate over all ladders.
pub fn best_fill(pool: &SpectrumPool, ladders: &Vec<LadderMatch>, cur_x: i64, cur_y: i64) -> (r:
    Option<(usize, SurplusResult)>)
    requires
        pool.wf(),
        all_ladders_wf(ladders_view(ladders@)),
    ensures
        r matches Some((i, c)) ==> best_upto(
            *pool,
            ladders_view(ladders@),
            cur_x,
            cur_y,
            ladders@.len() as int,
        ) == Some((i as int, c)) && i < ladders@.len(),
        r is None ==> best_upto(
            *pool,
            ladders_view(ladders@),
            cur_x,
            cur_y,
            ladders@.len() as int,
        ) is None,
{
    let ghost ls = ladders_view(ladders@);
    let x_reserve = pool.asset_x.amount.as_u64() as i64;
    let y_reserve = pool.asset_y.amount.as_u64() as i64;
    let mut best: Option<(usize, SurplusResult)> = None;
    let mut i: usize = 0;
    while i < ladders.len()
        invariant
            i <= ladders@.len(),
            ls == ladders_view(ladders@),
            all_ladders_wf(ls),
            pool.wf(),
            x_reserve as int == pool.x(),
            y_reserve as int == pool.y(),
            best matches Some((b, c)) ==> best_upto(*pool, ls, cur_x, cur_y, i as int) == Some(
                (b as int, c),
            ) && b < i,
            best is None ==> best_upto(*pool, ls, cur_x, cur_y, i as int) is None,
        decreases ladders@.len() - i,
    {
        proof {
            assert(ls[i as int] == ladders@[i as int]@);
            assert(entries_wf(ls[i as int].1));
        }
        match ladders[i].state_surplus(pool, cur_x, cur_y) {
            Some(c) => {
                let fits = y_reserve.checked_add(c.new_y).is_some() && x_reserve.checked_add(
                    c.new_x,
                ).is_some();
                if fits {
                    match best {
                        None => {
                            best = Some((i, c));
                        },
                        Some((_, b)) => {
                            if c.surplus >= b.surplus {
                                best = Some((i, c));
                            }
                        },
                    }
                }
            },
            None => {},
        }
        i = i + 1;
    }
    best
}

/// The running surplus of a run never falls, and it rises exactly when some
/// candidate beats it: a fill is committed only when its surplus strictly exceeds
/// the running surplus at that moment.
pub proof fn lemma_run_multi_surplus(
    pool: SpectrumPool,
    ls: Seq<(OrderMatchingState, Seq<GridOrderEntry>)>,
    x: i64,
    y: i64,
    s: i64,
)
    ensures
        run_multi(pool, ls, x, y, s).3 >= s,
        run_multi(pool, ls, x, y, s).3 > s <==> (best_upto(pool, ls, x, y, ls.len() as int) matches Some(
            (_, c),
        ) && c.surplus > s),
    decreases i64::MAX - s,
{
    if let Some((i, c)) = best_upto(pool, ls, x, y, ls.len() as int) {
        if c.surplus > s {
            lemma_run_multi_surplus(
                pool,
                ls.update(i, fill_ladder(ls[i], c.matched_state)),
                c.new_x,
                c.new_y,
                c.surplus,
            );
        }
    }
}

/// Filling keeps every price of a ladder, so it keeps the ladder well formed.
proof fn lemma_fill_keeps_wf(l: (OrderMatchingState, Seq<GridOrderEntry>), side: OrderState)
    requires
        entries_wf(l.1),
    ensures
        entries_wf(fill_ladder(l, side).1),
        fill_ladder(l, side).1.len() == l.1.len(),
{
    let r = fill_ladder(l, side);
    crate::multigrid_order::lemma_best_in_range(l.1, l.1.len() as int);
    assert forall|i: int| 0 <= i < r.1.len() implies (#[trigger] r.1[i]).wf() by {
        assert(l.1[i].wf());
    }
}

/// The ladders a run starts from: every order unmatched, with its own entries.
pub open spec fn initial_ladders(orders: Seq<MultiGridOrder>) -> Seq<
    (OrderMatchingState, Seq<GridOrderEntry>),
> {
    Seq::new(orders.len(), |i: int| (OrderMatchingState::NotMatched, orders[i].entries@))
}

/// The value an order holds once its ladder is `l`.
pub open spec fn filled_value(o: MultiGridOrder, l: Seq<GridOrderEntry>) -> int {
    o.v() + crate::multigrid_order::value_shift(
        o.entries@,
        l,
        crate::multigrid_order::min_len(o.entries@, l),
    )
}

/// Whether a run ends with order `o` filled: its ladder matched and its new
/// value representable.
pub open spec fn order_filled(o: MultiGridOrder, l: (OrderMatchingState, Seq<GridOrderEntry>)) -> bool {
    l.0 != OrderMatchingState::NotMatched && crate::token::box_value_in_bounds(
        filled_value(o, l.1),
    )
}

/// Indices of the filled orders among the first `n`, in order.
pub open spec fn filled_upto(
    orders: Seq<MultiGridOrder>,
    ls: Seq<(OrderMatchingState, Seq<GridOrderEntry>)>,
    n: int,
) -> Seq<int>
    decreases n,
{
    if n <= 0 {
        Seq::empty()
    } else if order_filled(orders[n - 1], ls[n - 1]) {
        filled_upto(orders, ls, n - 1).push(n - 1)
    } else {
        filled_upto(orders, ls, n - 1)
    }
}

/// Whether the one net swap for a token delta `y` succeeds on `pool`.
pub open spec fn settle_succeeds(pool: SpectrumPool, y: int) -> bool {
    if y > 0 {
        pool.output_quote(pool.asset_y, pool.asset_x, y) >= 1 && pool.y() + y
            <= crate::token::MAX_AMOUNT
    } else if y < 0 {
        let q = pool.input_quote(pool.asset_x, pool.asset_y, -y);
        &&& token_amount_in_bounds(-y)
        &&& -y < pool.y()
        &&& token_amount_in_bounds(q)
        &&& pool.output_quote(pool.asset_x, pool.asset_y, q) >= 1
        &&& pool.x() + q <= crate::token::MAX_AMOUNT
    } else {
        true
    }
}

/// `p` is `pool` after the one net swap for a token delta `y`: a positive delta
/// is paid into the pool, a negative one is bought from it at its input quote.
pub open spec fn settled(pool: SpectrumPool, p: SpectrumPool, y: int) -> bool {
    if y > 0 {
        &&& pool.same_but_reserves(p)
        &&& p.y() == pool.y() + y
        &&& p.x() == pool.x() - pool.output_quote(pool.asset_y, pool.asset_x, y)
    } else if y < 0 {
        let q = pool.input_quote(pool.asset_x, pool.asset_y, -y);
        &&& pool.same_but_reserves(p)
        &&& p.x() == pool.x() + q
        &&& p.y() == pool.y() - pool.output_quote(pool.asset_x, pool.asset_y, q)
    } else {
        p == pool
    }
}

/// Applies the one net swap for a token delta `y`.
pub fn settle(pool: SpectrumPool, y: i64) -> (r: Result<SpectrumPool, LiquidityProviderError>)
    requires
        pool.wf(),
    ensures
        r is Ok <==> settle_succeeds(pool, y as int),
        r is Ok ==> settled(pool, r->Ok_0, y as int) && r->Ok_0.wf(),
{
    if y > 0 {
        let amount = match TokenAmount::try_new(y as u64) {
            Ok(a) => a,
            Err(e) => return Err(LiquidityProviderError::TokenAmountError(e)),
        };
        let input = Token { token_id: pool.asset_y.token_id, amount };
        pool.with_swap(&input)
    } else if y < 0 {
        if y == i64::MIN {
            return Err(LiquidityProviderError::InsufficientLiquidity);
        }
        let amount = match TokenAmount::try_new((-y) as u64) {
            Ok(a) => a,
            Err(e) => return Err(LiquidityProviderError::TokenAmountError(e)),
        };
        let output = Token { token_id: pool.asset_y.token_id, amount };
        let input = pool.input_amount(&output)?;
        pool.with_swap(&input)
    } else {
        Ok(pool)
    }
}

/// Matches order ladders against a pool: greedily commits the best candidate fill
/// while it beats the running surplus, then makes one net swap for the final
/// token delta. Returns the pool after that swap and, for every order that
/// filled, its index among `grid_orders` and the order as filled.
pub fn fill_multigrid_orders(pool: SpectrumPool, grid_orders: &Vec<MultiGridOrder>) -> (r: Result<
    (SpectrumPool, Vec<(usize, MultiGridOrder)>),
    LiquidityProviderError,
>)
    requires
        pool.wf(),
        forall|i: int| 0 <= i < grid_orders@.len() ==> entries_wf(#[trigger] grid_orders@[i].entries@),
    ensures
        grid_orders@.len() == 0 ==> r is Ok && r->Ok_0.0 == pool && r->Ok_0.1@.len() == 0,
        ({
            let run = run_multi(pool, initial_ladders(grid_orders@), 0, 0, 0);
            let idx = filled_upto(grid_orders@, run.0, grid_orders@.len() as int);
            &&& r is Ok <==> settle_succeeds(pool, run.2 as int)
            &&& r is Ok ==> {
                let (p, filled) = r->Ok_0;
                &&& settled(pool, p, run.2 as int)
                &&& filled@.len() == idx.len()
                &&& forall|k: int|
                    0 <= k < idx.len() ==> {
                        let i = idx[k];
                        let o = (#[trigger] filled@[k]).1;
                        &&& filled@[k].0 as int == i
                        &&& o.entries@ == run.0[i].1
                        &&& o.owner == grid_orders@[i].owner
                        &&& o.token_id == grid_orders@[i].token_id
                        &&& o.v() == filled_value(grid_orders@[i], run.0[i].1)
                    }
            }
        }),
{
    let ghost init = initial_ladders(grid_orders@);
    proof {
        if grid_orders@.len() == 0 {
            assert(run_multi(pool, init, 0, 0, 0) == (init, 0i64, 0i64, 0i64));
        }
    }
    let mut ladders: Vec<LadderMatch> = Vec::new();
    let mut i: usize = 0;
    while i < grid_orders.len()
        invariant
            i <= grid_orders@.len(),
            init == initial_ladders(grid_orders@),
            ladders@.len() == i,
            ladders_view(ladders@) =~= init.subrange(0, i as int),
        decreases grid_orders@.len() - i,
    {
        let entries = grid_orders[i].entries.duplicate();
        ladders.push(LadderMatch { state: OrderMatchingState::NotMatched, entries });
        proof {
            assert(ladders@[i as int]@ == init[i as int]);
        }
        i = i + 1;
        assert(ladders_view(ladders@) =~= init.subrange(0, i as int));
    }
    assert(ladders_view(ladders@) =~= init);
    let mut x_diff: i64 = 0;
    let mut y_diff: i64 = 0;
    let mut surplus: i64 = 0;
    loop
        invariant
            pool.wf(),
            all_ladders_wf(ladders_view(ladders@)),
            ladders@.len() == grid_orders@.len(),
            run_multi(pool, ladders_view(ladders@), x_diff, y_diff, surplus) == run_multi(
                pool,
                init,
                0,
                0,
                0,
            ),
        ensures
            run_multi(pool, init, 0, 0, 0) == (ladders_view(ladders@), x_diff, y_diff, surplus),
            ladders@.len() == grid_orders@.len(),
        decreases i64::MAX - surplus,
    {
        match best_fill(&pool, &ladders, x_diff, y_diff) {
            Some((i, c)) => {
                if c.surplus > surplus {
                    let ghost before = ladders_view(ladders@);
                    proof {
                        lemma_candidate_side(pool, before, x_diff, y_diff, before.len() as int);
                        assert(ladders@[i as int]@ == before[i as int]);
                    }
                    let l = ladders.remove(i);
                    let nl = l.fill(c.matched_state);
                    ladders.insert(i, nl);
                    proof {
                        assert(ladders_view(ladders@) =~= before.update(
                            i as int,
                            fill_ladder(before[i as int], c.matched_state),
                        ));
                        lemma_fill_keeps_wf(before[i as int], c.matched_state);
                    }
                    x_diff = c.new_x;
                    y_diff = c.new_y;
                    surplus = c.surplus;
                } else {
                    break ;
                }
            },
            None => {
                break ;
            },
        }
    }
    let ghost fin = ladders_view(ladders@);
    let mut filled: Vec<(usize, MultiGridOrder)> = Vec::new();
    let mut j: usize = 0;
    while j < ladders.len()
        invariant
            j <= ladders@.len(),
            ladders@.len() == grid_orders@.len(),
            fin == ladders_view(ladders@),
            forall|i: int| 0 <= i < grid_orders@.len() ==> entries_wf(#[trigger] grid_orders@[i].entries@),
            filled@.len() == filled_upto(grid_orders@, fin, j as int).len(),
            forall|k: int|
                0 <= k < filled@.len() ==> {
                    let i = filled_upto(grid_orders@, fin, j as int)[k];
                    let o = (#[trigger] filled@[k]).1;
                    &&& filled@[k].0 as int == i
                    &&& o.entries@ == fin[i].1
                    &&& o.owner == grid_orders@[i].owner
                    &&& o.token_id == grid_orders@[i].token_id
                    &&& o.v() == filled_value(grid_orders@[i], fin[i].1)
                },
        decreases ladders@.len() - j,
    {
        assert(fin[j as int] == ladders@[j as int]@);
        if ladders[j].state != OrderMatchingState::NotMatched {
            assert(entries_wf(grid_orders@[j as int].entries@));
            match grid_orders[j].with_entries(ladders[j].entries.duplicate()) {
                Ok(o) => {
                    filled.push((j, o));
                },
                Err(_) => {},
            }
        }
        j = j + 1;
    }
    let p = settle(pool, y_diff)?;
    Ok((p, filled))
}

} // verus!
