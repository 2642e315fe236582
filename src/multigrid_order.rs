//! A ladder of grid order entries sharing one ledger record.
use crate::grid_order::{OrderState, OwnerKey, MIN_BOX_VALUE};
use crate::token::{
    box_value_in_bounds, BoxValue, BoxValueError, Token, TokenAmount, TokenAmountError, TokenId,
    MAX_AMOUNT,
};
use crate::units::Fraction;
use vstd::prelude::*;

verus! {

#[derive(Clone, Copy, Debug, PartialEq, Eq, Structural)]
pub enum GridOrderEntriesError {
    NoAskOrders,
    NoBidOrders,
}

#[derive(Clone, Copy, Debug)]
pub enum MultiGridConfigurationError {
    TokenId(TokenId, TokenId),
    /// Expected amount, then the amount found.
    TokenAmount(u64, u64),
    TokenLength(usize),
    TokenLengthNonZero(usize),
    /// Value needed, then the value held.
    BidValue(u64, u64),
}

#[derive(Clone, Copy, Debug)]
pub enum MultiGridOrderError {
    BoxValueError(BoxValueError),
    TokenAmountError(TokenAmountError),
    InvalidConfiguration(MultiGridConfigurationError),
    /// A register held a negative number, or a value left the signed range.
    TryFromIntError,
    ValueOverflow,
}

/// One rung of a ladder.
#[derive(Clone, Copy, Debug)]
pub struct GridOrderEntry {
    pub state: OrderState,
    pub token_amount: TokenAmount,
    pub bid_value: u64,
    pub ask_value: u64,
}

/// The register form of an entry: `((amount, buying), (bid, ask))`.
pub type EntryTuple = ((i64, bool), (i64, i64));

impl GridOrderEntry {
    pub open spec fn amount(self) -> int {
        self.token_amount.spec_u64() as int
    }

    pub open spec fn wf(self) -> bool {
        self.bid_value <= MAX_AMOUNT && self.ask_value <= MAX_AMOUNT
    }

    pub fn new(state: OrderState, token_amount: TokenAmount, bid_value: u64, ask_value: u64) -> (r:
        GridOrderEntry)
        ensures
            r == (GridOrderEntry { state, token_amount, bid_value, ask_value }),
    {
        GridOrderEntry { state, token_amount, bid_value, ask_value }
    }

    pub fn order_amount(&self) -> (r: u64)
        ensures
            r as int == self.amount(),
            1 <= r <= MAX_AMOUNT,
    {
        self.token_amount.as_u64()
    }

    pub fn bid(&self) -> (r: Fraction)
        ensures
            r.numer == self.bid_value && r.denom as int == self.amount(),
    {
        Fraction::new(self.bid_value, self.order_amount())
    }

    pub fn ask(&self) -> (r: Fraction)
        ensures
            r.numer == self.ask_value && r.denom as int == self.amount(),
    {
        Fraction::new(self.ask_value, self.order_amount())
    }

    /// The entry in register form; fails where a price leaves the signed range.
    pub fn to_register(self) -> (r: Result<EntryTuple, MultiGridOrderError>)
        ensures
            r is Ok <==> self.wf(),
            r is Ok ==> r->Ok_0 == ((self.amount() as i64, self.state == OrderState::Buy), (
                self.bid_value as i64,
                self.ask_value as i64,
            )) && reads_as(r->Ok_0, self),
    {
        let amount = self.order_amount();
        if self.bid_value > MAX_AMOUNT || self.ask_value > MAX_AMOUNT {
            return Err(MultiGridOrderError::TryFromIntError);
        }
        let buying = match self.state {
            OrderState::Buy => true,
            OrderState::Sell => false,
        };
        Ok(((amount as i64, buying), (self.bid_value as i64, self.ask_value as i64)))
    }

    /// Reads an entry from register form.
    pub fn from_register(t: EntryTuple) -> (r: Result<GridOrderEntry, MultiGridOrderError>)
        ensures
            ({
                let ((amount, buying), (bid, ask)) = t;
                &&& amount < 0 || bid < 0 || ask < 0 ==> r
                    == Err::<GridOrderEntry, _>(MultiGridOrderError::TryFromIntError)
                &&& amount == 0 && bid >= 0 && ask >= 0 ==> r == Err::<GridOrderEntry, _>(
                    MultiGridOrderError::TokenAmountError(TokenAmountError::OutOfBounds(0)),
                )
                &&& r is Ok <==> amount > 0 && bid >= 0 && ask >= 0
                &&& r is Ok ==> r->Ok_0.amount() == amount && r->Ok_0.bid_value == bid
                    && r->Ok_0.ask_value == ask && (r->Ok_0.state == OrderState::Buy <==> buying)
                    && r->Ok_0.wf()
            }),
    {
        let ((amount, buying), (bid, ask)) = t;
        if amount < 0 || bid < 0 || ask < 0 {
            return Err(MultiGridOrderError::TryFromIntError);
        }
        let token_amount = match TokenAmount::try_new(amount as u64) {
            Ok(a) => a,
            Err(e) => return Err(MultiGridOrderError::TokenAmountError(e)),
        };
        let state = if buying {
            OrderState::Buy
        } else {
            OrderState::Sell
        };
        Ok(GridOrderEntry { state, token_amount, bid_value: bid as u64, ask_value: ask as u64 })
    }
}

/// `a`'s bid price is below `b`'s.
pub open spec fn bid_below(a: GridOrderEntry, b: GridOrderEntry) -> bool {
    a.bid_value * b.amount() < b.bid_value * a.amount()
}

/// `a`'s ask price is below `b`'s.
pub open spec fn ask_below(a: GridOrderEntry, b: GridOrderEntry) -> bool {
    a.ask_value * b.amount() < b.ask_value * a.amount()
}

/// The best bid among the first `n` entries: the highest bid price of a buying
/// entry, the last one where several share it.
pub open spec fn best_bid_upto(s: Seq<GridOrderEntry>, n: int) -> Option<int>
    decreases n,
{
    if n <= 0 {
        None
    } else {
        let prev = best_bid_upto(s, n - 1);
        if s[n - 1].state == OrderState::Buy && (prev is None || !bid_below(
            s[n - 1],
            s[prev->Some_0],
        )) {
            Some(n - 1)
        } else {
            prev
        }
    }
}

/// The best ask among the first `n` entries: the lowest ask price of a selling
/// entry, the first one where several share it.
pub open spec fn best_ask_upto(s: Seq<GridOrderEntry>, n: int) -> Option<int>
    decreases n,
{
    if n <= 0 {
        None
    } else {
        let prev = best_ask_upto(s, n - 1);
        if s[n - 1].state == OrderState::Sell && (prev is None || ask_below(
            s[n - 1],
            s[prev->Some_0],
        )) {
            Some(n - 1)
        } else {
            prev
        }
    }
}

/// The best entries lie among the first `n` and are on their side.
pub proof fn lemma_best_in_range(s: Seq<GridOrderEntry>, n: int)
    requires
        0 <= n <= s.len(),
    ensures
        best_bid_upto(s, n) matches Some(i) ==> 0 <= i < n && s[i].state == OrderState::Buy,
        best_ask_upto(s, n) matches Some(i) ==> 0 <= i < n && s[i].state == OrderState::Sell,
        best_bid_upto(s, n) is None ==> forall|j: int|
            0 <= j < n ==> (#[trigger] s[j]).state != OrderState::Buy,
        best_ask_upto(s, n) is None ==> forall|j: int|
            0 <= j < n ==> (#[trigger] s[j]).state != OrderState::Sell,
    decreases n,
{
    if n > 0 {
        lemma_best_in_range(s, n - 1);
    }
}

/// Price order of bids is transitive when amounts are positive.
proof fn lemma_bid_order_transitive(a: GridOrderEntry, b: GridOrderEntry, c: GridOrderEntry)
    requires
        a.amount() >= 1,
        b.amount() >= 1,
        c.amount() >= 1,
        !bid_below(a, b),
        !bid_below(b, c),
    ensures
        !bid_below(a, c),
{
    let (pa, pb, pc) = (a.bid_value as int, b.bid_value as int, c.bid_value as int);
    let (qa, qb, qc) = (a.amount(), b.amount(), c.amount());
    assert(pb * qa <= pa * qb);
    assert(pc * qb <= pb * qc);
    assert(pc * qa * qb <= pa * qc * qb) by (nonlinear_arith)
        requires
            pb * qa <= pa * qb,
            pc * qb <= pb * qc,
            qa >= 1,
            qb >= 1,
            qc >= 1,
            pa >= 0,
            pb >= 0,
            pc >= 0,
    ;
    assert(pc * qa <= pa * qc) by (nonlinear_arith)
        requires
            pc * qa * qb <= pa * qc * qb,
            qb >= 1,
    ;
}

/// The best bid has the highest bid price of all buying entries, and every
/// buying entry after it has a strictly lower one.
pub proof fn lemma_best_bid_is_highest(s: Seq<GridOrderEntry>, n: int)
    requires
        0 <= n <= s.len(),
        forall|j: int| 0 <= j < s.len() ==> (#[trigger] s[j]).amount() >= 1,
    ensures
        best_bid_upto(s, n) matches Some(i) ==> {
            &&& forall|j: int|
                0 <= j < n && s[j].state == OrderState::Buy ==> !bid_below(s[i], #[trigger] s[j])
            &&& forall|j: int|
                i < j < n && s[j].state == OrderState::Buy ==> bid_below(#[trigger] s[j], s[i])
        },
    decreases n,
{
    if n > 0 {
        lemma_best_bid_is_highest(s, n - 1);
        lemma_best_in_range(s, n - 1);
        let prev = best_bid_upto(s, n - 1);
        if let Some(i) = best_bid_upto(s, n) {
            if i == n - 1 {
                if let Some(p) = prev {
                    assert forall|j: int|
                        0 <= j < n && s[j].state == OrderState::Buy implies !bid_below(
                        s[i],
                        #[trigger] s[j],
                    ) by {
                        if j < n - 1 {
                            lemma_bid_order_transitive(s[i], s[p], s[j]);
                        }
                    }
                }
            } else {
                assert forall|j: int|
                    i < j < n && s[j].state == OrderState::Buy implies bid_below(
                    #[trigger] s[j],
                    s[i],
                ) by {
                    if j == n - 1 {
                        assert(prev == Some(i));
                    }
                }
            }
        }
    }
}

/// Price order of asks is transitive when amounts are positive.
proof fn lemma_ask_order_transitive(a: GridOrderEntry, b: GridOrderEntry, c: GridOrderEntry)
    requires
        a.amount() >= 1,
        b.amount() >= 1,
        c.amount() >= 1,
        !ask_below(a, b),
        !ask_below(b, c),
    ensures
        !ask_below(a, c),
{
    let (pa, pb, pc) = (a.ask_value as int, b.ask_value as int, c.ask_value as int);
    let (qa, qb, qc) = (a.amount(), b.amount(), c.amount());
    assert(pb * qa <= pa * qb);
    assert(pc * qb <= pb * qc);
    assert(pc * qa * qb <= pa * qc * qb) by (nonlinear_arith)
        requires
            pb * qa <= pa * qb,
            pc * qb <= pb * qc,
            qa >= 1,
            qb >= 1,
            qc >= 1,
            pa >= 0,
            pb >= 0,
            pc >= 0,
    ;
    assert(pc * qa <= pa * qc) by (nonlinear_arith)
        requires
            pc * qa * qb <= pa * qc * qb,
            qb >= 1,
    ;
}

/// An ask below one that is at most a third is below the third.
proof fn lemma_ask_below_then_at_most(a: GridOrderEntry, b: GridOrderEntry, c: GridOrderEntry)
    requires
        a.amount() >= 1,
        b.amount() >= 1,
        c.amount() >= 1,
        ask_below(a, b),
        !ask_below(c, b),
    ensures
        ask_below(a, c),
{
    let (pa, pb, pc) = (a.ask_value as int, b.ask_value as int, c.ask_value as int);
    let (qa, qb, qc) = (a.amount(), b.amount(), c.amount());
    assert(pa * qb < pb * qa);
    assert(pb * qc <= pc * qb);
    assert(pa * qc * qb < pc * qa * qb) by (nonlinear_arith)
        requires
            pa * qb < pb * qa,
            pb * qc <= pc * qb,
            qa >= 1,
            qb >= 1,
            qc >= 1,
            pa >= 0,
            pb >= 0,
            pc >= 0,
    ;
    assert(pa * qc < pc * qa) by (nonlinear_arith)
        requires
            pa * qc * qb < pc * qa * qb,
            qb >= 1,
    ;
}

/// The best ask has the lowest ask price of all selling entries, and every
/// selling entry before it has a strictly higher one.
pub proof fn lemma_best_ask_is_lowest(s: Seq<GridOrderEntry>, n: int)
    requires
        0 <= n <= s.len(),
        forall|j: int| 0 <= j < s.len() ==> (#[trigger] s[j]).amount() >= 1,
    ensures
        best_ask_upto(s, n) matches Some(i) ==> {
            &&& forall|j: int|
                0 <= j < n && s[j].state == OrderState::Sell ==> !ask_below(#[trigger] s[j], s[i])
            &&& forall|j: int|
                0 <= j < i && s[j].state == OrderState::Sell ==> ask_below(s[i], #[trigger] s[j])
        },
    decreases n,
{
    if n > 0 {
        lemma_best_ask_is_lowest(s, n - 1);
        lemma_best_in_range(s, n - 1);
        let prev = best_ask_upto(s, n - 1);
        if let Some(i) = best_ask_upto(s, n) {
            if i == n - 1 {
                if let Some(p) = prev {
                    assert forall|j: int|
                        0 <= j < n && s[j].state == OrderState::Sell implies !ask_below(
                        #[trigger] s[j],
                        s[i],
                    ) by {
                        if j < n - 1 {
                            lemma_ask_order_transitive(s[j], s[p], s[i]);
                        }
                    }
                    assert forall|j: int|
                        0 <= j < i && s[j].state == OrderState::Sell implies ask_below(
                        s[i],
                        #[trigger] s[j],
                    ) by {
                        lemma_ask_below_then_at_most(s[i], s[p], s[j]);
                    }
                }
            }
        }
    }
}

pub open spec fn best_bid(s: Seq<GridOrderEntry>) -> Option<int> {
    best_bid_upto(s, s.len() as int)
}

pub open spec fn best_ask(s: Seq<GridOrderEntry>) -> Option<int> {
    best_ask_upto(s, s.len() as int)
}

/// Total amount held by the selling entries.
pub open spec fn sell_total(s: Seq<GridOrderEntry>) -> int
    decreases s.len(),
{
    if s.len() == 0 {
        0
    } else {
        sell_total(s.drop_last()) + if s.last().state == OrderState::Sell {
            s.last().amount()
        } else {
            0
        }
    }
}

/// Total bid of the buying entries: the collateral they need.
pub open spec fn buy_total(s: Seq<GridOrderEntry>) -> int
    decreases s.len(),
{
    if s.len() == 0 {
        0
    } else {
        buy_total(s.drop_last()) + if s.last().state == OrderState::Buy {
            s.last().bid_value as int
        } else {
            0
        }
    }
}

#[derive(Debug)]
pub struct GridOrderEntries {
    pub entries: Vec<GridOrderEntry>,
}

impl View for GridOrderEntries {
    type V = Seq<GridOrderEntry>;

    open spec fn view(&self) -> Seq<GridOrderEntry> {
        self.entries@
    }
}

impl GridOrderEntries {
    pub fn new(entries: Vec<GridOrderEntry>) -> (r: GridOrderEntries)
        ensures
            r@ == entries@,
    {
        GridOrderEntries { entries }
    }

    /// A copy holding the same entries.
    pub fn duplicate(&self) -> (r: GridOrderEntries)
        ensures
            r@ == self@,
    {
        let mut entries: Vec<GridOrderEntry> = Vec::new();
        let mut i: usize = 0;
        while i < self.entries.len()
            invariant
                i <= self@.len(),
                entries@ == self@.subrange(0, i as int),
            decreases self@.len() - i,
        {
            entries.push(self.entries[i]);
            i = i + 1;
            assert(entries@ =~= self@.subrange(0, i as int));
        }
        assert(entries@ =~= self@);
        GridOrderEntries { entries }
    }

    /// Index of the best bid entry.
    pub fn bid_index(&self) -> (r: Option<usize>)
        ensures
            r matches Some(i) ==> best_bid(self@) == Some(i as int) && i < self@.len()
                && self@[i as int].state == OrderState::Buy,
            r is None ==> best_bid(self@) is None,
    {
        let mut best: Option<usize> = None;
        let mut i: usize = 0;
        while i < self.entries.len()
            invariant
                i <= self@.len(),
                best matches Some(b) ==> best_bid_upto(self@, i as int) == Some(b as int) && b < i,
                best is None ==> best_bid_upto(self@, i as int) is None,
            decreases self@.len() - i,
        {
            let e = &self.entries[i];
            proof {
                lemma_best_in_range(self@, i as int);
            }
            if e.state == OrderState::Buy {
                match best {
                    None => {
                        best = Some(i);
                    },
                    Some(b) => {
                        if !e.bid().lt(&self.entries[b].bid()) {
                            best = Some(i);
                        }
                    },
                }
            }
            i = i + 1;
        }
        proof {
            lemma_best_in_range(self@, self@.len() as int);
        }
        best
    }

    /// Index of the best ask entry.
    pub fn ask_index(&self) -> (r: Option<usize>)
        ensures
            r matches Some(i) ==> best_ask(self@) == Some(i as int) && i < self@.len()
                && self@[i as int].state == OrderState::Sell,
            r is None ==> best_ask(self@) is None,
    {
        let mut best: Option<usize> = None;
        let mut i: usize = 0;
        while i < self.entries.len()
            invariant
                i <= self@.len(),
                best matches Some(b) ==> best_ask_upto(self@, i as int) == Some(b as int) && b < i,
                best is None ==> best_ask_upto(self@, i as int) is None,
            decreases self@.len() - i,
        {
            let e = &self.entries[i];
            proof {
                lemma_best_in_range(self@, i as int);
            }
            if e.state == OrderState::Sell {
                match best {
                    None => {
                        best = Some(i);
                    },
                    Some(b) => {
                        if e.ask().lt(&self.entries[b].ask()) {
                            best = Some(i);
                        }
                    },
                }
            }
            i = i + 1;
        }
        proof {
            lemma_best_in_range(self@, self@.len() as int);
        }
        best
    }

    pub fn bid_entry(&self) -> (r: Option<&GridOrderEntry>)
        ensures
            r is None <==> best_bid(self@) is None,
            r matches Some(e) ==> *e == self@[best_bid(self@)->Some_0],
    {
        match self.bid_index() {
            Some(i) => Some(&self.entries[i]),
            None => None,
        }
    }

    pub fn ask_entry(&self) -> (r: Option<&GridOrderEntry>)
        ensures
            r is None <==> best_ask(self@) is None,
            r matches Some(e) ==> *e == self@[best_ask(self@)->Some_0],
    {
        match self.ask_index() {
            Some(i) => Some(&self.entries[i]),
            None => None,
        }
    }

    /// The ladder after its best ask is filled: that entry turns to buying.
    pub fn into_fill_ask(self) -> (r: Result<GridOrderEntries, GridOrderEntriesError>)
        ensures
            best_ask(self@) is None ==> r == Err::<GridOrderEntries, _>(
                GridOrderEntriesError::NoAskOrders,
            ),
            best_ask(self@) matches Some(i) ==> r is Ok && r->Ok_0@ == self@.update(
                i,
                GridOrderEntry { state: OrderState::Buy, ..self@[i] },
            ),
    {
        match self.ask_index() {
            None => Err(GridOrderEntriesError::NoAskOrders),
            Some(i) => {
                let mut entries = self.entries;
                let e = entries[i];
                entries.set(i, GridOrderEntry { state: OrderState::Buy, ..e });
                Ok(GridOrderEntries { entries })
            },
        }
    }

    /// The ladder after its best bid is filled: that entry turns to selling.
    pub fn into_fill_bid(self) -> (r: Result<GridOrderEntries, GridOrderEntriesError>)
        ensures
            best_bid(self@) is None ==> r == Err::<GridOrderEntries, _>(
                GridOrderEntriesError::NoBidOrders,
            ),
            best_bid(self@) matches Some(i) ==> r is Ok && r->Ok_0@ == self@.update(
                i,
                GridOrderEntry { state: OrderState::Sell, ..self@[i] },
            ),
    {
        match self.bid_index() {
            None => Err(GridOrderEntriesError::NoBidOrders),
            Some(i) => {
                let mut entries = self.entries;
                let e = entries[i];
                entries.set(i, GridOrderEntry { state: OrderState::Sell, ..e });
                Ok(GridOrderEntries { entries })
            },
        }
    }

    /// Total amount of the traded token that the selling entries hold.
    pub fn token_amount(&self) -> (r: u64)
        requires
            sell_total(self@) <= u64::MAX,
        ensures
            r as int == sell_total(self@),
    {
        let mut total: u64 = 0;
        let mut i: usize = 0;
        while i < self.entries.len()
            invariant
                i <= self@.len(),
                total as int == sell_total(self@.subrange(0, i as int)),
                sell_total(self@) <= u64::MAX,
            decreases self@.len() - i,
        {
            proof {
                lemma_totals_grow(self@, i as int + 1);
                assert(self@.subrange(0, i + 1).drop_last() =~= self@.subrange(0, i as int));
            }
            if self.entries[i].state == OrderState::Sell {
                total = total + self.entries[i].order_amount();
            }
            i = i + 1;
        }
        assert(self@.subrange(0, self@.len() as int) =~= self@);
        total
    }
}

/// The running totals of a ladder never shrink as entries are added.
pub proof fn lemma_totals_grow(s: Seq<GridOrderEntry>, n: int)
    requires
        0 <= n <= s.len(),
    ensures
        0 <= sell_total(s.subrange(0, n)) <= sell_total(s),
        0 <= buy_total(s.subrange(0, n)) <= buy_total(s),
    decreases s.len(),
{
    if n < s.len() {
        lemma_totals_grow(s.drop_last(), n);
        assert(s.drop_last().subrange(0, n) =~= s.subrange(0, n));
        lemma_totals_nonneg(s.drop_last());
    } else {
        assert(s.subrange(0, n) =~= s);
        lemma_totals_nonneg(s);
    }
}

pub proof fn lemma_totals_nonneg(s: Seq<GridOrderEntry>)
    ensures
        sell_total(s) >= 0,
        buy_total(s) >= 0,
    decreases s.len(),
{
    if s.len() > 0 {
        lemma_totals_nonneg(s.drop_last());
    }
}

/// How filling moves an order's value, over the first `n` rungs of the old and new
/// ladders: a buy that filled pays its bid, a sell that filled receives its ask.
pub open spec fn value_shift(old: Seq<GridOrderEntry>, new: Seq<GridOrderEntry>, n: int) -> int
    decreases n,
{
    if n <= 0 {
        0
    } else {
        value_shift(old, new, n - 1) + match (old[n - 1].state, new[n - 1].state) {
            (OrderState::Buy, OrderState::Sell) => -(old[n - 1].bid_value as int),
            (OrderState::Sell, OrderState::Buy) => old[n - 1].ask_value as int,
            _ => 0,
        }
    }
}

pub open spec fn min_len(a: Seq<GridOrderEntry>, b: Seq<GridOrderEntry>) -> int {
    if a.len() <= b.len() {
        a.len() as int
    } else {
        b.len() as int
    }
}

#[derive(Debug)]
pub struct MultiGridOrder {
    pub owner: OwnerKey,
    pub token_id: TokenId,
    pub entries: GridOrderEntries,
    pub value: BoxValue,
}

impl MultiGridOrder {
    pub open spec fn v(&self) -> int {
        self.value.spec_u64() as int
    }

    /// Every price fits the ledger's integers and the buying rungs are funded.
    pub open spec fn wf(&self) -> bool {
        &&& forall|i: int| 0 <= i < self.entries@.len() ==> (#[trigger] self.entries@[i]).wf()
        &&& self.v() >= MIN_BOX_VALUE + buy_total(self.entries@)
    }

    /// An order holding exactly the collateral its buying rungs need.
    pub fn new(owner: OwnerKey, token_id: TokenId, entries: GridOrderEntries) -> (r: Result<
        MultiGridOrder,
        MultiGridOrderError,
    >)
        ensures
            MIN_BOX_VALUE + buy_total(entries@) > u64::MAX ==> r == Err::<MultiGridOrder, _>(
                MultiGridOrderError::ValueOverflow,
            ),
            r is Ok <==> MIN_BOX_VALUE + buy_total(entries@) <= MAX_AMOUNT,
            MAX_AMOUNT < MIN_BOX_VALUE + buy_total(entries@) <= u64::MAX ==> r
                == Err::<MultiGridOrder, _>(
                MultiGridOrderError::BoxValueError(
                    BoxValueError::OutOfBounds((MIN_BOX_VALUE + buy_total(entries@)) as u64),
                ),
            ),
            r is Ok ==> r->Ok_0.owner == owner && r->Ok_0.token_id == token_id
                && r->Ok_0.entries@ == entries@ && r->Ok_0.v() == MIN_BOX_VALUE + buy_total(
                entries@,
            ),
    {
        let mut total: u64 = MIN_BOX_VALUE;
        let mut i: usize = 0;
        while i < entries.entries.len()
            invariant
                i <= entries@.len(),
                total as int == MIN_BOX_VALUE + buy_total(entries@.subrange(0, i as int)),
            decreases entries@.len() - i,
        {
            proof {
                assert(entries@.subrange(0, i + 1).drop_last() =~= entries@.subrange(0, i as int));
            }
            if entries.entries[i].state == OrderState::Buy {
                if total > u64::MAX - entries.entries[i].bid_value {
                    proof {
                        lemma_totals_grow(entries@, i as int + 1);
                    }
                    return Err(MultiGridOrderError::ValueOverflow);
                }
                total = total + entries.entries[i].bid_value;
            }
            i = i + 1;
        }
        assert(entries@.subrange(0, entries@.len() as int) =~= entries@);
        proof {
            lemma_totals_nonneg(entries@);
        }
        match BoxValue::try_new(total) {
            Ok(value) => Ok(MultiGridOrder { owner, token_id, entries, value }),
            Err(e) => Err(MultiGridOrderError::BoxValueError(e)),
        }
    }

    pub fn bid_entry(&self) -> (r: Option<&GridOrderEntry>)
        ensures
            r is None <==> best_bid(self.entries@) is None,
            r matches Some(e) ==> *e == self.entries@[best_bid(self.entries@)->Some_0],
    {
        self.entries.bid_entry()
    }

    pub fn ask_entry(&self) -> (r: Option<&GridOrderEntry>)
        ensures
            r is None <==> best_ask(self.entries@) is None,
            r matches Some(e) ==> *e == self.entries@[best_ask(self.entries@)->Some_0],
    {
        self.entries.ask_entry()
    }

    /// Price of the best bid.
    pub fn bid(&self) -> (r: Option<Fraction>)
        ensures
            r is None <==> best_bid(self.entries@) is None,
            r matches Some(f) ==> f.numer == self.entries@[best_bid(self.entries@)->Some_0].bid_value
                && f.denom as int == self.entries@[best_bid(self.entries@)->Some_0].amount(),
    {
        match self.bid_entry() {
            Some(e) => Some(e.bid()),
            None => None,
        }
    }

    /// Price of the best ask.
    pub fn ask(&self) -> (r: Option<Fraction>)
        ensures
            r is None <==> best_ask(self.entries@) is None,
            r matches Some(f) ==> f.numer == self.entries@[best_ask(self.entries@)->Some_0].ask_value
                && f.denom as int == self.entries@[best_ask(self.entries@)->Some_0].amount(),
    {
        match self.ask_entry() {
            Some(e) => Some(e.ask()),
            None => None,
        }
    }

    /// The order holding `entries` in place of its own, its value moved by what
    /// the rungs that changed side paid or received.
    pub fn with_entries(&self, entries: GridOrderEntries) -> (r: Result<
        MultiGridOrder,
        MultiGridOrderError,
    >)
        requires
            forall|i: int| 0 <= i < self.entries@.len() ==> (#[trigger] self.entries@[i]).wf(),
        ensures
            ({
                let v = self.v() + value_shift(
                    self.entries@,
                    entries@,
                    min_len(self.entries@, entries@),
                );
                &&& r is Ok <==> box_value_in_bounds(v)
                &&& r is Ok ==> r->Ok_0.owner == self.owner && r->Ok_0.token_id == self.token_id
                    && r->Ok_0.entries@ == entries@ && r->Ok_0.v() == v
            }),
    {
        let old = &self.entries.entries;
        let n: usize = if old.len() <= entries.entries.len() {
            old.len()
        } else {
            entries.entries.len()
        };
        let start = self.value.as_u64();
        let mut acc: i128 = start as i128;
        let mut i: usize = 0;
        while i < n
            invariant
                n == min_len(self.entries@, entries@),
                n <= self.entries@.len(),
                n <= entries@.len(),
                i <= n,
                *old == self.entries.entries,
                forall|k: int| 0 <= k < self.entries@.len() ==> (#[trigger] self.entries@[k]).wf(),
                start as int == self.v(),
                start <= MAX_AMOUNT,
                acc as int == self.v() + value_shift(self.entries@, entries@, i as int),
                -(i as int) * (MAX_AMOUNT as int) <= value_shift(self.entries@, entries@, i as int)
                    <= (i as int) * (MAX_AMOUNT as int),
            decreases n - i,
        {
            let o = old[i];
            let e = entries.entries[i];
            proof {
                assert(self.entries@[i as int].wf());
                assert((i as int + 1) * (MAX_AMOUNT as int) == (i as int) * (MAX_AMOUNT as int)
                    + MAX_AMOUNT) by (nonlinear_arith);
                assert((i as int + 1) * (MAX_AMOUNT as int) <= (usize::MAX as int) * (
                MAX_AMOUNT as int)) by (nonlinear_arith)
                    requires
                        i < n,
                        n <= usize::MAX,
                ;
            }
            match (o.state, e.state) {
                (OrderState::Buy, OrderState::Sell) => {
                    acc = acc - o.bid_value as i128;
                },
                (OrderState::Sell, OrderState::Buy) => {
                    acc = acc + o.ask_value as i128;
                },
                _ => {},
            }
            i = i + 1;
        }
        if acc < MIN_BOX_RAW_I128 || acc > MAX_AMOUNT as i128 {
            return Err(MultiGridOrderError::TryFromIntError);
        }
        let value = match BoxValue::try_new(acc as u64) {
            Ok(v) => v,
            Err(e) => return Err(MultiGridOrderError::BoxValueError(e)),
        };
        Ok(MultiGridOrder { owner: self.owner, token_id: self.token_id, entries, value })
    }

    /// Native value the order has collected beyond the collateral of its buying rungs.
    pub fn profit(&self) -> (r: u64)
        requires
            self.wf(),
        ensures
            r as int == self.v() - MIN_BOX_VALUE - buy_total(self.entries@),
    {
        let mut expected: u64 = MIN_BOX_VALUE;
        let mut i: usize = 0;
        let v = self.value.as_u64();
        while i < self.entries.entries.len()
            invariant
                i <= self.entries@.len(),
                expected as int == MIN_BOX_VALUE + buy_total(self.entries@.subrange(0, i as int)),
                self.wf(),
                v as int == self.v(),
                v <= MAX_AMOUNT,
            decreases self.entries@.len() - i,
        {
            proof {
                assert(self.entries@.subrange(0, i + 1).drop_last() =~= self.entries@.subrange(
                    0,
                    i as int,
                ));
                lemma_totals_grow(self.entries@, i as int + 1);
            }
            if self.entries.entries[i].state == OrderState::Buy {
                expected = expected + self.entries.entries[i].bid_value;
            }
            i = i + 1;
        }
        assert(self.entries@.subrange(0, self.entries@.len() as int) =~= self.entries@);
        v - expected
    }
}


const MIN_BOX_RAW_I128: i128 = 10800;

/// The error reading an entry from register form gives, if any.
pub open spec fn register_error(t: EntryTuple) -> Option<MultiGridOrderError> {
    let ((amount, buying), (bid, ask)) = t;
    if amount < 0 || bid < 0 || ask < 0 {
        Some(MultiGridOrderError::TryFromIntError)
    } else if amount == 0 {
        Some(MultiGridOrderError::TokenAmountError(TokenAmountError::OutOfBounds(0)))
    } else {
        None
    }
}

/// Whether `e` is what entry `t` reads as.
pub open spec fn reads_as(t: EntryTuple, e: GridOrderEntry) -> bool {
    let ((amount, buying), (bid, ask)) = t;
    &&& e.amount() == amount
    &&& e.bid_value == bid
    &&& e.ask_value == ask
    &&& (e.state == OrderState::Buy <==> buying)
}

impl GridOrderEntries {
    /// The entries in register form.
    pub fn to_registers(&self) -> (r: Result<Vec<EntryTuple>, MultiGridOrderError>)
        ensures
            r is Ok <==> entries_all_wf(self@),
            r is Ok ==> r->Ok_0@.len() == self@.len() && forall|i: int|
                0 <= i < self@.len() ==> reads_as(#[trigger] r->Ok_0@[i], self@[i]),
    {
        let mut out: Vec<EntryTuple> = Vec::new();
        let mut i: usize = 0;
        while i < self.entries.len()
            invariant
                i <= self@.len(),
                out@.len() == i,
                forall|k: int| 0 <= k < i ==> reads_as(#[trigger] out@[k], self@[k]),
                forall|k: int| 0 <= k < i ==> (#[trigger] self@[k]).wf(),
            decreases self@.len() - i,
        {
            match self.entries[i].to_register() {
                Ok(t) => {
                    out.push(t);
                },
                Err(e) => {
                    return Err(e);
                },
            }
            i = i + 1;
        }
        Ok(out)
    }

    /// Reads entries from register form; the first entry that fails gives the error.
    pub fn from_registers(registers: &Vec<EntryTuple>) -> (r: Result<
        GridOrderEntries,
        MultiGridOrderError,
    >)
        ensures
            r is Ok <==> forall|i: int|
                0 <= i < registers@.len() ==> register_error(#[trigger] registers@[i]) is None,
            r is Ok ==> r->Ok_0@.len() == registers@.len() && entries_all_wf(r->Ok_0@) && forall|
                i: int,
            | 0 <= i < registers@.len() ==> reads_as(#[trigger] registers@[i], r->Ok_0@[i]),
            r is Err ==> exists|i: int|
                0 <= i < registers@.len() && register_error(#[trigger] registers@[i]) == Some(
                    r->Err_0,
                ) && forall|k: int| 0 <= k < i ==> register_error(#[trigger] registers@[k]) is None,
    {
        let mut entries: Vec<GridOrderEntry> = Vec::new();
        let mut i: usize = 0;
        while i < registers.len()
            invariant
                i <= registers@.len(),
                entries@.len() == i,
                forall|k: int| 0 <= k < i ==> register_error(#[trigger] registers@[k]) is None,
                forall|k: int| 0 <= k < i ==> reads_as(#[trigger] registers@[k], entries@[k]),
                entries_all_wf(entries@),
            decreases registers@.len() - i,
        {
            match GridOrderEntry::from_register(registers[i]) {
                Ok(e) => {
                    entries.push(e);
                },
                Err(err) => {
                    return Err(err);
                },
            }
            i = i + 1;
        }
        Ok(GridOrderEntries { entries })
    }
}

pub open spec fn entries_all_wf(s: Seq<GridOrderEntry>) -> bool {
    forall|i: int| 0 <= i < s.len() ==> (#[trigger] s[i]).wf()
}

/// Sums over a ladder in wide integers: the total bid of the buying rungs, the
/// amount the selling rungs hold.
fn ladder_sums(entries: &GridOrderEntries) -> (r: (u128, u128))
    requires
        entries_all_wf(entries@),
    ensures
        r.0 as int == buy_total(entries@),
        r.1 as int == sell_total(entries@),
{
    let mut bids: u128 = 0;
    let mut sells: u128 = 0;
    let mut i: usize = 0;
    while i < entries.entries.len()
        invariant
            i <= entries@.len(),
            entries_all_wf(entries@),
            bids as int == buy_total(entries@.subrange(0, i as int)),
            sells as int == sell_total(entries@.subrange(0, i as int)),
            bids <= i as int * MAX_AMOUNT,
            sells <= i as int * MAX_AMOUNT,
        decreases entries@.len() - i,
    {
        proof {
            assert(entries@.subrange(0, i + 1).drop_last() =~= entries@.subrange(0, i as int));
            assert(entries@[i as int].wf());
            assert((i as int + 1) * MAX_AMOUNT == i as int * MAX_AMOUNT + MAX_AMOUNT) by (nonlinear_arith);
            assert((i as int + 1) * MAX_AMOUNT <= usize::MAX as int * MAX_AMOUNT) by (nonlinear_arith)
                requires
                    i < entries@.len(),
                    entries@.len() <= usize::MAX,
            ;
        }
        let e = entries.entries[i];
        if e.state == OrderState::Buy {
            bids = bids + e.bid_value as u128;
        }
        if e.state == OrderState::Sell {
            sells = sells + e.order_amount() as u128;
        }
        i = i + 1;
    }
    assert(entries@.subrange(0, entries@.len() as int) =~= entries@);
    (bids, sells)
}

/// Total bid of the buying entries in register form.
pub open spec fn register_buy_total(t: Seq<EntryTuple>) -> int
    decreases t.len(),
{
    if t.len() == 0 {
        0
    } else {
        register_buy_total(t.drop_last()) + if t.last().0.1 {
            t.last().1.0 as int
        } else {
            0
        }
    }
}

/// Total amount of the selling entries in register form.
pub open spec fn register_sell_total(t: Seq<EntryTuple>) -> int
    decreases t.len(),
{
    if t.len() == 0 {
        0
    } else {
        register_sell_total(t.drop_last()) + if t.last().0.1 {
            0
        } else {
            t.last().0.0 as int
        }
    }
}

proof fn lemma_register_totals(t: Seq<EntryTuple>, s: Seq<GridOrderEntry>)
    requires
        t.len() == s.len(),
        forall|i: int| 0 <= i < t.len() ==> reads_as(#[trigger] t[i], s[i]),
    ensures
        buy_total(s) == register_buy_total(t),
        sell_total(s) == register_sell_total(t),
    decreases t.len(),
{
    if t.len() > 0 {
        let (t0, s0) = (t.drop_last(), s.drop_last());
        assert forall|i: int| 0 <= i < t0.len() implies reads_as(#[trigger] t0[i], s0[i]) by {
            assert(t0[i] == t[i] && s0[i] == s[i]);
            assert(reads_as(t[i], s[i]));
        }
        lemma_register_totals(t0, s0);
        assert(reads_as(t[t.len() - 1], s[s.len() - 1]));
    }
}

/// The error a record with these contents gives once its entries are read, if any.
pub open spec fn record_error(
    tokens: Option<Vec<Token>>,
    token_id: TokenId,
    bids: int,
    sells: int,
    value: int,
) -> Option<MultiGridOrderError> {
    if bids > u64::MAX - MIN_BOX_VALUE || sells > u64::MAX {
        Some(MultiGridOrderError::ValueOverflow)
    } else {
        match tokens {
            None => if sells > 0 {
                Some(
                    MultiGridOrderError::InvalidConfiguration(
                        MultiGridConfigurationError::TokenLength(0),
                    ),
                )
            } else if value < MIN_BOX_VALUE + bids {
                Some(
                    MultiGridOrderError::InvalidConfiguration(
                        MultiGridConfigurationError::BidValue(
                            (MIN_BOX_VALUE + bids) as u64,
                            value as u64,
                        ),
                    ),
                )
            } else {
                None
            },
            Some(v) => if sells == 0 {
                Some(
                    MultiGridOrderError::InvalidConfiguration(
                        MultiGridConfigurationError::TokenLengthNonZero(1),
                    ),
                )
            } else if v.len() != 1 {
                Some(
                    MultiGridOrderError::InvalidConfiguration(
                        MultiGridConfigurationError::TokenLength(v.len()),
                    ),
                )
            } else if v[0].token_id@ != token_id@ {
                Some(
                    MultiGridOrderError::InvalidConfiguration(
                        MultiGridConfigurationError::TokenId(token_id, v[0].token_id),
                    ),
                )
            } else if v[0].amount.spec_u64() != sells {
                Some(
                    MultiGridOrderError::InvalidConfiguration(
                        MultiGridConfigurationError::TokenAmount(
                            sells as u64,
                            v[0].amount.spec_u64(),
                        ),
                    ),
                )
            } else if value < MIN_BOX_VALUE + bids {
                Some(
                    MultiGridOrderError::InvalidConfiguration(
                        MultiGridConfigurationError::BidValue(
                            (MIN_BOX_VALUE + bids) as u64,
                            value as u64,
                        ),
                    ),
                )
            } else {
                None
            },
        }
    }
}

impl MultiGridOrder {
    /// Reads an order out of a ledger record's contents: the owner, the ladder in
    /// register form and the traded token from its registers, the tokens it holds
    /// and its value. The record must hold exactly the tokens of its selling rungs
    /// in one token entry, or none when no rung sells, and its value must cover the
    /// minimum plus the bids of its buying rungs. Totals that leave 64 bits give
    /// `ValueOverflow`.
    pub fn from_record(
        owner: OwnerKey,
        registers: &Vec<EntryTuple>,
        token_id: TokenId,
        tokens: Option<Vec<Token>>,
        value: BoxValue,
    ) -> (r: Result<MultiGridOrder, MultiGridOrderError>)
        ensures
            (exists|i: int|
                0 <= i < registers@.len() && register_error(#[trigger] registers@[i]) is Some) ==> r
                is Err && exists|i: int|
                0 <= i < registers@.len() && register_error(#[trigger] registers@[i]) == Some(
                    r->Err_0,
                ),
            r is Ok ==> {
                let o = r->Ok_0;
                let s = o.entries@;
                &&& o.owner == owner && o.token_id == token_id && o.value == value
                &&& s.len() == registers@.len()
                &&& forall|i: int| 0 <= i < s.len() ==> reads_as(#[trigger] registers@[i], s[i])
                &&& entries_all_wf(s)
                &&& o.wf()
                &&& MIN_BOX_VALUE + buy_total(s) <= u64::MAX && sell_total(s) <= u64::MAX
                &&& value.spec_u64() >= MIN_BOX_VALUE + buy_total(s)
                &&& match tokens {
                    None => sell_total(s) == 0,
                    Some(v) => sell_total(s) > 0 && v.len() == 1 && v[0].token_id@ == token_id@
                        && v[0].amount.spec_u64() == sell_total(s),
                }
            },
            (forall|i: int|
                0 <= i < registers@.len() ==> register_error(#[trigger] registers@[i]) is None) ==> {
                let c = record_error(
                    tokens,
                    token_id,
                    register_buy_total(registers@),
                    register_sell_total(registers@),
                    value.spec_u64() as int,
                );
                &&& r is Err <==> c is Some
                &&& r is Err ==> r->Err_0 == c->Some_0
            },
    {
        let entries = GridOrderEntries::from_registers(registers)?;
        let (bids, sells) = ladder_sums(&entries);
        proof {
            lemma_register_totals(registers@, entries@);
        }
        if bids > (u64::MAX - MIN_BOX_VALUE) as u128 || sells > u64::MAX as u128 {
            return Err(MultiGridOrderError::ValueOverflow);
        }
        let min_value = bids as u64 + MIN_BOX_VALUE;
        let expected = sells as u64;
        let current = value.as_u64();
        match tokens {
            None => {
                if expected > 0 {
                    Err(
                        MultiGridOrderError::InvalidConfiguration(
                            MultiGridConfigurationError::TokenLength(0),
                        ),
                    )
                } else if current < min_value {
                    Err(
                        MultiGridOrderError::InvalidConfiguration(
                            MultiGridConfigurationError::BidValue(min_value, current),
                        ),
                    )
                } else {
                    Ok(MultiGridOrder { owner, token_id, entries, value })
                }
            },
            Some(v) => {
                if expected == 0 {
                    Err(
                        MultiGridOrderError::InvalidConfiguration(
                            MultiGridConfigurationError::TokenLengthNonZero(1),
                        ),
                    )
                } else if v.len() != 1 {
                    Err(
                        MultiGridOrderError::InvalidConfiguration(
                            MultiGridConfigurationError::TokenLength(v.len()),
                        ),
                    )
                } else if v[0].token_id != token_id {
                    Err(
                        MultiGridOrderError::InvalidConfiguration(
                            MultiGridConfigurationError::TokenId(token_id, v[0].token_id),
                        ),
                    )
                } else if v[0].amount.as_u64() != expected {
                    Err(
                        MultiGridOrderError::InvalidConfiguration(
                            MultiGridConfigurationError::TokenAmount(expected, v[0].amount.as_u64()),
                        ),
                    )
                } else if current < min_value {
                    Err(
                        MultiGridOrderError::InvalidConfiguration(
                            MultiGridConfigurationError::BidValue(min_value, current),
                        ),
                    )
                } else {
                    Ok(MultiGridOrder { owner, token_id, entries, value })
                }
            },
        }
    }
}

} // verus!
