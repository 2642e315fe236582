//! Deciding when matching must run again: the set of relevant records, adjusted
//! for transactions still waiting in the mempool, and a gate that notices new ones.
use crate::grid_order::{GridOrder, OrderState};
use crate::pool::SpectrumPool;
use crate::token::{same_bytes, TokenId};
use vstd::prelude::*;

verus! {

/// Identifier of a ledger record: a 32-byte digest.
#[derive(Clone, Copy, Debug)]
pub struct BoxId {
    pub bytes: [u8; 32],
}

impl View for BoxId {
    type V = Seq<u8>;

    open spec fn view(&self) -> Seq<u8> {
        self.bytes@
    }
}

impl BoxId {
    pub fn new(bytes: [u8; 32]) -> (r: BoxId)
        ensures
            r.bytes == bytes,
    {
        BoxId { bytes }
    }
}

impl PartialEq for BoxId {
    fn eq(&self, other: &BoxId) -> (r: bool)
        ensures
            r == (self@ == other@),
    {
        same_bytes(&self.bytes, &other.bytes)
    }
}

impl Eq for BoxId {
}

impl vstd::std_specs::cmp::PartialEqSpecImpl for BoxId {
    open spec fn obeys_eq_spec() -> bool {
        true
    }

    open spec fn eq_spec(&self, other: &BoxId) -> bool {
        self@ == other@
    }
}

/// The identifiers a list holds, as a set.
pub open spec fn id_set(s: Seq<BoxId>) -> Set<Seq<u8>> {
    Set::new(|x: Seq<u8>| exists|i: int| 0 <= i < s.len() && (#[trigger] s[i])@ == x)
}

/// No identifier occurs twice in the list.
pub open spec fn distinct_ids(s: Seq<BoxId>) -> bool {
    forall|i: int, j: int| 0 <= i < j < s.len() ==> (#[trigger] s[i])@ != (#[trigger] s[j])@
}

/// Whether `id` is among `ids`.
pub fn contains_id(ids: &Vec<BoxId>, id: &BoxId) -> (r: bool)
    ensures
        r == id_set(ids@).contains(id@),
{
    let mut i: usize = 0;
    while i < ids.len()
        invariant
            i <= ids@.len(),
            forall|j: int| 0 <= j < i ==> (#[trigger] ids@[j])@ != id@,
        decreases ids@.len() - i,
    {
        if ids[i] == *id {
            assert(id_set(ids@).contains(id@) == true) by {
                assert(ids@[i as int]@ == id@);
            }
            return true;
        }
        i = i + 1;
    }
    false
}

/// The identifiers of `a` that are not in `b`, each once.
pub fn difference(a: &Vec<BoxId>, b: &Vec<BoxId>) -> (r: Vec<BoxId>)
    ensures
        id_set(r@) == id_set(a@).difference(id_set(b@)),
        distinct_ids(r@),
{
    let mut out: Vec<BoxId> = Vec::new();
    let mut i: usize = 0;
    while i < a.len()
        invariant
            i <= a@.len(),
            id_set(out@) == id_set(a@.subrange(0, i as int)).difference(id_set(b@)),
            distinct_ids(out@),
        decreases a@.len() - i,
    {
        let ghost prev = out@;
        if !contains_id(b, &a[i]) && !contains_id(&out, &a[i]) {
            out.push(a[i]);
            proof {
                assert forall|p: int, q: int| 0 <= p < q < out@.len() implies (#[trigger] out@[p])@
                    != (#[trigger] out@[q])@ by {
                    if q == prev.len() {
                        assert(out@[p] == prev[p]);
                        if prev[p]@ == a@[i as int]@ {
                            assert(id_set(prev).contains(a@[i as int]@));
                        }
                    } else {
                        assert(out@[p] == prev[p] && out@[q] == prev[q]);
                    }
                }
            }
        }
        proof {
            let next = a@.subrange(0, i + 1);
            assert(next =~= a@.subrange(0, i as int).push(a@[i as int]));
            assert(id_set(out@) =~= id_set(next).difference(id_set(b@))) by {
                assert forall|x: Seq<u8>| id_set(out@).contains(x) implies id_set(next).difference(
                    id_set(b@),
                ).contains(x) by {
                    let j = choose|j: int| 0 <= j < out@.len() && (#[trigger] out@[j])@ == x;
                    if j < prev.len() {
                        assert(prev[j] == out@[j]);
                        assert(id_set(prev).contains(x));
                        let k = choose|k: int|
                            0 <= k < i && (#[trigger] a@.subrange(0, i as int)[k])@ == x;
                        assert(next[k] == a@.subrange(0, i as int)[k]);
                    } else {
                        assert(next[i as int] == a@[i as int]);
                    }
                }
                assert forall|x: Seq<u8>| id_set(next).difference(id_set(b@)).contains(x) implies id_set(
                    out@,
                ).contains(x) by {
                    let k = choose|k: int| 0 <= k < next.len() && (#[trigger] next[k])@ == x;
                    if k < i {
                        assert(a@.subrange(0, i as int)[k] == next[k]);
                        assert(id_set(prev).contains(x));
                        let j = choose|j: int| 0 <= j < prev.len() && (#[trigger] prev[j])@ == x;
                        assert(out@[j] == prev[j]);
                    } else {
                        if id_set(prev).contains(x) {
                            let j = choose|j: int| 0 <= j < prev.len() && (#[trigger] prev[j])@ == x;
                            assert(out@[j] == prev[j]);
                        } else {
                            assert(out@[out@.len() - 1] == a@[i as int]);
                        }
                    }
                }
            }
        }
        i = i + 1;
    }
    assert(a@.subrange(0, a@.len() as int) =~= a@);
    out
}

/// A copy of a list of identifiers.
fn copy_ids(a: &Vec<BoxId>) -> (r: Vec<BoxId>)
    ensures
        r@ == a@,
{
    let mut out: Vec<BoxId> = Vec::new();
    let mut i: usize = 0;
    while i < a.len()
        invariant
            i <= a@.len(),
            out@ == a@.subrange(0, i as int),
        decreases a@.len() - i,
    {
        out.push(a[i]);
        i = i + 1;
        assert(out@ =~= a@.subrange(0, i as int));
    }
    assert(a@.subrange(0, a@.len() as int) =~= a@);
    out
}

proof fn lemma_id_set_empty(s: Seq<BoxId>)
    ensures
        id_set(s).is_empty() <==> s.len() == 0,
{
    if s.len() > 0 {
        assert(id_set(s).contains(s[0]@));
    } else {
        assert(id_set(s) =~= Set::empty());
    }
}

/// What `BoxIdGate` answers when it knows `current` and `ids` arrive: nothing
/// when no id is new, else the ids gone and the ids new.
pub open spec fn gate_check(current: Set<Seq<u8>>, ids: Set<Seq<u8>>) -> Option<
    (Set<Seq<u8>>, Set<Seq<u8>>),
> {
    if ids.subset_of(current) {
        None
    } else {
        Some((current.difference(ids), ids.difference(current)))
    }
}

/// The set `BoxIdGate` knows after `ids` arrive: it is replaced only when an id is new.
pub open spec fn gate_after(current: Set<Seq<u8>>, ids: Set<Seq<u8>>) -> Set<Seq<u8>> {
    if ids.subset_of(current) {
        current
    } else {
        ids
    }
}

/// Remembers the last set of record ids and reports when new ones appear; ids
/// that disappear alone do not count, since spent records need no new matching.
pub struct BoxIdGate {
    current_ids: Vec<BoxId>,
}

impl View for BoxIdGate {
    type V = Set<Seq<u8>>;

    closed spec fn view(&self) -> Set<Seq<u8>> {
        id_set(self.current_ids@)
    }
}

impl BoxIdGate {
    pub fn new() -> (r: BoxIdGate)
        ensures
            r@ == Set::<Seq<u8>>::empty(),
    {
        let r = BoxIdGate { current_ids: Vec::new() };
        assert(r@ =~= Set::<Seq<u8>>::empty());
        r
    }

    /// Checks a new list of ids: `None` when none of them is new; else the ids
    /// that are gone and the ids that are new, and the new list is remembered.
    pub fn check_box_ids(&mut self, box_ids: &Vec<BoxId>) -> (r: Option<(Vec<BoxId>, Vec<BoxId>)>)
        ensures
            r is None <==> gate_check(old(self)@, id_set(box_ids@)) is None,
            r matches Some((spent, new)) ==> gate_check(old(self)@, id_set(box_ids@)) == Some(
                (id_set(spent@), id_set(new@)),
            ),
            r matches Some((spent, new)) ==> distinct_ids(spent@) && distinct_ids(new@),
            final(self)@ == gate_after(old(self)@, id_set(box_ids@)),
    {
        let new_ids = difference(box_ids, &self.current_ids);
        proof {
            lemma_id_set_empty(new_ids@);
            let d = id_set(box_ids@).difference(id_set(self.current_ids@));
            assert(d.is_empty() <==> id_set(box_ids@).subset_of(id_set(self.current_ids@))) by {
                if !d.is_empty() {
                    let x = d.choose();
                    assert(d.contains(x));
                }
                if !id_set(box_ids@).subset_of(id_set(self.current_ids@)) {
                    let x = choose|x: Seq<u8>|
                        id_set(box_ids@).contains(x) && !id_set(self.current_ids@).contains(x);
                    assert(d.contains(x));
                }
            }
        }
        if new_ids.len() == 0 {
            None
        } else {
            let spent_ids = difference(&self.current_ids, box_ids);
            self.current_ids = copy_ids(box_ids);
            Some((spent_ids, new_ids))
        }
    }
}

impl Default for BoxIdGate {
    fn default() -> (r: BoxIdGate)
        ensures
            r@ == Set::<Seq<u8>>::empty(),
    {
        BoxIdGate::new()
    }
}

/// A `BoxIdGate` shown the same ids twice in a row reports nothing the second time;
/// and it reports something exactly when an id is absent from the set it knew.
pub proof fn lemma_gate_same_ids_twice(current: Set<Seq<u8>>, ids: Set<Seq<u8>>)
    ensures
        gate_check(gate_after(current, ids), ids) is None,
        gate_check(current, ids) is Some <==> exists|x: Seq<u8>| ids.contains(x) && !current.contains(x),
{
    if !ids.subset_of(current) {
        let x = choose|x: Seq<u8>| ids.contains(x) && !current.contains(x);
        assert(ids.contains(x) && !current.contains(x));
    }
}

/// A transaction still waiting in the mempool: the records it spends and creates.
pub struct PendingTransaction {
    pub inputs: Vec<BoxId>,
    pub outputs: Vec<BoxId>,
}

/// The overlay after one more transaction: its inputs are spent and no longer
/// created, its outputs are created.
pub open spec fn overlay_step(
    spent: Set<Seq<u8>>,
    created: Set<Seq<u8>>,
    tx: PendingTransaction,
) -> (Set<Seq<u8>>, Set<Seq<u8>>) {
    (
        spent.union(id_set(tx.inputs@)),
        created.difference(id_set(tx.inputs@)).union(id_set(tx.outputs@)),
    )
}

/// The overlay after the first `n` transactions, replayed in order.
pub open spec fn overlay_fold(txs: Seq<PendingTransaction>, n: int) -> (Set<Seq<u8>>, Set<Seq<u8>>)
    decreases n,
{
    if n <= 0 {
        (Set::empty(), Set::empty())
    } else {
        let prev = overlay_fold(txs, n - 1);
        overlay_step(prev.0, prev.1, txs[n - 1])
    }
}

/// The ledger as unconfirmed transactions will leave it: the records they spend
/// and the records they create, replayed in the order given (a transaction that
/// spends another's output must come after it).
pub struct MempoolOverlay {
    spent_boxes: Vec<BoxId>,
    created_boxes: Vec<BoxId>,
}

impl View for MempoolOverlay {
    type V = (Set<Seq<u8>>, Set<Seq<u8>>);

    closed spec fn view(&self) -> (Set<Seq<u8>>, Set<Seq<u8>>) {
        (id_set(self.spent_boxes@), id_set(self.created_boxes@))
    }
}

/// `a` followed by the ids of `b` it lacks.
fn union_ids(a: Vec<BoxId>, b: &Vec<BoxId>) -> (r: Vec<BoxId>)
    ensures
        id_set(r@) == id_set(a@).union(id_set(b@)),
{
    let extra = difference(b, &a);
    let mut out = a;
    let ghost base = out@;
    let mut i: usize = 0;
    while i < extra.len()
        invariant
            i <= extra@.len(),
            out@ == base + extra@.subrange(0, i as int),
        decreases extra@.len() - i,
    {
        out.push(extra[i]);
        i = i + 1;
        assert(out@ =~= base + extra@.subrange(0, i as int));
    }
    assert(extra@.subrange(0, extra@.len() as int) =~= extra@);
    proof {
        assert(id_set(out@) =~= id_set(base).union(id_set(b@))) by {
            assert forall|x: Seq<u8>| id_set(out@).contains(x) implies id_set(base).union(
                id_set(b@),
            ).contains(x) by {
                let j = choose|j: int| 0 <= j < out@.len() && (#[trigger] out@[j])@ == x;
                if j < base.len() {
                    assert(out@[j] == base[j]);
                } else {
                    assert(out@[j] == extra@[j - base.len()]);
                    assert(id_set(extra@).contains(x));
                }
            }
            assert forall|x: Seq<u8>| id_set(base).union(id_set(b@)).contains(x) implies id_set(
                out@,
            ).contains(x) by {
                if id_set(base).contains(x) {
                    let j = choose|j: int| 0 <= j < base.len() && (#[trigger] base[j])@ == x;
                    assert(out@[j] == base[j]);
                } else {
                    assert(id_set(extra@).contains(x));
                    let j = choose|j: int| 0 <= j < extra@.len() && (#[trigger] extra@[j])@ == x;
                    assert(out@[base.len() + j] == extra@[j]);
                }
            }
        }
    }
    out
}

impl MempoolOverlay {
    pub fn new() -> (r: MempoolOverlay)
        ensures
            r@ == (Set::<Seq<u8>>::empty(), Set::<Seq<u8>>::empty()),
    {
        let r = MempoolOverlay { spent_boxes: Vec::new(), created_boxes: Vec::new() };
        assert(r@.0 =~= Set::<Seq<u8>>::empty());
        assert(r@.1 =~= Set::<Seq<u8>>::empty());
        r
    }

    /// Replays one more transaction.
    pub fn add_transaction(&mut self, tx: &PendingTransaction)
        ensures
            final(self)@ == overlay_step(old(self)@.0, old(self)@.1, *tx),
    {
        let mut spent: Vec<BoxId> = Vec::new();
        std::mem::swap(&mut spent, &mut self.spent_boxes);
        self.spent_boxes = union_ids(spent, &tx.inputs);
        let kept = difference(&self.created_boxes, &tx.inputs);
        self.created_boxes = union_ids(kept, &tx.outputs);
    }

    /// The overlay of transactions replayed in the order given.
    pub fn from_transactions(txs: &Vec<PendingTransaction>) -> (r: MempoolOverlay)
        ensures
            r@ == overlay_fold(txs@, txs@.len() as int),
    {
        let mut overlay = MempoolOverlay::new();
        let mut i: usize = 0;
        while i < txs.len()
            invariant
                i <= txs@.len(),
                overlay@ == overlay_fold(txs@, i as int),
            decreases txs@.len() - i,
        {
            overlay.add_transaction(&txs[i]);
            i = i + 1;
        }
        overlay
    }

    /// Whether a transaction waiting in the mempool spends the record.
    pub fn is_spent(&self, id: &BoxId) -> (r: bool)
        ensures
            r == self@.0.contains(id@),
    {
        contains_id(&self.spent_boxes, id)
    }

    /// The records the waiting transactions create and do not spend again.
    pub fn created_ids(&self) -> (r: Vec<BoxId>)
        ensures
            id_set(r@) == self@.1,
    {
        copy_ids(&self.created_boxes)
    }

    /// Positions, in order, of the records of `base` that no waiting transaction spends.
    pub fn unspent_indices(&self, base: &Vec<BoxId>) -> (r: Vec<usize>)
        ensures
            forall|k: int| 0 <= k < r@.len() ==> (#[trigger] r@[k]) < base@.len() && !self@.0.contains(
                base@[r@[k] as int]@,
            ),
            forall|k: int, l: int| 0 <= k < l < r@.len() ==> r@[k] < r@[l],
            forall|i: int|
                0 <= i < base@.len() && !self@.0.contains(base@[i]@) ==> exists|k: int|
                    0 <= k < r@.len() && r@[k] == i,
    {
        let mut out: Vec<usize> = Vec::new();
        let mut i: usize = 0;
        while i < base.len()
            invariant
                i <= base@.len(),
                forall|k: int| 0 <= k < out@.len() ==> (#[trigger] out@[k]) < i && !self@.0.contains(
                    base@[out@[k] as int]@,
                ),
                forall|k: int, l: int| 0 <= k < l < out@.len() ==> out@[k] < out@[l],
                forall|j: int|
                    0 <= j < i && !self@.0.contains(base@[j]@) ==> exists|k: int|
                        0 <= k < out@.len() && out@[k] == j,
            decreases base@.len() - i,
        {
            if !self.is_spent(&base[i]) {
                let ghost prev = out@;
                out.push(i);
                proof {
                    assert forall|j: int|
                        0 <= j < i + 1 && !self@.0.contains(base@[j]@) implies exists|k: int|
                        0 <= k < out@.len() && out@[k] == j by {
                        if j < i {
                            let k = choose|k: int| 0 <= k < prev.len() && prev[k] == j;
                            assert(out@[k] == prev[k]);
                        } else {
                            assert(out@[prev.len() as int] == i);
                        }
                    }
                }
            }
            i = i + 1;
        }
        out
    }
}

/// The pool that orders of `token` are matched against, among the first `n`: a
/// well-formed pool trading `token` with the largest numeraire reserve, the last
/// one where several share it.
pub open spec fn best_pool_upto(pools: Seq<SpectrumPool>, token: Seq<u8>, n: int) -> Option<int>
    decreases n,
{
    if n <= 0 {
        None
    } else {
        let prev = best_pool_upto(pools, token, n - 1);
        let p = pools[n - 1];
        if p.wf() && p.asset_y.token_id@ == token && (prev is None || p.x() >= pools[prev->Some_0].x()) {
            Some(n - 1)
        } else {
            prev
        }
    }
}

proof fn lemma_best_pool_in_range(pools: Seq<SpectrumPool>, token: Seq<u8>, n: int)
    requires
        0 <= n,
    ensures
        best_pool_upto(pools, token, n) matches Some(i) ==> 0 <= i < n,
    decreases n,
{
    if n > 0 {
        lemma_best_pool_in_range(pools, token, n - 1);
    }
}

/// Chooses the pool to match orders of `token` against.
pub fn best_pool_index(pools: &Vec<SpectrumPool>, token: &TokenId) -> (r: Option<usize>)
    ensures
        r matches Some(i) ==> best_pool_upto(pools@, token@, pools@.len() as int) == Some(i as int),
        r is None ==> best_pool_upto(pools@, token@, pools@.len() as int) is None,
{
    let mut best: Option<usize> = None;
    let mut i: usize = 0;
    while i < pools.len()
        invariant
            i <= pools@.len(),
            best matches Some(b) ==> best_pool_upto(pools@, token@, i as int) == Some(b as int) && b < i,
            best is None ==> best_pool_upto(pools@, token@, i as int) is None,
        decreases pools@.len() - i,
    {
        let p = &pools[i];
        if p.is_valid() && p.asset_y.token_id == *token {
            match best {
                None => {
                    best = Some(i);
                },
                Some(b) => {
                    if p.asset_x.amount.as_u64() >= pools[b].asset_x.amount.as_u64() {
                        best = Some(i);
                    }
                },
            }
        }
        i = i + 1;
    }
    best
}

/// Whether an order can be matched in the group of `token` and `side`.
pub open spec fn in_group(o: GridOrder, token: Seq<u8>, side: OrderState) -> bool {
    o.wf() && o.token.token_id@ == token && o.state == side
}

/// Positions, in order, of the well-formed orders trading `token` that wait on `side`.
pub fn group_indices(orders: &Vec<GridOrder>, token: &TokenId, side: OrderState) -> (r: Vec<usize>)
    ensures
        forall|k: int|
            0 <= k < r@.len() ==> (#[trigger] r@[k]) < orders@.len() && in_group(
                orders@[r@[k] as int],
                token@,
                side,
            ),
        forall|k: int, l: int| 0 <= k < l < r@.len() ==> r@[k] < r@[l],
        forall|i: int|
            0 <= i < orders@.len() && in_group(#[trigger] orders@[i], token@, side) ==> exists|k: int|
                0 <= k < r@.len() && r@[k] == i,
{
    let mut out: Vec<usize> = Vec::new();
    let mut i: usize = 0;
    while i < orders.len()
        invariant
            i <= orders@.len(),
            forall|k: int|
                0 <= k < out@.len() ==> (#[trigger] out@[k]) < i && in_group(
                    orders@[out@[k] as int],
                    token@,
                    side,
                ),
            forall|k: int, l: int| 0 <= k < l < out@.len() ==> out@[k] < out@[l],
            forall|j: int|
                0 <= j < i && in_group(#[trigger] orders@[j], token@, side) ==> exists|k: int|
                    0 <= k < out@.len() && out@[k] == j,
        decreases orders@.len() - i,
    {
        let o = &orders[i];
        if o.is_valid() && o.token.token_id == *token && o.state == side {
            let ghost prev = out@;
            out.push(i);
            proof {
                assert forall|j: int|
                    0 <= j < i + 1 && in_group(#[trigger] orders@[j], token@, side) implies exists|k: int|
                    0 <= k < out@.len() && out@[k] == j by {
                    if j < i {
                        let k = choose|k: int| 0 <= k < prev.len() && prev[k] == j;
                        assert(out@[k] == prev[k]);
                    } else {
                        assert(out@[prev.len() as int] == i);
                    }
                }
            }
        }
        i = i + 1;
    }
    out
}

/// The assets the first `n` orders trade, each once, in order of first appearance.
pub open spec fn tokens_upto(orders: Seq<GridOrder>, n: int) -> Seq<Seq<u8>>
    decreases n,
{
    if n <= 0 {
        Seq::empty()
    } else {
        let prev = tokens_upto(orders, n - 1);
        let t = orders[n - 1].token.token_id@;
        if prev.contains(t) {
            prev
        } else {
            prev.push(t)
        }
    }
}

/// The listed assets are exactly those of the orders, with none twice.
pub proof fn lemma_tokens_upto(orders: Seq<GridOrder>, n: int)
    requires
        0 <= n <= orders.len(),
    ensures
        forall|i: int| 0 <= i < n ==> tokens_upto(orders, n).contains(#[trigger] orders[i].token.token_id@),
        forall|k: int| 0 <= k < tokens_upto(orders, n).len() ==> exists|i: int|
            0 <= i < n && orders[i].token.token_id@ == #[trigger] tokens_upto(orders, n)[k],
        tokens_upto(orders, n).no_duplicates(),
    decreases n,
{
    if n > 0 {
        lemma_tokens_upto(orders, n - 1);
        let prev = tokens_upto(orders, n - 1);
        let t = orders[n - 1].token.token_id@;
        let cur = tokens_upto(orders, n);
        assert forall|i: int| 0 <= i < n implies cur.contains(#[trigger] orders[i].token.token_id@) by {
            if i < n - 1 {
                let k = choose|k: int| 0 <= k < prev.len() && prev[k] == orders[i].token.token_id@;
                assert(cur[k] == prev[k]);
            } else if !prev.contains(t) {
                assert(cur[prev.len() as int] == t);
            }
        }
        assert forall|k: int| 0 <= k < cur.len() implies exists|i: int|
            0 <= i < n && orders[i].token.token_id@ == #[trigger] cur[k] by {
            if k < prev.len() {
                assert(cur[k] == prev[k]);
            } else {
                assert(orders[n - 1].token.token_id@ == cur[k]);
            }
        }
    }
}

/// The assets the orders trade, each once, in order of first appearance.
pub fn traded_tokens(orders: &Vec<GridOrder>) -> (r: Vec<TokenId>)
    ensures
        r@.map_values(|t: TokenId| t@) == tokens_upto(orders@, orders@.len() as int),
{
    let mut out: Vec<TokenId> = Vec::new();
    let mut i: usize = 0;
    while i < orders.len()
        invariant
            i <= orders@.len(),
            out@.map_values(|t: TokenId| t@) == tokens_upto(orders@, i as int),
        decreases orders@.len() - i,
    {
        let t = orders[i].token.token_id;
        let ghost seen = out@.map_values(|t: TokenId| t@);
        let mut found = false;
        let mut k: usize = 0;
        while k < out.len()
            invariant
                k <= out@.len(),
                seen == out@.map_values(|t: TokenId| t@),
                found == exists|m: int| 0 <= m < k && seen[m] == t@,
            decreases out@.len() - k,
        {
            if out[k] == t {
                assert(seen[k as int] == t@);
                found = true;
            }
            k = k + 1;
        }
        proof {
            if seen.contains(t@) {
                let m = choose|m: int| 0 <= m < seen.len() && seen[m] == t@;
                assert(found);
            }
            if found {
                let m = choose|m: int| 0 <= m < out@.len() && seen[m] == t@;
                assert(seen.contains(t@));
            }
        }
        if !found {
            out.push(t);
            assert(out@.map_values(|t: TokenId| t@) =~= seen.push(t@));
        }
        i = i + 1;
    }
    out
}

} // verus!
