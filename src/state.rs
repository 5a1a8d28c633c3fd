use crate::dec::{clamp, tdiv, Dec, SCALE};
use crate::market::MarketplaceOrderUpdate;
use crate::order::{has_trade, next_status, updated_order, trades_total, Order, OrderSide, OrderStatus, OrderType};
use crate::portfolio::{balances, others_unchanged, Portfolio};
use crate::ticker::Ticker;
use vstd::prelude::*;

verus! {

broadcast use crate::dec::lemma_dec_bounded;

/// The ledger: the portfolio and every order placed through it.
#[derive(Debug)]
pub struct State {
    pub portfolio: Portfolio,
    pub orders: Vec<Order>,
}

/// Criteria an order must meet to be listed; an empty `status` list admits any status.
#[derive(Debug)]
pub struct OrderListFilters {
    pub ticker: Option<Ticker>,
    pub status: Vec<OrderStatus>,
    pub side: Option<OrderSide>,
    pub session: Option<String>,
    pub strategy: Option<String>,
    pub has_child: Option<bool>,
}

impl Default for OrderListFilters {
    fn default() -> (r: OrderListFilters)
        ensures
            r.ticker is None,
            r.status@.len() == 0,
            r.side is None,
            r.session is None,
            r.strategy is None,
            r.has_child is None,
    {
        OrderListFilters {
            ticker: None,
            status: Vec::new(),
            side: None,
            session: None,
            strategy: None,
            has_child: None,
        }
    }
}

#[derive(Debug, Clone, Copy, PartialEq, Eq, Structural)]
pub enum OrderListSortBy {
    Date,
}

/// Order of a listing: by working time, ascending or descending.
#[derive(Debug, Clone, Copy, PartialEq, Eq, Structural)]
pub struct OrderListSort {
    pub by: OrderListSortBy,
    pub asc: bool,
}

pub open spec fn matches_filters(o: Order, f: OrderListFilters) -> bool {
    &&& match f.ticker {
        Some(t) => o.ticker.same(t),
        None => true,
    }
    &&& match f.side {
        Some(s) => o.side == s,
        None => true,
    }
    &&& (f.status@.len() == 0 || f.status@.contains(o.status))
    &&& match f.session {
        Some(s) => o.session_id is Some && o.session_id->Some_0@ == s@,
        None => true,
    }
    &&& match f.has_child {
        Some(h) => (o.next_order_id is Some) == h,
        None => true,
    }
}

pub open spec fn filter_pred(f: OrderListFilters) -> spec_fn(Order) -> bool {
    |o: Order| matches_filters(o, f)
}

/// Indices, in increasing order, of the orders that meet `pred`.
pub open spec fn matching_indices(orders: Seq<Order>, pred: spec_fn(Order) -> bool) -> Seq<usize>
    decreases orders.len(),
{
    if orders.len() == 0 {
        Seq::empty()
    } else {
        let m = matching_indices(orders.drop_last(), pred);
        if pred(orders.last()) {
            m.push((orders.len() - 1) as usize)
        } else {
            m
        }
    }
}

/// Sort key of an order: its working time, zero when it has none.
pub open spec fn time_key(o: Order) -> int {
    match o.working_time {
        Some(t) => t as int,
        None => 0,
    }
}

/// Whether order `a` may stay ahead of order `x` in a listing.
pub open spec fn keeps_ahead(orders: Seq<Order>, a: usize, x: usize, asc: bool) -> bool {
    if asc {
        time_key(orders[a as int]) <= time_key(orders[x as int])
    } else {
        time_key(orders[a as int]) >= time_key(orders[x as int])
    }
}

/// Inserts index `x` into the sorted `s` after every entry that may stay ahead of it.
pub open spec fn insert_sorted(orders: Seq<Order>, s: Seq<usize>, x: usize, asc: bool) -> Seq<usize>
    decreases s.len(),
{
    if s.len() == 0 {
        seq![x]
    } else if keeps_ahead(orders, s.last(), x, asc) {
        s.push(x)
    } else {
        insert_sorted(orders, s.drop_last(), x, asc).push(s.last())
    }
}

/// Stable sort of the indices `s` by working time.
pub open spec fn sort_indices(orders: Seq<Order>, s: Seq<usize>, asc: bool) -> Seq<usize>
    decreases s.len(),
{
    if s.len() == 0 {
        Seq::empty()
    } else {
        insert_sorted(orders, sort_indices(orders, s.drop_last(), asc), s.last(), asc)
    }
}

/// Indices of the orders a listing returns, in its order.
pub open spec fn listing(orders: Seq<Order>, f: OrderListFilters, asc: bool) -> Seq<usize> {
    sort_indices(orders, matching_indices(orders, filter_pred(f)), asc)
}

/// Index of the first order with this id, or -1.
pub open spec fn order_index(orders: Seq<Order>, id: Seq<char>) -> int
    decreases orders.len(),
{
    if orders.len() == 0 {
        -1
    } else {
        let k = order_index(orders.drop_last(), id);
        if k >= 0 {
            k
        } else if orders.last().id@ == id {
            orders.len() - 1
        } else {
            -1
        }
    }
}

/// The asset an order reserves and how much of it, by side and type; `None` for the
/// types that the ledger does not take.
pub open spec fn reservation(o: Order) -> Option<(Seq<char>, int)> {
    match (o.side, o.order_type) {
        (OrderSide::Buy, OrderType::Market) => Some((o.ticker.quote@, o.quote_amount@)),
        (OrderSide::Buy, OrderType::Limit) => Some(
            (o.ticker.quote@, clamp(tdiv(o.amount@ * o.price@, SCALE as int))),
        ),
        (OrderSide::Sell, OrderType::Market) => Some((o.ticker.base@, o.amount@)),
        (OrderSide::Sell, OrderType::Limit) => Some((o.ticker.base@, o.amount@)),
        _ => None,
    }
}

pub proof fn lemma_matching_indices(orders: Seq<Order>, f: spec_fn(Order) -> bool)
    ensures
        forall|j: int|
            0 <= j < matching_indices(orders, f).len() ==> #[trigger] matching_indices(
                orders,
                f,
            )[j] < orders.len(),
    decreases orders.len(),
{
    if orders.len() > 0 {
        lemma_matching_indices(orders.drop_last(), f);
        let m = matching_indices(orders.drop_last(), f);
        assert forall|j: int| 0 <= j < m.len() implies #[trigger] m[j] < orders.len() by {
            assert(m[j] < orders.drop_last().len());
        }
        if f(orders.last()) {
            let mp = m.push((orders.len() - 1) as usize);
            assert forall|j: int| 0 <= j < mp.len() implies #[trigger] mp[j] < orders.len() by {
                if j < m.len() {
                    assert(mp[j] == m[j]);
                }
            }
        }
    }
}

/// Listings by predicates that agree on every order are the same.
pub proof fn lemma_matching_same(orders: Seq<Order>, p: spec_fn(Order) -> bool, q: spec_fn(Order) -> bool)
    requires
        forall|o: Order| #[trigger] p(o) == q(o),
    ensures
        matching_indices(orders, p) == matching_indices(orders, q),
    decreases orders.len(),
{
    if orders.len() > 0 {
        lemma_matching_same(orders.drop_last(), p, q);
    }
}

proof fn lemma_insert_sorted(orders: Seq<Order>, s: Seq<usize>, x: usize, asc: bool, j: int)
    requires
        0 <= j <= s.len(),
        j == 0 || keeps_ahead(orders, s[j - 1], x, asc),
        forall|k: int| j <= k < s.len() ==> !keeps_ahead(orders, #[trigger] s[k], x, asc),
    ensures
        insert_sorted(orders, s, x, asc) == s.subrange(0, j).push(x) + s.subrange(j, s.len() as int),
    decreases s.len(),
{
    if s.len() == 0 {
        assert(s.subrange(0, j).push(x) + s.subrange(j, s.len() as int) =~= seq![x]);
    } else if keeps_ahead(orders, s.last(), x, asc) {
        assert(j == s.len());
        assert(s.subrange(0, j).push(x) + s.subrange(j, s.len() as int) =~= s.push(x));
    } else {
        let d = s.drop_last();
        assert(j < s.len());
        assert forall|k: int| j <= k < d.len() implies !keeps_ahead(orders, #[trigger] d[k], x, asc) by {
            assert(d[k] == s[k]);
        }
        lemma_insert_sorted(orders, d, x, asc, j);
        assert(d.subrange(0, j).push(x) + d.subrange(j, d.len() as int) + seq![s.last()]
            =~= s.subrange(0, j).push(x) + s.subrange(j, s.len() as int));
        assert(insert_sorted(orders, d, x, asc).push(s.last()) =~= insert_sorted(orders, d, x, asc)
            + seq![s.last()]);
    }
}

pub proof fn lemma_sort_indices_bounded(orders: Seq<Order>, s: Seq<usize>, asc: bool)
    requires
        forall|j: int| 0 <= j < s.len() ==> #[trigger] s[j] < orders.len(),
    ensures
        sort_indices(orders, s, asc).len() == s.len(),
        forall|j: int|
            0 <= j < s.len() ==> #[trigger] sort_indices(orders, s, asc)[j] < orders.len(),
    decreases s.len(),
{
    if s.len() > 0 {
        let d = s.drop_last();
        assert forall|j: int| 0 <= j < d.len() implies #[trigger] d[j] < orders.len() by {
            assert(d[j] == s[j]);
        }
        lemma_sort_indices_bounded(orders, d, asc);
        lemma_insert_sorted_bounded(orders, sort_indices(orders, d, asc), s.last(), asc);
    }
}

pub proof fn lemma_insert_sorted_bounded(orders: Seq<Order>, s: Seq<usize>, x: usize, asc: bool)
    requires
        x < orders.len(),
        forall|j: int| 0 <= j < s.len() ==> #[trigger] s[j] < orders.len(),
    ensures
        insert_sorted(orders, s, x, asc).len() == s.len() + 1,
        forall|j: int|
            0 <= j < s.len() + 1 ==> #[trigger] insert_sorted(orders, s, x, asc)[j] < orders.len(),
    decreases s.len(),
{
    if s.len() > 0 && !keeps_ahead(orders, s.last(), x, asc) {
        let d = s.drop_last();
        assert forall|j: int| 0 <= j < d.len() implies #[trigger] d[j] < orders.len() by {
            assert(d[j] == s[j]);
        }
        lemma_insert_sorted_bounded(orders, d, x, asc);
    }
}

/// Whether an order meets the filters.
pub fn order_matches(o: &Order, f: &OrderListFilters) -> (r: bool)
    ensures
        r == matches_filters(*o, *f),
{
    if let Some(t) = &f.ticker {
        if !(o.ticker == *t) {
            return false;
        }
    }
    if let Some(s) = &f.side {
        if o.side != *s {
            return false;
        }
    }
    if f.status.len() > 0 {
        let mut found = false;
        let mut i: usize = 0;
        while i < f.status.len()
            invariant
                i <= f.status@.len(),
                found == exists|j: int| 0 <= j < i && f.status@[j] == o.status,
            decreases f.status@.len() - i,
        {
            if f.status[i] == o.status {
                found = true;
            }
            i = i + 1;
        }
        if !found {
            return false;
        }
    }
    if let Some(s) = &f.session {
        match &o.session_id {
            Some(x) => {
                if !(*x == *s) {
                    return false;
                }
            },
            None => {
                return false;
            },
        }
    }
    if let Some(h) = &f.has_child {
        if o.next_order_id.is_some() != *h {
            return false;
        }
    }
    true
}

fn time_key_exec(o: &Order) -> (r: u64)
    ensures
        r == time_key(*o),
{
    match o.working_time {
        Some(t) => t,
        None => 0,
    }
}

impl State {
    pub open spec fn wf(self) -> bool {
        self.portfolio.wf()
    }

    pub fn new() -> (r: State)
        ensures
            r.orders@.len() == 0,
            r.portfolio.assets@.len() == 0,
            r.wf(),
    {
        State { portfolio: Portfolio::new(), orders: Vec::new() }
    }

    /// Position of the first order with this id.
    pub fn find_by_id(&self, id: &String) -> (r: Option<usize>)
        ensures
            match r {
                Some(i) => i == order_index(self.orders@, id@) && i < self.orders@.len()
                    && self.orders@[i as int].id@ == id@,
                None => order_index(self.orders@, id@) == -1,
            },
    {
        let mut i: usize = 0;
        while i < self.orders.len()
            invariant
                i <= self.orders@.len(),
                order_index(self.orders@.subrange(0, i as int), id@) == -1,
            decreases self.orders@.len() - i,
        {
            proof {
                assert(self.orders@.subrange(0, i + 1).drop_last() =~= self.orders@.subrange(0, i as int));
            }
            if self.orders[i].id == *id {
                proof {
                    lemma_order_index_prefix(self.orders@, id@, (i + 1) as int);
                }
                return Some(i);
            }
            i = i + 1;
        }
        proof {
            assert(self.orders@.subrange(0, i as int) =~= self.orders@);
        }
        None
    }

    /// Applies an exchange update to the order it names; other orders, and updates
    /// that name no order, leave the ledger unchanged.
    pub fn update_order(&mut self, update: MarketplaceOrderUpdate)
        ensures
            final(self).portfolio == old(self).portfolio,
            final(self).orders@.len() == old(self).orders@.len(),
            order_index(old(self).orders@, update.client_id@) == -1 ==> final(self).orders@ == old(
                self,
            ).orders@,
            order_index(old(self).orders@, update.client_id@) >= 0 ==> {
                let k = order_index(old(self).orders@, update.client_id@);
                &&& forall|j: int|
                    0 <= j < old(self).orders@.len() && j != k ==> #[trigger] final(self).orders@[j]
                        == old(self).orders@[j]
                &&& updated_order(old(self).orders@[k], final(self).orders@[k], update)
            },
    {
        if let Some(i) = self.find_by_id(&update.client_id) {
            let mut o = self.orders.remove(i);
            o.update(update);
            self.orders.insert(i, o);
        }
    }

    /// Takes a draft order into the ledger: reserves what it needs, marks it sent,
    /// links it after its predecessor in the session and appends it.
    ///
    /// Fails, changing nothing, when the order is not a draft, its type is not taken,
    /// or the free balance is short of what it needs.
    pub fn add_order(&mut self, order: Order) -> (r: Result<Order, String>)
        ensures
            r is Ok <==> (order.status == OrderStatus::Draft && reservation(order) is Some
                && old(self).portfolio.index_of(reservation(order)->Some_0.0) >= 0
                && old(self).portfolio.assets@[old(self).portfolio.index_of(
                reservation(order)->Some_0.0,
            )].amount@ >= reservation(order)->Some_0.1),
            r is Err ==> *final(self) == *old(self),
            r is Ok ==> {
                let (sym, need) = reservation(order)->Some_0;
                let k = old(self).portfolio.index_of(sym);
                let a = old(self).portfolio.assets@[k];
                let n = old(self).orders@.len() as int;
                let p = match order.prev_order_id {
                    Some(id) => order_index(old(self).orders@, id@),
                    None => -1,
                };
                &&& others_unchanged(old(self).portfolio.assets@, final(self).portfolio.assets@, k)
                &&& final(self).portfolio.assets@[k].symbol == a.symbol
                &&& final(self).portfolio.assets@[k].amount@ == clamp(a.amount@ - need)
                &&& final(self).portfolio.assets@[k].locked@ == clamp(a.locked@ + need)
                &&& final(self).orders@.len() == n + 1
                &&& forall|j: int|
                    0 <= j < n && j != p ==> #[trigger] final(self).orders@[j] == old(
                        self,
                    ).orders@[j]
                &&& p >= 0 ==> final(self).orders@[p] == (Order {
                    next_order_id: Some(order.id),
                    ..old(self).orders@[p]
                })
                &&& p >= 0 ==> final(self).orders@[p].id == old(self).orders@[p].id
                &&& p >= 0 ==> final(self).orders@[p].status == old(self).orders@[p].status
                &&& final(self).orders@[n].status == OrderStatus::Sent
                &&& final(self).orders@[n].id == order.id
                &&& r->Ok_0.same(final(self).orders@[n])
            },
            old(self).wf() ==> final(self).wf(),
    {
        if order.status != OrderStatus::Draft {
            return Err(String::from_str("Order status is not Draft"));
        }
        let reserved = match (order.side, order.order_type) {
            (OrderSide::Buy, OrderType::Market) => {
                self.portfolio.reserve_funds(order.ticker.quote.as_str(), order.quote_amount)
            },
            (OrderSide::Buy, OrderType::Limit) => {
                self.portfolio.reserve_funds(
                    order.ticker.quote.as_str(),
                    order.amount.mul(order.price),
                )
            },
            (OrderSide::Sell, OrderType::Market) | (OrderSide::Sell, OrderType::Limit) => {
                self.portfolio.reserve_funds(order.ticker.base.as_str(), order.amount)
            },
            _ => {
                return Err(String::from_str("Order type not supported"));
            },
        };
        if let Err(e) = reserved {
            return Err(e);
        }
        proof {
            crate::portfolio::lemma_asset_index(
                old(self).portfolio.assets@,
                reservation(order)->Some_0.0,
            );
        }
        if let Some(prev_id) = &order.prev_order_id {
            if let Some(k) = self.find_by_id(prev_id) {
                let mut prev = self.orders.remove(k);
                prev.next_order_id = Some(order.id.clone());
                self.orders.insert(k, prev);
                proof {
                    assert(self.orders@ =~= old(self).orders@.update(k as int, prev));
                }
            }
        }
        let mut stored = order;
        stored.status = OrderStatus::Sent;
        let out = stored.clone();
        self.orders.push(stored);
        Ok(out)
    }

    /// Indices of the orders that meet the filters, in the listing order.
    pub fn find_indices(&self, filters: &OrderListFilters, sort: &OrderListSort) -> (r: Vec<usize>)
        ensures
            r@ == listing(self.orders@, *filters, sort.asc),
            forall|j: int| 0 <= j < r@.len() ==> #[trigger] r@[j] < self.orders@.len(),
    {
        let mut m: Vec<usize> = Vec::new();
        let mut i: usize = 0;
        while i < self.orders.len()
            invariant
                i <= self.orders@.len(),
                m@ == matching_indices(self.orders@.subrange(0, i as int), filter_pred(*filters)),
            decreases self.orders@.len() - i,
        {
            proof {
                let p = self.orders@.subrange(0, i + 1);
                assert(p.drop_last() =~= self.orders@.subrange(0, i as int));
                assert(p.last() == self.orders@[i as int]);
            }
            if order_matches(&self.orders[i], filters) {
                m.push(i);
            }
            i = i + 1;
        }
        proof {
            assert(self.orders@.subrange(0, i as int) =~= self.orders@);
            lemma_matching_indices(self.orders@, filter_pred(*filters));
        }
        let ghost all = m@;
        let mut s: Vec<usize> = Vec::new();
        let mut i: usize = 0;
        while i < m.len()
            invariant
                i <= m@.len(),
                m@ == all,
                forall|j: int| 0 <= j < all.len() ==> #[trigger] all[j] < self.orders@.len(),
                s@ == sort_indices(self.orders@, all.subrange(0, i as int), sort.asc),
                forall|j: int| 0 <= j < s@.len() ==> #[trigger] s@[j] < self.orders@.len(),
                s@.len() == i,
            decreases m@.len() - i,
        {
            let x = m[i];
            let kx = time_key_exec(&self.orders[x]);
            let mut j = s.len();
            while j > 0
                invariant
                    j <= s@.len(),
                    x < self.orders@.len(),
                    kx == time_key(self.orders@[x as int]),
                    forall|q: int| 0 <= q < s@.len() ==> #[trigger] s@[q] < self.orders@.len(),
                    forall|q: int|
                        j <= q < s@.len() ==> !keeps_ahead(self.orders@, #[trigger] s@[q], x, sort.asc),
                ensures
                    j == 0 || keeps_ahead(self.orders@, s@[j - 1], x, sort.asc),
                decreases j,
            {
                let ky = time_key_exec(&self.orders[s[j - 1]]);
                let ahead = if sort.asc {
                    ky <= kx
                } else {
                    ky >= kx
                };
                if ahead {
                    break;
                }
                j = j - 1;
            }
            proof {
                lemma_insert_sorted(self.orders@, s@, x, sort.asc, j as int);
                let p = all.subrange(0, i + 1);
                assert(p.drop_last() =~= all.subrange(0, i as int));
                lemma_sort_indices_bounded(self.orders@, all.subrange(0, i as int), sort.asc);
            }
            s.insert(j, x);
            proof {
                assert(s@ =~= spliced(sort_indices(self.orders@, all.subrange(0, i as int), sort.asc), j as int, x));
            }
            i = i + 1;
            proof {
                assert forall|q: int| 0 <= q < s@.len() implies #[trigger] s@[q] < self.orders@.len() by {
                }
            }
        }
        proof {
            assert(all.subrange(0, i as int) =~= all);
        }
        s
    }

    /// Copies of the orders that meet the filters, in the listing order.
    pub fn find_by(&self, filters: OrderListFilters, sort: OrderListSort) -> (r: Vec<Order>)
        ensures
            r@.len() == listing(self.orders@, filters, sort.asc).len(),
            forall|j: int|
                0 <= j < r@.len() ==> (#[trigger] r@[j]).same(
                    self.orders@[listing(self.orders@, filters, sort.asc)[j] as int],
                ),
    {
        let idx = self.find_indices(&filters, &sort);
        let mut out: Vec<Order> = Vec::new();
        let mut i: usize = 0;
        while i < idx.len()
            invariant
                i <= idx@.len(),
                idx@ == listing(self.orders@, filters, sort.asc),
                forall|j: int| 0 <= j < idx@.len() ==> #[trigger] idx@[j] < self.orders@.len(),
                out@.len() == i,
                forall|j: int|
                    0 <= j < i ==> (#[trigger] out@[j]).same(self.orders@[idx@[j] as int]),
            decreases idx@.len() - i,
        {
            out.push(self.orders[idx[i]].clone());
            i = i + 1;
        }
        out
    }

    /// The first order of the listing.
    pub fn find_one(&self, filters: OrderListFilters, sort: OrderListSort) -> (r: Option<&Order>)
        ensures
            listing(self.orders@, filters, sort.asc).len() == 0 ==> r is None,
            listing(self.orders@, filters, sort.asc).len() > 0 ==> r == Some(
                &self.orders@[listing(self.orders@, filters, sort.asc)[0] as int],
            ),
    {
        let idx = self.find_indices(&filters, &sort);
        if idx.len() == 0 {
            None
        } else {
            Some(&self.orders[idx[0]])
        }
    }
}


/// How long a finished order stays in the ledger, in milliseconds: fourteen days.
pub const RETENTION_MS: u64 = 1_209_600_000;

/// Age of something created at `created`, seen at `now`; zero when `created` is later.
pub open spec fn age(now: u64, created: u64) -> int {
    if now >= created {
        now - created
    } else {
        0
    }
}

/// An order stays unless it is not active and older than the retention window.
pub open spec fn retained(o: Order, now: u64) -> bool {
    o.status == OrderStatus::Active || age(now, o.creation_time) <= RETENTION_MS
}

pub open spec fn kept_orders(orders: Seq<Order>, now: u64) -> Seq<Order>
    decreases orders.len(),
{
    if orders.len() == 0 {
        Seq::empty()
    } else if retained(orders.last(), now) {
        kept_orders(orders.drop_last(), now).push(orders.last())
    } else {
        kept_orders(orders.drop_last(), now)
    }
}

/// Signed quote flow of an executed order: what a sell brought in, minus what a buy spent.
pub open spec fn signed_total(o: Order) -> int {
    match o.side {
        OrderSide::Buy => -trades_total(o.trades@),
        OrderSide::Sell => trades_total(o.trades@),
    }
}

pub open spec fn in_session(o: Order, sid: Seq<char>) -> bool {
    o.session_id is Some && o.session_id->Some_0@ == sid
}

/// Realized profit of a session: the signed totals of its executed orders, added in order.
pub open spec fn session_profit(orders: Seq<Order>, sid: Seq<char>) -> int
    decreases orders.len(),
{
    if orders.len() == 0 {
        0
    } else if in_session(orders.last(), sid) && orders.last().status == OrderStatus::Executed {
        clamp(session_profit(orders.drop_last(), sid) + signed_total(orders.last()))
    } else {
        session_profit(orders.drop_last(), sid)
    }
}

/// Earliest creation time among the orders of a session.
pub open spec fn session_start(orders: Seq<Order>, sid: Seq<char>) -> Option<u64>
    decreases orders.len(),
{
    if orders.len() == 0 {
        None
    } else {
        let rest = session_start(orders.drop_last(), sid);
        if in_session(orders.last(), sid) {
            match rest {
                Some(m) => Some(
                    if m <= orders.last().creation_time {
                        m
                    } else {
                        orders.last().creation_time
                    },
                ),
                None => Some(orders.last().creation_time),
            }
        } else {
            rest
        }
    }
}

/// An order counts toward the open sessions of a ticker when it is recent, or is an
/// executed buy that no sell has followed yet.
pub open spec fn counts_as_active(o: Order, t: Ticker, now: u64, lifetime: u64) -> bool {
    &&& o.ticker.same(t)
    &&& (age(now, o.creation_time) < lifetime || (o.status == OrderStatus::Executed && o.side
        == OrderSide::Buy && o.next_order_id is None))
}

/// Session ids of the orders that count toward the open sessions.
pub open spec fn active_session_ids(orders: Seq<Order>, t: Ticker, now: u64, lifetime: u64) -> Set<
    Seq<char>,
> {
    Set::new(
        |sid: Seq<char>|
            exists|i: int|
                0 <= i < orders.len() && counts_as_active(#[trigger] orders[i], t, now, lifetime)
                    && in_session(orders[i], sid),
    )
}

/// Gain of one completed sell over the buy it closed, net of a tenth of a percent fee.
pub open spec fn scalp_gain(o: Order) -> int {
    match o.buy_order_price {
        Some(p) => clamp(
            clamp(tdiv(trades_total(o.trades@) * (SCALE - SCALE / 1000), SCALE as int)) - p@,
        ),
        None => 0,
    }
}

pub open spec fn scalps_of(o: Order, base: Seq<char>) -> bool {
    o.side == OrderSide::Sell && o.ticker.base@ == base && o.status == OrderStatus::Executed
}

/// Sum of the gains of the executed sells of a base asset, added in order.
pub open spec fn total_scalped(orders: Seq<Order>, base: Seq<char>) -> int
    decreases orders.len(),
{
    if orders.len() == 0 {
        0
    } else if scalps_of(orders.last(), base) && orders.last().buy_order_price is Some {
        clamp(total_scalped(orders.drop_last(), base) + scalp_gain(orders.last()))
    } else {
        total_scalped(orders.drop_last(), base)
    }
}

pub open spec fn id_views(ids: Seq<String>) -> Seq<Seq<char>> {
    ids.map_values(|s: String| s@)
}

fn age_exec(now: u64, created: u64) -> (r: u64)
    ensures
        r == age(now, created),
{
    if now >= created {
        now - created
    } else {
        0
    }
}

impl State {
    /// Drops the orders that are not active and older than fourteen days; returns how
    /// many went.
    pub fn purge_orders(&mut self, current_time: u64) -> (r: usize)
        ensures
            final(self).orders@ == kept_orders(old(self).orders@, current_time),
            final(self).portfolio == old(self).portfolio,
            r == old(self).orders@.len() - final(self).orders@.len(),
    {
        let prev_count = self.orders.len();
        let mut rest: Vec<Order> = Vec::new();
        std::mem::swap(&mut rest, &mut self.orders);
        let ghost all = rest@;
        let mut kept: Vec<Order> = Vec::new();
        let mut i: usize = 0;
        while rest.len() > 0
            invariant
                rest@ == all.subrange(i as int, all.len() as int),
                i <= all.len(),
                kept@ == kept_orders(all.subrange(0, i as int), current_time),
                kept@.len() <= i,
                all.len() == i + rest@.len(),
                all.len() == prev_count,
            decreases rest@.len(),
        {
            let o = rest.remove(0);
            proof {
                let p = all.subrange(0, i + 1);
                assert(p.drop_last() =~= all.subrange(0, i as int));
                assert(p.last() == o);
            }
            let keep = o.status == OrderStatus::Active || age_exec(current_time, o.creation_time)
                <= RETENTION_MS;
            if keep {
                kept.push(o);
            }
            i = i + 1;
            proof {
                assert(rest@ =~= all.subrange(i as int, all.len() as int));
            }
        }
        proof {
            assert(all.subrange(0, i as int) =~= all);
        }
        self.orders = kept;
        prev_count - self.orders.len()
    }

    /// Number of distinct sessions of a ticker that are open: recent, or holding a buy
    /// that no sell has followed.
    pub fn get_active_sessions(&self, ticker: &Ticker, current_time: u64, session_lifetime: u64) -> (r:
        usize)
        ensures
            r == active_session_ids(self.orders@, *ticker, current_time, session_lifetime).len(),
    {
        let mut ids: Vec<String> = Vec::new();
        let ghost target = active_session_ids(self.orders@, *ticker, current_time, session_lifetime);
        let mut i: usize = 0;
        while i < self.orders.len()
            invariant
                i <= self.orders@.len(),
                id_views(ids@).no_duplicates(),
                ids@.len() <= i,
                forall|sid: Seq<char>|
                    #[trigger] id_views(ids@).contains(sid) <==> exists|k: int|
                        0 <= k < i && counts_as_active(
                            #[trigger] self.orders@[k],
                            *ticker,
                            current_time,
                            session_lifetime,
                        ) && in_session(self.orders@[k], sid),
            decreases self.orders@.len() - i,
        {
            let o = &self.orders[i];
            let counts = o.ticker == *ticker && (age_exec(current_time, o.creation_time)
                < session_lifetime || (o.status == OrderStatus::Executed && o.side == OrderSide::Buy
                && o.next_order_id.is_none()));
            let ghost before = id_views(ids@);
            if counts {
                if let Some(sid) = &o.session_id {
                    let mut seen = false;
                    let mut j: usize = 0;
                    while j < ids.len()
                        invariant
                            j <= ids@.len(),
                            seen == exists|q: int| 0 <= q < j && ids@[q]@ == sid@,
                        decreases ids@.len() - j,
                    {
                        if ids[j] == *sid {
                            seen = true;
                        }
                        j = j + 1;
                    }
                    if !seen {
                        ids.push(sid.clone());
                        proof {
                            assert(id_views(ids@) =~= before.push(sid@));
                            assert(id_views(ids@)[before.len() as int] == sid@);
                            assert forall|q: int| 0 <= q < before.len() implies before[q] != sid@ by {
                                assert(before[q] == ids@[q]@);
                            }
                        }
                    } else {
                        proof {
                            let q = choose|q: int| 0 <= q < j && #[trigger] ids@[q]@ == sid@;
                            assert(before[q] == sid@);
                            assert(id_views(ids@) == before);
                        }
                    }
                }
            }
            proof {
                let now = id_views(ids@);
                assert(now == before || now == before.push(o.session_id->Some_0@));
                assert(counts && o.session_id is Some ==> now.contains(o.session_id->Some_0@));
                assert(counts == counts_as_active(self.orders@[i as int], *ticker, current_time, session_lifetime));
                assert forall|q: int| 0 <= q < before.len() implies now[q] == before[q] by {}
                assert forall|sid: Seq<char>|
                    now.contains(sid) <==> exists|k: int|
                        0 <= k < i + 1 && counts_as_active(
                            #[trigger] self.orders@[k],
                            *ticker,
                            current_time,
                            session_lifetime,
                        ) && in_session(self.orders@[k], sid) by {
                    if exists|k: int|
                        0 <= k < i + 1 && counts_as_active(
                            #[trigger] self.orders@[k],
                            *ticker,
                            current_time,
                            session_lifetime,
                        ) && in_session(self.orders@[k], sid) {
                        let k = choose|k: int|
                            0 <= k < i + 1 && counts_as_active(
                                #[trigger] self.orders@[k],
                                *ticker,
                                current_time,
                                session_lifetime,
                            ) && in_session(self.orders@[k], sid);
                        if k == i {
                            assert(now.contains(sid));
                        } else {
                            assert(before.contains(sid));
                            let q = choose|q: int| 0 <= q < before.len() && before[q] == sid;
                            assert(now[q] == sid);
                        }
                    }
                    if now.contains(sid) {
                        let q = choose|q: int| 0 <= q < now.len() && now[q] == sid;
                        if q < before.len() {
                            assert(before[q] == sid);
                            assert(before.contains(sid));
                        }
                    }
                }
            }
            i = i + 1;
        }
        proof {
            let m = id_views(ids@);
            m.unique_seq_to_set();
            assert(m.to_set() =~= target);
        }
        ids.len()
    }

    /// Realized profit of a session: sells' fill totals minus buys', executed orders only.
    pub fn get_session_profit(&self, session_id: &String) -> (r: Dec)
        ensures
            r@ == session_profit(self.orders@, session_id@),
    {
        let mut total = Dec::zero();
        let mut i: usize = 0;
        while i < self.orders.len()
            invariant
                i <= self.orders@.len(),
                total@ == session_profit(self.orders@.subrange(0, i as int), session_id@),
            decreases self.orders@.len() - i,
        {
            proof {
                let p = self.orders@.subrange(0, i + 1);
                assert(p.drop_last() =~= self.orders@.subrange(0, i as int));
            }
            let o = &self.orders[i];
            let mine = match &o.session_id {
                Some(s) => *s == *session_id,
                None => false,
            };
            if mine && o.status == OrderStatus::Executed {
                let t = o.get_trade_total_price();
                let signed = match o.side {
                    OrderSide::Buy => t.neg(),
                    OrderSide::Sell => t,
                };
                total = total.add(signed);
            }
            i = i + 1;
        }
        proof {
            assert(self.orders@.subrange(0, i as int) =~= self.orders@);
        }
        total
    }

    /// Creation time of the earliest order of a session.
    pub fn get_session_start(&self, session_id: &String) -> (r: Option<u64>)
        ensures
            r == session_start(self.orders@, session_id@),
    {
        let mut best: Option<u64> = None;
        let mut i: usize = 0;
        while i < self.orders.len()
            invariant
                i <= self.orders@.len(),
                best == session_start(self.orders@.subrange(0, i as int), session_id@),
            decreases self.orders@.len() - i,
        {
            proof {
                let p = self.orders@.subrange(0, i + 1);
                assert(p.drop_last() =~= self.orders@.subrange(0, i as int));
            }
            let o = &self.orders[i];
            let mine = match &o.session_id {
                Some(s) => *s == *session_id,
                None => false,
            };
            if mine {
                let t = o.creation_time;
                best = match best {
                    Some(m) => Some(if m <= t { m } else { t }),
                    None => Some(t),
                };
            }
            i = i + 1;
        }
        proof {
            assert(self.orders@.subrange(0, i as int) =~= self.orders@);
        }
        best
    }

    /// Working time of the most recently worked order that meets the filters.
    pub fn get_last_executed_order_time(&self, filters: OrderListFilters) -> (r: Option<u64>)
        ensures
            listing(self.orders@, filters, false).len() == 0 ==> r is None,
            listing(self.orders@, filters, false).len() > 0 ==> r == self.orders@[listing(
                self.orders@,
                filters,
                false,
            )[0] as int].working_time,
    {
        match self.find_one(filters, OrderListSort { by: OrderListSortBy::Date, asc: false }) {
            Some(o) => o.working_time,
            None => None,
        }
    }

    /// Gains of all completed round trips of a base asset.
    pub fn get_total_scalped(&self, base_asset: String) -> (r: Dec)
        ensures
            r@ == total_scalped(self.orders@, base_asset@),
    {
        let mut total = Dec::zero();
        let keep = Dec::from_units(9_990_000_000);
        let mut i: usize = 0;
        while i < self.orders.len()
            invariant
                i <= self.orders@.len(),
                keep@ == SCALE - SCALE / 1000,
                total@ == total_scalped(self.orders@.subrange(0, i as int), base_asset@),
            decreases self.orders@.len() - i,
        {
            proof {
                let p = self.orders@.subrange(0, i + 1);
                assert(p.drop_last() =~= self.orders@.subrange(0, i as int));
            }
            let o = &self.orders[i];
            if o.side == OrderSide::Sell && o.ticker.base == base_asset && o.status
                == OrderStatus::Executed {
                if let Some(p) = o.buy_order_price {
                    let gain = o.get_trade_total_price().mul(keep).sub(p);
                    total = total.add(gain);
                }
            }
            i = i + 1;
        }
        proof {
            assert(self.orders@.subrange(0, i as int) =~= self.orders@);
        }
        total
    }
}


/// Snapshots of the ledger that observers receive.
#[derive(Debug)]
pub enum StateEvent {
    Portfolio(Portfolio),
    Orders(Vec<Order>),
}

/// Balances after taking reported assets in order: each replaces the one of its symbol.
pub open spec fn reported(m: Map<Seq<char>, (int, int)>, a: Seq<crate::portfolio::Asset>) -> Map<
    Seq<char>,
    (int, int),
>
    decreases a.len(),
{
    if a.len() == 0 {
        m
    } else {
        reported(m, a.drop_last()).insert(a.last().symbol@, (a.last().amount@, a.last().locked@))
    }
}

impl State {
    /// Revalues the base asset of a book's market at its best bid.
    pub fn apply_book(&mut self, book: &crate::market::MarketplaceBook)
        ensures
            book.bids@.len() > 0 && old(self).portfolio.index_of(book.ticker.base@) >= 0 ==> {
                let k = old(self).portfolio.index_of(book.ticker.base@);
                let a = old(self).portfolio.assets@[k];
                &&& others_unchanged(old(self).portfolio.assets@, final(self).portfolio.assets@, k)
                &&& final(self).portfolio.assets@[k].symbol == a.symbol
                &&& final(self).portfolio.assets@[k].amount == a.amount
                &&& final(self).portfolio.assets@[k].locked == a.locked
                &&& final(self).portfolio.assets@[k].value is Some
                &&& final(self).portfolio.assets@[k].value->Some_0@ == crate::portfolio::valuation(
                    clamp(a.locked@ + a.amount@),
                    book.bids@[0].0@,
                )
                &&& final(self).portfolio.value is Some
                &&& final(self).portfolio.value->Some_0@ == crate::portfolio::values_total(
                    final(self).portfolio.assets@,
                )
            },
            old(self).portfolio.index_of(book.ticker.base@) < 0 ==> *final(self) == *old(self),
            final(self).orders == old(self).orders,
            book.bids@.len() == 0 ==> *final(self) == *old(self),
            old(self).wf() ==> final(self).wf(),
            crate::portfolio::balances(final(self).portfolio.assets@) == crate::portfolio::balances(
                old(self).portfolio.assets@,
            ),
    {
        if let Some(price) = book.buy_price() {
            proof {
                crate::portfolio::lemma_asset_index(self.portfolio.assets@, book.ticker.base@);
            }
            self.portfolio.update_asset_value(book.ticker.base.as_str(), price);
            proof {
                let k = old(self).portfolio.index_of(book.ticker.base@);
                if k >= 0 {
                    crate::portfolio::lemma_balances_same_amounts(
                        old(self).portfolio.assets@,
                        self.portfolio.assets@,
                    );
                }
            }
        }
    }

    /// Takes the balances an account reports: each asset replaces the one of its symbol.
    pub fn apply_portfolio_update(&mut self, update: crate::market::MarketplacePortfolioUpdate)
        requires
            old(self).wf(),
        ensures
            final(self).wf(),
            final(self).orders == old(self).orders,
            final(self).portfolio.value == old(self).portfolio.value,
            crate::portfolio::balances(final(self).portfolio.assets@) == reported(
                crate::portfolio::balances(old(self).portfolio.assets@),
                update.assets@,
            ),
    {
        let ghost all = update.assets@;
        let count = update.assets.len();
        let mut rest = update.assets;
        let mut taken: usize = 0;
        let ghost m0 = crate::portfolio::balances(self.portfolio.assets@);
        while rest.len() > 0
            invariant
                self.wf(),
                self.orders == old(self).orders,
                self.portfolio.value == old(self).portfolio.value,
                taken <= all.len(),
                all.len() == count,
                all.len() == taken + rest@.len(),
                rest@ == all.subrange(taken as int, all.len() as int),
                crate::portfolio::balances(self.portfolio.assets@) == reported(
                    m0,
                    all.subrange(0, taken as int),
                ),
                m0 == crate::portfolio::balances(old(self).portfolio.assets@),
            decreases rest@.len(),
        {
            let a = rest.remove(0);
            let ghost before = self.portfolio.assets@;
            proof {
                crate::portfolio::lemma_asset_index(before, a.symbol@);
            }
            self.portfolio.update_asset(a);
            proof {
                let k = crate::portfolio::asset_index(before, a.symbol@);
                if k >= 0 {
                    crate::portfolio::lemma_balances_set(before, k, a);
                } else {
                    assert(self.portfolio.assets@.drop_last() =~= before);
                }
                let q = all.subrange(0, taken + 1);
                assert(q.drop_last() =~= all.subrange(0, taken as int));
                assert(q.last() == a);
            }
            taken = taken + 1;
            proof {
                assert(rest@ =~= all.subrange(taken as int, all.len() as int));
            }
        }
        proof {
            assert(all.subrange(0, taken as int) =~= all);
        }
    }

    /// Puts the exchange's copy of an order in place of the ledger's one of the same id.
    pub fn replace_order(&mut self, order: Order)
        ensures
            final(self).portfolio == old(self).portfolio,
            order_index(old(self).orders@, order.id@) == -1 ==> final(self).orders@ == old(
                self,
            ).orders@,
            order_index(old(self).orders@, order.id@) >= 0 ==> final(self).orders@ == old(
                self,
            ).orders@.update(order_index(old(self).orders@, order.id@), order),
    {
        if let Some(k) = self.find_by_id(&order.id) {
            self.orders.set(k, order);
        }
    }

    /// Marks an order the exchange refused as rejected, where its status allows. An order
    /// that held a reservation (sent, active or pending cancel) gets it back: the amount
    /// moves from locked to free again.
    pub fn reject_order(&mut self, id: &String)
        requires
            old(self).wf(),
        ensures
            final(self).wf(),
            final(self).orders@.len() == old(self).orders@.len(),
            order_index(old(self).orders@, id@) == -1 ==> *final(self) == *old(self),
            order_index(old(self).orders@, id@) >= 0 ==> {
                let k = order_index(old(self).orders@, id@);
                let o = old(self).orders@[k];
                &&& forall|j: int|
                    0 <= j < old(self).orders@.len() && j != k ==> #[trigger] final(self).orders@[j]
                        == old(self).orders@[j]
                &&& final(self).orders@[k] == (Order {
                    status: next_status(o.status, OrderStatus::Rejected),
                    ..o
                })
                &&& balances(final(self).portfolio.assets@) == if holds_reservation(o) {
                    released(
                        balances(old(self).portfolio.assets@),
                        reservation(o)->Some_0.0,
                        reservation(o)->Some_0.1,
                    )
                } else {
                    balances(old(self).portfolio.assets@)
                }
            },
    {
        if let Some(k) = self.find_by_id(id) {
            let mut o = self.orders.remove(k);
            let holds = (o.status == OrderStatus::Sent || o.status == OrderStatus::Active
                || o.status == OrderStatus::PendingCancel) && (o.order_type == OrderType::Market
                || o.order_type == OrderType::Limit);
            if holds {
                let (asset, need) = match (o.side, o.order_type) {
                    (OrderSide::Buy, OrderType::Market) => (o.ticker.quote.as_str(), o.quote_amount),
                    (OrderSide::Buy, _) => (o.ticker.quote.as_str(), o.amount.mul(o.price)),
                    (OrderSide::Sell, _) => (o.ticker.base.as_str(), o.amount),
                };
                proof {
                    crate::portfolio::lemma_balances_dom(self.portfolio.assets@, asset@);
                }
                let _ = self.portfolio.release_funds(asset, need);
            }
            if o.status.can_become(&OrderStatus::Rejected) {
                o.status = OrderStatus::Rejected;
            }
            self.orders.insert(k, o);
            proof {
                assert(self.orders@ =~= old(self).orders@.update(k as int, o));
            }
        }
    }
}

impl State {
    /// Records what the exchange made of an order the ledger sent: a rejected order is
    /// marked so and gives its reservation back; an accepted one takes the exchange's copy.
    pub fn apply_placement(&mut self, placed: Order)
        requires
            old(self).wf(),
        ensures
            final(self).wf(),
            final(self).orders@.len() == old(self).orders@.len(),
            placed.status != OrderStatus::Rejected ==> {
                &&& final(self).portfolio == old(self).portfolio
                &&& order_index(old(self).orders@, placed.id@) == -1 ==> final(self).orders@
                    == old(self).orders@
                &&& order_index(old(self).orders@, placed.id@) >= 0 ==> final(self).orders@
                    == old(self).orders@.update(order_index(old(self).orders@, placed.id@), placed)
            },
            placed.status == OrderStatus::Rejected && order_index(old(self).orders@, placed.id@)
                >= 0 ==> {
                let k = order_index(old(self).orders@, placed.id@);
                let o = old(self).orders@[k];
                &&& final(self).orders@[k].status == next_status(o.status, OrderStatus::Rejected)
                &&& balances(final(self).portfolio.assets@) == if holds_reservation(o) {
                    released(
                        balances(old(self).portfolio.assets@),
                        reservation(o)->Some_0.0,
                        reservation(o)->Some_0.1,
                    )
                } else {
                    balances(old(self).portfolio.assets@)
                }
            },
            placed.status == OrderStatus::Rejected && order_index(old(self).orders@, placed.id@)
                == -1 ==> *final(self) == *old(self),
    {
        if placed.status == OrderStatus::Rejected {
            self.reject_order(&placed.id);
        } else {
            proof {
                if order_index(self.orders@, placed.id@) >= 0 {
                    lemma_order_index_bounds(self.orders@, placed.id@);
                }
            }
            self.replace_order(placed);
        }
    }
}

proof fn lemma_order_index_bounds(orders: Seq<Order>, id: Seq<char>)
    ensures
        order_index(orders, id) < orders.len(),
    decreases orders.len(),
{
    if orders.len() > 0 {
        lemma_order_index_bounds(orders.drop_last(), id);
    }
}

/// Whether an order holds a reservation that a rejection gives back.
pub open spec fn holds_reservation(o: Order) -> bool {
    (o.status == OrderStatus::Sent || o.status == OrderStatus::Active || o.status
        == OrderStatus::PendingCancel) && reservation(o) is Some
}

/// Balances after `x` of `sym` moves from locked back to free (unchanged if not held).
pub open spec fn released(m: Map<Seq<char>, (int, int)>, sym: Seq<char>, x: int) -> Map<
    Seq<char>,
    (int, int),
> {
    if m.contains_key(sym) {
        m.insert(sym, (clamp(m[sym].0 + x), clamp(m[sym].1 - x)))
    } else {
        m
    }
}

pub open spec fn spliced(s: Seq<usize>, j: int, x: usize) -> Seq<usize> {
    s.subrange(0, j).push(x) + s.subrange(j, s.len() as int)
}

proof fn lemma_order_index_prefix(orders: Seq<Order>, id: Seq<char>, n: int)
    requires
        0 < n <= orders.len(),
        order_index(orders.subrange(0, n - 1), id) == -1,
        orders[n - 1].id@ == id,
    ensures
        order_index(orders, id) == n - 1,
    decreases orders.len(),
{
    let p = orders.subrange(0, n);
    assert(p.drop_last() =~= orders.subrange(0, n - 1));
    if n < orders.len() {
        assert(orders.drop_last().subrange(0, n - 1) =~= orders.subrange(0, n - 1));
        lemma_order_index_prefix(orders.drop_last(), id, n);
    } else {
        assert(p =~= orders);
    }
}

} // verus!
