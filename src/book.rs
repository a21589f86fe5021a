//! The order book: a buy side and a sell side kept in price priority.
use vstd::prelude::*;
use crate::order::{Order, Trade, OrderError, valid_order};
use crate::matching::{
    sides_wf, sorted_desc, sorted_asc, all_valid, crosses, step, step_trade, match_run,
    lemma_step_wf,
};

verus! {

pub struct OrderBook {
    buy_order: Vec<Order>,
    sell_order: Vec<Order>,
}

impl OrderBook {
    /// The resting buy orders, best (highest price) first.
    pub closed spec fn buys(&self) -> Seq<Order> {
        self.buy_order@
    }

    /// The resting sell orders, best (lowest price) first.
    pub closed spec fn sells(&self) -> Seq<Order> {
        self.sell_order@
    }

    /// Both sides sorted by price priority and holding only valid orders.
    pub open spec fn wf(&self) -> bool {
        sides_wf(self.buys(), self.sells())
    }

    /// An empty book.
    pub fn new() -> (r: OrderBook)
        ensures
            r.wf(),
            r.buys() == Seq::<Order>::empty(),
            r.sells() == Seq::<Order>::empty(),
    {
        OrderBook { buy_order: Vec::new(), sell_order: Vec::new() }
    }

    /// The resting buy orders, best first.
    pub fn buy_orders(&self) -> (r: &Vec<Order>)
        ensures
            r@ == self.buys(),
    {
        &self.buy_order
    }

    /// The resting sell orders, best first.
    pub fn sell_orders(&self) -> (r: &Vec<Order>)
        ensures
            r@ == self.sells(),
    {
        &self.sell_order
    }

    /// Inserts a buy order behind every resting buy at the same or a better
    /// price. An order with a non-positive quantity or a negative price is
    /// refused and the book is left as it was.
    pub fn add_buy_order(&mut self, order: Order) -> (r: Result<(), OrderError>)
        requires
            old(self).wf(),
        ensures
            final(self).wf(),
            sorted_desc(final(self).buys()),
            final(self).sells() == old(self).sells(),
            r is Ok <==> valid_order(order),
            r is Err ==> r == Err::<(), OrderError>(OrderError::InvalidOrder),
            r is Err ==> final(self).buys() == old(self).buys(),
            r is Ok ==> exists|i: int|
                0 <= i <= old(self).buys().len()
                && final(self).buys() == old(self).buys().insert(i, order)
                && (forall|k: int| 0 <= k < i ==> old(self).buys()[k].price >= order.price)
                && (forall|k: int| i <= k < old(self).buys().len() ==> old(self).buys()[k].price < order.price),
    {
        if !order.is_valid() {
            return Err(OrderError::InvalidOrder);
        }
        let ghost before = self.buy_order@;
        let mut i: usize = 0;
        while i < self.buy_order.len() && self.buy_order[i].price >= order.price
            invariant
                self.buy_order@ == before,
                0 <= i <= before.len(),
                forall|k: int| 0 <= k < i ==> before[k].price >= order.price,
            decreases before.len() - i,
        {
            i = i + 1;
        }
        self.buy_order.insert(i, order);
        proof {
            let after = self.buy_order@;
            assert(sorted_desc(before));
            assert forall|k: int| i <= k < before.len() implies before[k].price < order.price by {
                assert(before[i as int].price < order.price);
            }
            assert forall|a: int, b: int| 0 <= a < b < after.len() implies after[a].price
                >= after[b].price by {
                if b < i {
                } else if b == i {
                } else if a < i {
                    assert(after[b] == before[b - 1]);
                    assert(before[a].price >= before[b - 1].price);
                } else if a == i {
                    assert(after[b] == before[b - 1]);
                    assert(before[i as int].price < order.price);
                    assert(before[i as int].price >= before[b - 1].price || b - 1 == i);
                } else {
                    assert(after[b] == before[b - 1]);
                    assert(after[a] == before[a - 1]);
                }
            }
            assert forall|k: int| 0 <= k < after.len() implies #[trigger] valid_order(after[k]) by {
                if k < i {
                    assert(valid_order(before[k]));
                } else if k > i {
                    assert(valid_order(before[k - 1]));
                }
            }
        }
        Ok(())
    }

    /// Inserts a sell order behind every resting sell at the same or a better
    /// price. An order with a non-positive quantity or a negative price is
    /// refused and the book is left as it was.
    pub fn add_sell_order(&mut self, order: Order) -> (r: Result<(), OrderError>)
        requires
            old(self).wf(),
        ensures
            final(self).wf(),
            sorted_asc(final(self).sells()),
            final(self).buys() == old(self).buys(),
            r is Ok <==> valid_order(order),
            r is Err ==> r == Err::<(), OrderError>(OrderError::InvalidOrder),
            r is Err ==> final(self).sells() == old(self).sells(),
            r is Ok ==> exists|i: int|
                0 <= i <= old(self).sells().len()
                && final(self).sells() == old(self).sells().insert(i, order)
                && (forall|k: int| 0 <= k < i ==> old(self).sells()[k].price <= order.price)
                && (forall|k: int| i <= k < old(self).sells().len() ==> old(self).sells()[k].price > order.price),
    {
        if !order.is_valid() {
            return Err(OrderError::InvalidOrder);
        }
        let ghost before = self.sell_order@;
        let mut i: usize = 0;
        while i < self.sell_order.len() && self.sell_order[i].price <= order.price
            invariant
                self.sell_order@ == before,
                0 <= i <= before.len(),
                forall|k: int| 0 <= k < i ==> before[k].price <= order.price,
            decreases before.len() - i,
        {
            i = i + 1;
        }
        self.sell_order.insert(i, order);
        proof {
            let after = self.sell_order@;
            assert(sorted_asc(before));
            assert forall|k: int| i <= k < before.len() implies before[k].price > order.price by {
                assert(before[i as int].price > order.price);
            }
            assert forall|a: int, b: int| 0 <= a < b < after.len() implies after[a].price
                <= after[b].price by {
                if b < i {
                } else if b == i {
                } else if a < i {
                    assert(after[b] == before[b - 1]);
                    assert(before[a].price <= before[b - 1].price);
                } else if a == i {
                    assert(after[b] == before[b - 1]);
                    assert(before[i as int].price > order.price);
                    assert(before[i as int].price <= before[b - 1].price || b - 1 == i);
                } else {
                    assert(after[b] == before[b - 1]);
                    assert(after[a] == before[a - 1]);
                }
            }
            assert forall|k: int| 0 <= k < after.len() implies #[trigger] valid_order(after[k]) by {
                if k < i {
                    assert(valid_order(before[k]));
                } else if k > i {
                    assert(valid_order(before[k - 1]));
                }
            }
        }
        Ok(())
    }

    /// Matches the best buy against the best sell for as long as they cross,
    /// and returns the trades in the order they were made. Each trade is the
    /// smaller of the two top quantities at the top sell's price; the larger
    /// top order keeps the difference and the other leaves the book (both on
    /// equal quantities).
    pub fn match_orders(&mut self) -> (r: Vec<Trade>)
        requires
            old(self).wf(),
        ensures
            final(self).wf(),
            final(self).buys() == match_run(old(self).buys(), old(self).sells()).0,
            final(self).sells() == match_run(old(self).buys(), old(self).sells()).1,
            r@ == match_run(old(self).buys(), old(self).sells()).2,
            !crosses(final(self).buys(), final(self).sells()),
            all_valid(final(self).buys()),
            all_valid(final(self).sells()),
    {
        let ghost target = match_run(self.buy_order@, self.sell_order@);
        let mut trades: Vec<Trade> = Vec::new();
        while self.buy_order.len() > 0 && self.sell_order.len() > 0
            && self.buy_order[0].price >= self.sell_order[0].price
            invariant
                sides_wf(self.buy_order@, self.sell_order@),
                match_run(self.buy_order@, self.sell_order@).0 == target.0,
                match_run(self.buy_order@, self.sell_order@).1 == target.1,
                trades@ + match_run(self.buy_order@, self.sell_order@).2 == target.2,
            decreases self.buy_order@.len() + self.sell_order@.len(),
        {
            let ghost prev_b = self.buy_order@;
            let ghost prev_s = self.sell_order@;
            let ghost prev_t = trades@;
            proof {
                assert(valid_order(prev_b[0]) && valid_order(prev_s[0]));
                lemma_step_wf(prev_b, prev_s);
            }
            let best_buy = self.buy_order[0];
            let best_sell = self.sell_order[0];
            let buy_qty = best_buy.quant;
            let sell_qty = best_sell.quant;
            let matched_qty = if buy_qty < sell_qty { buy_qty } else { sell_qty };
            trades.push(Trade { quant: matched_qty, price: best_sell.price });
            if buy_qty > sell_qty {
                self.buy_order.set(0, Order { quant: buy_qty - sell_qty, price: best_buy.price });
                self.sell_order.remove(0);
            } else if buy_qty < sell_qty {
                self.sell_order.set(0, Order { quant: sell_qty - buy_qty, price: best_sell.price });
                self.buy_order.remove(0);
            } else {
                self.buy_order.remove(0);
                self.sell_order.remove(0);
            }
            proof {
                let next = step(prev_b, prev_s);
                assert(self.buy_order@ =~= next.0);
                assert(self.sell_order@ =~= next.1);
                let rest = match_run(next.0, next.1);
                assert(trades@ =~= prev_t.push(step_trade(prev_b, prev_s)));
                assert(trades@ + rest.2 =~= prev_t + (seq![step_trade(prev_b, prev_s)] + rest.2));
            }
        }
        proof {
            assert(trades@ + Seq::<Trade>::empty() =~= trades@);
        }
        trades
    }
}

} // verus!
