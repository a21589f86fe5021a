//! The mathematical model of the book's two sides and of matching.
use vstd::prelude::*;
use crate::order::{Order, Trade, valid_order};

verus! {

/// Every order on the side is one the book accepts.
pub open spec fn all_valid(s: Seq<Order>) -> bool {
    forall|i: int| 0 <= i < s.len() ==> #[trigger] valid_order(s[i])
}

/// The buy side's order: highest price first.
pub open spec fn sorted_desc(s: Seq<Order>) -> bool {
    forall|i: int, j: int| 0 <= i < j < s.len() ==> s[i].price >= s[j].price
}

/// The sell side's order: lowest price first.
pub open spec fn sorted_asc(s: Seq<Order>) -> bool {
    forall|i: int, j: int| 0 <= i < j < s.len() ==> s[i].price <= s[j].price
}

/// A well-formed pair of sides.
pub open spec fn sides_wf(buys: Seq<Order>, sells: Seq<Order>) -> bool {
    &&& sorted_desc(buys)
    &&& sorted_asc(sells)
    &&& all_valid(buys)
    &&& all_valid(sells)
}

/// Both sides are non-empty and the best buy is at or above the best sell.
pub open spec fn crosses(buys: Seq<Order>, sells: Seq<Order>) -> bool {
    buys.len() > 0 && sells.len() > 0 && buys[0].price >= sells[0].price
}

pub open spec fn min_i64(a: i64, b: i64) -> i64 {
    if a < b { a } else { b }
}

/// The trade of one crossing step: the smaller of the two top quantities,
/// at the top sell order's price.
pub open spec fn step_trade(buys: Seq<Order>, sells: Seq<Order>) -> Trade {
    Trade { quant: min_i64(buys[0].quant, sells[0].quant), price: sells[0].price }
}

/// The two sides after one crossing step: the larger top order keeps the
/// difference, the other is removed; on equal quantities both go.
pub open spec fn step(buys: Seq<Order>, sells: Seq<Order>) -> (Seq<Order>, Seq<Order>) {
    let bq = buys[0].quant;
    let sq = sells[0].quant;
    if bq > sq {
        (buys.update(0, Order { quant: (bq - sq) as i64, price: buys[0].price }), sells.drop_first())
    } else if bq < sq {
        (buys.drop_first(), sells.update(0, Order { quant: (sq - bq) as i64, price: sells[0].price }))
    } else {
        (buys.drop_first(), sells.drop_first())
    }
}

/// Matching run to completion: the remaining buys, the remaining sells and
/// the trades in the order they were made.
pub open spec fn match_run(buys: Seq<Order>, sells: Seq<Order>) -> (Seq<Order>, Seq<Order>, Seq<Trade>)
    decreases buys.len() + sells.len(),
{
    if crosses(buys, sells) {
        let next = step(buys, sells);
        let rest = match_run(next.0, next.1);
        (rest.0, rest.1, seq![step_trade(buys, sells)] + rest.2)
    } else {
        (buys, sells, Seq::empty())
    }
}

/// The total remaining quantity of a side.
pub open spec fn total_quant(s: Seq<Order>) -> int
    decreases s.len(),
{
    if s.len() == 0 {
        0
    } else {
        s[0].quant + total_quant(s.drop_first())
    }
}

/// The total quantity of a list of trades.
pub open spec fn traded_quant(t: Seq<Trade>) -> int
    decreases t.len(),
{
    if t.len() == 0 {
        0
    } else {
        t[0].quant + traded_quant(t.drop_first())
    }
}

/// One crossing step keeps both sides well formed.
pub proof fn lemma_step_wf(buys: Seq<Order>, sells: Seq<Order>)
    requires
        sides_wf(buys, sells),
        crosses(buys, sells),
    ensures
        sides_wf(step(buys, sells).0, step(buys, sells).1),
{
    let (b, s) = step(buys, sells);
    assert(all_valid(b)) by {
        assert forall|i: int| 0 <= i < b.len() implies #[trigger] valid_order(b[i]) by {
            assert(valid_order(buys[0]) && valid_order(sells[0]));
            if buys[0].quant > sells[0].quant {
                assert(valid_order(buys[i]));
                if i == 0 {
                    assert(b[0].quant == buys[0].quant - sells[0].quant);
                } else {
                    assert(b[i] == buys[i]);
                }
            } else {
                assert(valid_order(buys[i + 1]));
            }
        }
    }
    assert(all_valid(s)) by {
        assert forall|i: int| 0 <= i < s.len() implies #[trigger] valid_order(s[i]) by {
            assert(valid_order(buys[0]) && valid_order(sells[0]));
            if buys[0].quant < sells[0].quant {
                assert(valid_order(sells[i]));
                if i == 0 {
                    assert(s[0].quant == sells[0].quant - buys[0].quant);
                } else {
                    assert(s[i] == sells[i]);
                }
            } else {
                assert(valid_order(sells[i + 1]));
            }
        }
    }
}

/// Matching keeps both sides well formed, and leaves them not crossing.
pub proof fn lemma_match_run_wf(buys: Seq<Order>, sells: Seq<Order>)
    requires
        sides_wf(buys, sells),
    ensures
        sides_wf(match_run(buys, sells).0, match_run(buys, sells).1),
        !crosses(match_run(buys, sells).0, match_run(buys, sells).1),
    decreases buys.len() + sells.len(),
{
    if crosses(buys, sells) {
        lemma_step_wf(buys, sells);
        let next = step(buys, sells);
        lemma_match_run_wf(next.0, next.1);
    }
}

/// Total quantity of a side whose first order is replaced.
proof fn lemma_total_update_first(s: Seq<Order>, o: Order)
    requires
        s.len() > 0,
    ensures
        total_quant(s.update(0, o)) == o.quant + total_quant(s.drop_first()),
{
    assert(s.update(0, o).drop_first() =~= s.drop_first());
}

/// Quantity conservation of one crossing step: the trade is the smaller of
/// the two top quantities, and each side's total quantity drops by exactly
/// the traded quantity.
pub proof fn lemma_step_conserves(buys: Seq<Order>, sells: Seq<Order>)
    requires
        sides_wf(buys, sells),
        crosses(buys, sells),
    ensures
        step_trade(buys, sells).quant == min_i64(buys[0].quant, sells[0].quant),
        total_quant(step(buys, sells).0) == total_quant(buys) - step_trade(buys, sells).quant,
        total_quant(step(buys, sells).1) == total_quant(sells) - step_trade(buys, sells).quant,
{
    let bq = buys[0].quant;
    let sq = sells[0].quant;
    assert(valid_order(buys[0]) && valid_order(sells[0]));
    if bq > sq {
        lemma_total_update_first(buys, Order { quant: (bq - sq) as i64, price: buys[0].price });
    } else if bq < sq {
        lemma_total_update_first(sells, Order { quant: (sq - bq) as i64, price: sells[0].price });
    }
}

/// Matching twice in a row: the second run makes no trade and leaves both
/// sides as the first run left them.
pub proof fn lemma_match_idempotent(buys: Seq<Order>, sells: Seq<Order>)
    requires
        sides_wf(buys, sells),
    ensures
        match_run(match_run(buys, sells).0, match_run(buys, sells).1) == (
            match_run(buys, sells).0,
            match_run(buys, sells).1,
            Seq::<Trade>::empty(),
        ),
{
    lemma_match_run_wf(buys, sells);
}

/// Quantity conservation over a whole matching run: each side's total
/// quantity drops by exactly the total quantity of the trades made.
pub proof fn lemma_match_run_conserves(buys: Seq<Order>, sells: Seq<Order>)
    requires
        sides_wf(buys, sells),
    ensures
        total_quant(match_run(buys, sells).0) == total_quant(buys) - traded_quant(match_run(buys, sells).2),
        total_quant(match_run(buys, sells).1) == total_quant(sells) - traded_quant(match_run(buys, sells).2),
    decreases buys.len() + sells.len(),
{
    if crosses(buys, sells) {
        lemma_step_conserves(buys, sells);
        lemma_step_wf(buys, sells);
        let next = step(buys, sells);
        lemma_match_run_conserves(next.0, next.1);
        let rest = match_run(next.0, next.1);
        let t = seq![step_trade(buys, sells)] + rest.2;
        assert(t.drop_first() =~= rest.2);
    }
}

} // verus!
