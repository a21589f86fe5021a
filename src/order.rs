use vstd::prelude::*;

verus! {

/// An order's remaining quantity and its limit price, in fixed-point units.
#[derive(Clone, Copy, Debug, PartialEq, Eq, Structural)]
pub struct Order {
    pub quant: i64,
    pub price: i64,
}

/// One crossing step of the matching algorithm: the quantity that changed
/// hands and the price it was executed at.
#[derive(Clone, Copy, Debug, PartialEq, Eq, Structural)]
pub struct Trade {
    pub quant: i64,
    pub price: i64,
}

/// Why an order was refused at insertion.
#[derive(Clone, Copy, Debug, PartialEq, Eq, Structural)]
pub enum OrderError {
    /// The quantity is not positive, or the price is negative.
    InvalidOrder,
}

/// An order the book accepts: a positive quantity and a non-negative price.
pub open spec fn valid_order(o: Order) -> bool {
    o.quant > 0 && o.price >= 0
}

impl Order {
    pub fn new(quant: i64, price: i64) -> (r: Order)
        ensures
            r.quant == quant,
            r.price == price,
    {
        Order { quant, price }
    }

    /// Whether the book would accept this order.
    pub fn is_valid(&self) -> (r: bool)
        ensures
            r == valid_order(*self),
    {
        self.quant > 0 && self.price >= 0
    }
}

impl Trade {
    pub fn new(quant: i64, price: i64) -> (r: Trade)
        ensures
            r.quant == quant,
            r.price == price,
    {
        Trade { quant, price }
    }
}

} // verus!
