//! The reference-price lookup in a market-data listing.
use vstd::prelude::*;

verus! {

/// One entry of a price listing: a symbol and its price as text.
pub struct CryptoInfo {
    pub symbol: String,
    pub price: String,
}

/// Why no reference price could be had.
#[derive(Clone, Copy, Debug, PartialEq, Eq, Structural)]
pub enum FetchError {
    /// The listing holds no entry for the symbol.
    NotFound,
    /// The request could not be sent or its answer not received.
    Transport,
    /// The answer could not be decoded as a listing.
    Parse,
}

/// Whether an entry of the listing is for the symbol.
pub open spec fn entry_is(infos: Seq<CryptoInfo>, i: int, symbol: Seq<char>) -> bool {
    infos[i].symbol@ == symbol
}

/// The first entry of the listing for `symbol`, copied out; `NotFound` when
/// there is none.
pub fn find_symbol(infos: &Vec<CryptoInfo>, symbol: &String) -> (r: Result<CryptoInfo, FetchError>)
    ensures
        r is Err <==> forall|i: int| 0 <= i < infos@.len() ==> !#[trigger] entry_is(infos@, i, symbol@),
        r is Err ==> r == Err::<CryptoInfo, FetchError>(FetchError::NotFound),
        r is Ok ==> exists|i: int|
            0 <= i < infos@.len() && #[trigger] entry_is(infos@, i, symbol@)
            && (forall|j: int| 0 <= j < i ==> !#[trigger] entry_is(infos@, j, symbol@))
            && r->Ok_0.symbol@ == infos@[i].symbol@ && r->Ok_0.price@ == infos@[i].price@,
{
    let mut i: usize = 0;
    while i < infos.len()
        invariant
            0 <= i <= infos@.len(),
            forall|j: int| 0 <= j < i ==> !#[trigger] entry_is(infos@, j, symbol@),
        decreases infos@.len() - i,
    {
        if infos[i].symbol == *symbol {
            let found = CryptoInfo { symbol: infos[i].symbol.clone(), price: infos[i].price.clone() };
            assert(entry_is(infos@, i as int, symbol@));
            return Ok(found);
        }
        i = i + 1;
    }
    Err(FetchError::NotFound)
}

} // verus!
