//! Read-mostly aggregation over many books: the quote each book contributes.

use vstd::prelude::*;
use crate::book::{PriceBook, best_matches};
use crate::types::{Price, Side};

verus! {

/// One book’s best bid and ask.
pub type BestBidAsk = (Option<Price>, Option<Price>);

/// A book's best bid and best ask.
pub fn best_quote<PB: PriceBook>(book: &PB) -> (r: BestBidAsk)
    ensures
        book.consistent() ==> best_matches(book.locations(), Side::Buy, r.0) && best_matches(
            book.locations(),
            Side::Sell,
            r.1,
        ),
{
    (book.best_bid(), book.best_ask())
}

} // verus!
