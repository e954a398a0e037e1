//! The book of a symbol, level by level, and the ticks of the market.
use vstd::prelude::*;

use vstd::multiset::*;
use vstd::seq_lib::*;

use crate::arith::{add_opt, lit, mul_opt, number, plus, times};
use crate::decimal::{
    dec_of, lemma_dec_of, lemma_powers, lemma_value, one, pow10, quotient, value_of, Dec,
};
use crate::numbers::{plain_number, read_plain};
use crate::rounding::{
    can_be_held, is_close, law_rounding_above, law_rounding_below, law_rounding_is_close,
    law_rounding_scales, lemma_held, lemma_zero_and_one, rounded,
};
use crate::text::copy_of;

verus! {

/// How many levels the value of a side is made of.
pub const TICK_LEVELS: usize = 10;

/// A level of a book: a price and a quantity.
pub type Level = (Dec, Dec);

/// A level that can be read: a price and a quantity.
pub open spec fn level_of(texts: (String, String)) -> Option<Level> {
    match (plain_number(texts.0@), plain_number(texts.1@)) {
        (Some(p), Some(q)) => Some((p, q)),
        _ => None,
    }
}

fn read_level(texts: &(String, String)) -> (r: Option<Level>)
    ensures
        r == level_of(*texts),
{
    match (read_plain(texts.0.as_str()), read_plain(texts.1.as_str())) {
        (Some(p), Some(q)) => Some((p, q)),
        _ => None,
    }
}

/// The levels without those at a price.
pub open spec fn without_price(book: Seq<Level>, price: int) -> Seq<Level>
    decreases book.len(),
{
    if book.len() == 0 {
        Seq::empty()
    } else {
        let head = without_price(book.drop_last(), price);
        if book.last().0@ == price {
            head
        } else {
            head.push(book.last())
        }
    }
}

fn remove_price(book: &Vec<Level>, price: &Dec) -> (r: Vec<Level>)
    ensures
        r@ == without_price(book@, price@),
{
    let mut v: Vec<Level> = Vec::new();
    let mut i: usize = 0;
    while i < book.len()
        invariant
            i <= book@.len(),
            v@ == without_price(book@.take(i as int), price@),
        decreases book.len() - i,
    {
        proof {
            let t = book@.take(i as int + 1);
            assert(t.drop_last() =~= book@.take(i as int));
            assert(t.last() == book@[i as int]);
        }
        if !book[i].0.same(price) {
            v.push(book[i]);
        }
        i += 1;
    }
    assert(book@.take(book@.len() as int) =~= book@);
    v
}

/// Where the first level at a price stands; behind the last where there is none.
pub open spec fn index_of_price(book: Seq<Level>, price: int) -> int
    decreases book.len(),
{
    if book.len() == 0 || book[0].0@ == price {
        0
    } else {
        1 + index_of_price(book.skip(1), price)
    }
}

fn find_price(book: &Vec<Level>, price: &Dec) -> (r: usize)
    ensures
        r == index_of_price(book@, price@),
        r <= book@.len(),
{
    let mut i: usize = 0;
    assert(book@.skip(0) =~= book@);
    while i < book.len()
        invariant
            i <= book@.len(),
            index_of_price(book@, price@) == i + index_of_price(book@.skip(i as int), price@),
        decreases book.len() - i,
    {
        assert(book@.skip(i as int)[0] == book@[i as int]);
        if book[i].0.same(price) {
            return i;
        }
        assert(book@.skip(i as int).skip(1) =~= book@.skip(i as int + 1));
        i += 1;
    }
    i
}

/// A side with one level changed: a quantity of zero takes the price out, any other
/// replaces the one at the price or comes behind.
pub open spec fn with_level(book: Seq<Level>, level: Level) -> Seq<Level> {
    let i = index_of_price(book, level.0@);
    if level.1@ == 0 {
        without_price(book, level.0@)
    } else if 0 <= i < book.len() {
        book.update(i, (book[i].0, level.1))
    } else {
        book.push(level)
    }
}

/// A side with the first `n` changes that can be read.
pub open spec fn with_changes(book: Seq<Level>, changes: Seq<(String, String)>, n: nat) -> Seq<Level>
    decreases n,
{
    if n == 0 {
        book
    } else {
        let before = with_changes(book, changes, (n - 1) as nat);
        match level_of(changes[n - 1]) {
            Some(level) => with_level(before, level),
            None => before,
        }
    }
}

fn apply_changes(book: &mut Vec<Level>, changes: &Vec<(String, String)>)
    ensures
        final(book)@ == with_changes(old(book)@, changes@, changes@.len()),
{
    let mut i: usize = 0;
    while i < changes.len()
        invariant
            i <= changes@.len(),
            book@ == with_changes(old(book)@, changes@, i as nat),
        decreases changes.len() - i,
    {
        if let Some((price, qty)) = read_level(&changes[i]) {
            if qty.is_zero() {
                let kept = remove_price(book, &price);
                *book = kept;
            } else {
                let k: usize = find_price(book, &price);
                if k < book.len() {
                    let was = book[k].0;
                    book.set(k, (was, qty));
                } else {
                    book.push((price, qty));
                }
            }
        }
        i += 1;
    }
}

/// Whether `a` comes before `b`: bids fall in price, asks rise.
pub open spec fn comes_before(a: Level, b: Level, is_bid: bool) -> bool {
    if is_bid {
        a.0@ > b.0@
    } else {
        a.0@ < b.0@
    }
}

/// Where a level belongs: before the first that it comes before.
pub open spec fn place_for(side: Seq<Level>, level: Level, is_bid: bool) -> int
    decreases side.len(),
{
    if side.len() == 0 || comes_before(level, side[0], is_bid) {
        0
    } else {
        1 + place_for(side.skip(1), level, is_bid)
    }
}

proof fn lemma_place_for(side: Seq<Level>, level: Level, is_bid: bool)
    ensures
        0 <= place_for(side, level, is_bid) <= side.len(),
        forall|i: int|
            0 <= i < place_for(side, level, is_bid) ==> !comes_before(
                level,
                #[trigger] side[i],
                is_bid,
            ),
        place_for(side, level, is_bid) < side.len() ==> comes_before(
            level,
            side[place_for(side, level, is_bid)],
            is_bid,
        ),
    decreases side.len(),
{
    if side.len() > 0 && !comes_before(level, side[0], is_bid) {
        let rest = side.skip(1);
        lemma_place_for(rest, level, is_bid);
        assert forall|i: int| 0 <= i < place_for(side, level, is_bid) implies !comes_before(
            level,
            #[trigger] side[i],
            is_bid,
        ) by {
            if i > 0 {
                assert(rest[i - 1] == side[i]);
            }
        }
    }
}

/// The levels in the order of their side; those at one price stay in their order.
pub open spec fn in_order(levels: Seq<Level>, is_bid: bool) -> Seq<Level>
    decreases levels.len(),
{
    if levels.len() == 0 {
        Seq::empty()
    } else {
        let head = in_order(levels.drop_last(), is_bid);
        head.insert(place_for(head, levels.last(), is_bid), levels.last())
    }
}

/// No level comes before one that stands before it.
pub open spec fn is_ordered(side: Seq<Level>, is_bid: bool) -> bool {
    forall|i: int, j: int|
        0 <= i < j < side.len() ==> !comes_before(#[trigger] side[j], #[trigger] side[i], is_bid)
}

/// Putting levels in order loses none, adds none and orders them.
pub proof fn law_in_order(levels: Seq<Level>, is_bid: bool)
    ensures
        is_ordered(in_order(levels, is_bid), is_bid),
        in_order(levels, is_bid).to_multiset() == levels.to_multiset(),
        in_order(levels, is_bid).len() == levels.len(),
    decreases levels.len(),
{
    if levels.len() > 0 {
        let last = levels.last();
        let head = in_order(levels.drop_last(), is_bid);
        law_in_order(levels.drop_last(), is_bid);
        lemma_place_for(head, last, is_bid);
        let k = place_for(head, last, is_bid);
        let all = head.insert(k, last);
        assert forall|i: int, j: int| 0 <= i < j < all.len() implies !comes_before(
            #[trigger] all[j],
            #[trigger] all[i],
            is_bid,
        ) by {
            let x = if i < k { head[i] } else if i == k { last } else { head[i - 1] };
            let y = if j < k { head[j] } else if j == k { last } else { head[j - 1] };
            assert(all[i] == x && all[j] == y);
            if i == k {
                assert(comes_before(last, head[k], is_bid));
                if j - 1 > k {
                    assert(!comes_before(head[j - 1], head[k], is_bid));
                }
            } else if j == k {
                assert(!comes_before(last, head[i], is_bid));
            }
        }
        assert(levels =~= levels.drop_last().push(last));
        to_multiset_build(levels.drop_last(), last);
        to_multiset_insert(head, k, last);
    } else {
        assert(levels =~= Seq::<Level>::empty());
    }
}

fn find_place(side: &Vec<Level>, level: Level, is_bid: bool) -> (r: usize)
    ensures
        r == place_for(side@, level, is_bid),
        r <= side@.len(),
{
    let mut k: usize = 0;
    assert(side@.skip(0) =~= side@);
    while k < side.len()
        invariant
            k <= side@.len(),
            place_for(side@, level, is_bid) == k + place_for(side@.skip(k as int), level, is_bid),
        decreases side.len() - k,
    {
        assert(side@.skip(k as int)[0] == side@[k as int]);
        let before = if is_bid {
            side[k].0.lt(&level.0)
        } else {
            level.0.lt(&side[k].0)
        };
        if before {
            return k;
        }
        assert(side@.skip(k as int).skip(1) =~= side@.skip(k as int + 1));
        k += 1;
    }
    k
}

fn put_in_order(levels: &Vec<Level>, is_bid: bool) -> (r: Vec<Level>)
    ensures
        r@ == in_order(levels@, is_bid),
{
    let mut v: Vec<Level> = Vec::new();
    let mut i: usize = 0;
    while i < levels.len()
        invariant
            i <= levels@.len(),
            v@ == in_order(levels@.take(i as int), is_bid),
        decreases levels.len() - i,
    {
        let level = levels[i];
        let k: usize = find_place(&v, level, is_bid);
        proof {
            let t = levels@.take(i as int + 1);
            assert(t.drop_last() =~= levels@.take(i as int));
            assert(t.last() == level);
        }
        v.insert(k, level);
        i += 1;
    }
    assert(levels@.take(levels@.len() as int) =~= levels@);
    v
}

/// What the quantities of the first `n` levels come to.
pub open spec fn qty_total(book: Seq<Level>, n: nat) -> int
    decreases n,
{
    if n == 0 {
        0
    } else {
        qty_total(book, (n - 1) as nat) + book[n - 1].1@
    }
}

/// The quantities of the first levels, however many of the first `n`, can be held.
pub open spec fn qty_totals_held(book: Seq<Level>, n: nat) -> bool {
    forall|k: nat| k <= n ==> can_be_held(#[trigger] qty_total(book, k))
}

/// What the values of the first `n` levels come to, in units of 10^-56.
pub open spec fn worth_total(book: Seq<Level>, n: nat) -> int
    decreases n,
{
    if n == 0 {
        0
    } else {
        worth_total(book, (n - 1) as nat) + book[n - 1].0@ * book[n - 1].1@
    }
}

/// The value of each of the first `n` levels, and of so many of the first of them, can be held.
pub open spec fn worths_held(book: Seq<Level>, n: nat) -> bool {
    &&& forall|k: nat|
        k <= n ==> #[trigger] worth_total(book, k) % one() == 0 && can_be_held(
            worth_total(book, k) / one(),
        )
    &&& forall|i: int|
        0 <= i < n ==> (#[trigger] book[i]).0@ * book[i].1@ % one() == 0 && can_be_held(
            book[i].0@ * book[i].1@ / one(),
        )
}

/// The imbalance of a book is the quantity of the bids by that of the asks.
pub open spec fn book_told(bids: Seq<Level>, asks: Seq<Level>, obi: Option<Dec>) -> bool {
    qty_totals_held(bids, bids.len()) && qty_totals_held(asks, asks.len()) ==> told_by(
        qty_total(bids, bids.len()),
        qty_total(asks, asks.len()),
        obi,
    )
}

/// `r` is one number by another, where both are above zero.
pub open spec fn told_by(b: int, a: int, r: Option<Dec>) -> bool {
    if b > 0 && a > 0 {
        rounded(value_of(r), b * one(), a)
    } else {
        r is None
    }
}

/// The imbalance of a book is one where both sides have the same quantity, not below one where
/// the bids have more and not above one where the asks do; it is their quotient up to rounding;
/// and there is none where a side is empty.
pub proof fn law_imbalance_of_a_book(bids: Seq<Level>, asks: Seq<Level>, obi: Option<Dec>)
    requires
        book_told(bids, asks, obi),
        qty_totals_held(bids, bids.len()),
        qty_totals_held(asks, asks.len()),
    ensures
        ({
            let b = qty_total(bids, bids.len());
            let a = qty_total(asks, asks.len());
            &&& b <= 0 || a <= 0 ==> obi is None
            &&& b > 0 && b == a ==> (obi matches Some(v) ==> v@ == one())
            &&& b >= a > 0 ==> (obi matches Some(v) ==> v@ >= one())
            &&& 0 < b <= a ==> (obi matches Some(v) ==> 0 <= v@ <= one())
            &&& b > 0 && a > 0 ==> (obi matches Some(v) ==> is_close(b * one(), a, v@))
            &&& bids.len() == 0 || asks.len() == 0 ==> obi is None
        }),
{
    let b = qty_total(bids, bids.len());
    let a = qty_total(asks, asks.len());
    lemma_zero_and_one();
    lemma_powers();
    if b > 0 && a > 0 && obi is Some {
        let v = obi->0@;
        law_rounding_is_close(b * one(), a, v);
        law_rounding_above(b * one(), a, v, 0);
        if b >= a {
            law_rounding_above(b * one(), a, v, one());
        }
        if b <= a {
            law_rounding_below(b * one(), a, v, one());
        }
    }
}

/// What a side is worth is the sum, over as many of its first levels as are asked for, and one at
/// least, of the price of each times its quantity; nothing where that is not above zero.
pub open spec fn notional_told(book: Seq<Level>, levels: nat, r: Option<Dec>) -> bool {
    let n: nat = if levels == 0 {
        1
    } else {
        levels
    };
    let counted = if n < book.len() {
        n
    } else {
        book.len()
    };
    worths_held(book, counted) ==> {
        &&& r matches Some(v) ==> v@ * one() == worth_total(book, counted) && v@ > 0
        &&& r is None <==> worth_total(book, counted) <= 0
    }
}

/// The total quantity of the first `n` levels.
pub open spec fn quantity_of(book: Seq<Level>, n: nat) -> Option<Dec>
    decreases n,
{
    if n == 0 {
        lit(0, 0)
    } else {
        plus(quantity_of(book, (n - 1) as nat), Some(book[n - 1].1))
    }
}

fn find_quantity(book: &Vec<Level>) -> (r: Option<Dec>)
    ensures
        r == quantity_of(book@, book@.len()),
        qty_totals_held(book@, book@.len()) ==> value_of(r) == Some(
            qty_total(book@, book@.len()),
        ),
{
    let mut total = number(0, 0);
    let mut i: usize = 0;
    proof {
        lemma_value(0, 0);
    }
    while i < book.len()
        invariant
            i <= book@.len(),
            total == quantity_of(book@, i as nat),
            qty_totals_held(book@, book@.len()) ==> value_of(total) == Some(
                qty_total(book@, i as nat),
            ),
        decreases book.len() - i,
    {
        let ghost before = total;
        total = add_opt(total, Some(book[i].1));
        proof {
            if qty_totals_held(book@, book@.len()) {
                let after = qty_total(book@, (i + 1) as nat);
                assert(can_be_held(after));
                lemma_held(after, value_of(total));
            }
        }
        i += 1;
    }
    total
}

/// The quantity to buy by the quantity to sell, where there is both.
pub open spec fn balance_of(bids: Option<Dec>, asks: Option<Dec>) -> Option<Dec> {
    match (bids, asks) {
        (Some(b), Some(a)) => if b@ > 0 && a@ > 0 {
            quotient(b, a)
        } else {
            None
        },
        _ => None,
    }
}

fn find_balance(bids: Option<Dec>, asks: Option<Dec>) -> (r: Option<Dec>)
    ensures
        r == balance_of(bids, asks),
        bids is Some && asks is Some ==> told_by(bids->0@, asks->0@, r),
{
    proof {
        lemma_powers();
    }
    match (bids, asks) {
        (Some(b), Some(a)) => if b.is_positive() && a.is_positive() {
            b.checked_div(&a)
        } else {
            None
        },
        _ => None,
    }
}

/// The value of the first `n` levels.
pub open spec fn value_of_levels(book: Seq<Level>, n: nat) -> Option<Dec>
    decreases n,
{
    if n == 0 {
        lit(0, 0)
    } else {
        plus(
            value_of_levels(book, (n - 1) as nat),
            times(Some(book[n - 1].0), Some(book[n - 1].1)),
        )
    }
}

/// How many levels of a side count: at least one is asked for.
pub open spec fn levels_counted(book: Seq<Level>, levels: nat) -> nat {
    let asked = if levels == 0 {
        1
    } else {
        levels
    };
    if asked < book.len() {
        asked
    } else {
        book.len()
    }
}

/// The value of the first levels of a side, where it is positive.
pub open spec fn notional_of(book: Seq<Level>, levels: nat) -> Option<Dec> {
    match value_of_levels(book, levels_counted(book, levels)) {
        Some(v) => if v@ > 0 {
            Some(v)
        } else {
            None
        },
        None => None,
    }
}

/// The levels that can be read among the first `n`.
pub open spec fn levels_of(texts: Seq<(String, String)>, n: nat) -> Seq<Level>
    decreases n,
{
    if n == 0 {
        Seq::empty()
    } else {
        let head = levels_of(texts, (n - 1) as nat);
        match level_of(texts[n - 1]) {
            Some(level) => head.push(level),
            None => head,
        }
    }
}

/// How many of the texts count.
pub open spec fn up_to(n: nat, limit: nat) -> nat {
    if n < limit {
        n
    } else {
        limit
    }
}

fn read_levels(texts: &Vec<(String, String)>, limit: usize) -> (r: Vec<Level>)
    ensures
        r@ == levels_of(texts@, up_to(texts@.len(), limit as nat)),
        r@.len() <= limit,
{
    let n: usize = if texts.len() < limit {
        texts.len()
    } else {
        limit
    };
    let mut v: Vec<Level> = Vec::new();
    let mut i: usize = 0;
    while i < n
        invariant
            i <= n <= texts@.len(),
            v@ == levels_of(texts@, i as nat),
            v@.len() <= i,
        decreases n - i,
    {
        if let Some(level) = read_level(&texts[i]) {
            v.push(level);
        }
        i += 1;
    }
    v
}

/// The book of a symbol.
#[derive(Debug)]
pub struct DepthState {
    /// The best first.
    pub bids: Vec<Level>,
    /// The best first.
    pub asks: Vec<Level>,
    pub depth_limit: usize,
    pub obi: Option<Dec>,
}

/// The first levels of a side.
pub open spec fn cut_to(side: Seq<Level>, limit: nat) -> Seq<Level> {
    if side.len() > limit {
        side.take(limit as int)
    } else {
        side
    }
}

impl DepthState {
    /// No side has too many levels, and the balance is that of the sides.
    pub open spec fn wf(&self) -> bool {
        &&& self.bids@.len() <= self.depth_limit
        &&& self.asks@.len() <= self.depth_limit
        &&& self.obi == balance_of(
            quantity_of(self.bids@, self.bids@.len()),
            quantity_of(self.asks@, self.asks@.len()),
        )
        &&& book_told(self.bids@, self.asks@, self.obi)
    }

    pub fn new(depth_limit: usize) -> (r: DepthState)
        ensures
            r.wf(),
            r.bids@.len() == 0,
            r.asks@.len() == 0,
            r.depth_limit == depth_limit,
            r.obi is None,
    {
        proof {
            lemma_dec_of(0, 0);
            assert(dec_of(0, 0)@ == 0);
        }
        DepthState { bids: Vec::new(), asks: Vec::new(), depth_limit, obi: None }
    }

    /// Merges changes into the book: each side is changed level by level, put in
    /// order and cut to the limit.
    pub fn update(&mut self, bids: &Vec<(String, String)>, asks: &Vec<(String, String)>)
        ensures
            final(self).wf(),
            final(self).depth_limit == old(self).depth_limit,
            final(self).bids@ == cut_to(
                in_order(with_changes(old(self).bids@, bids@, bids@.len()), true),
                old(self).depth_limit as nat,
            ),
            final(self).asks@ == cut_to(
                in_order(with_changes(old(self).asks@, asks@, asks@.len()), false),
                old(self).depth_limit as nat,
            ),
            final(self).obi == balance_of(
                quantity_of(final(self).bids@, final(self).bids@.len()),
                quantity_of(final(self).asks@, final(self).asks@.len()),
            ),
    {
        apply_changes(&mut self.bids, bids);
        self.bids = put_in_order(&self.bids, true);
        if self.bids.len() > self.depth_limit {
            self.bids.truncate(self.depth_limit);
        }
        apply_changes(&mut self.asks, asks);
        self.asks = put_in_order(&self.asks, false);
        if self.asks.len() > self.depth_limit {
            self.asks.truncate(self.depth_limit);
        }
        self.obi = find_balance(find_quantity(&self.bids), find_quantity(&self.asks));
    }

    /// The quantity to buy by the quantity to sell.
    pub fn obi(&self) -> (r: Option<Dec>)
        ensures
            r == self.obi,
    {
        self.obi
    }

    /// Takes a book as it is: the levels that can be read among the first of each side.
    pub fn reset_with_snapshot(&mut self, bids: &Vec<(String, String)>, asks: &Vec<(String, String)>)
        ensures
            final(self).wf(),
            final(self).depth_limit == old(self).depth_limit,
            final(self).bids@ == levels_of(
                bids@,
                up_to(bids@.len(), old(self).depth_limit as nat),
            ),
            final(self).asks@ == levels_of(
                asks@,
                up_to(asks@.len(), old(self).depth_limit as nat),
            ),
            final(self).obi == balance_of(
                quantity_of(final(self).bids@, final(self).bids@.len()),
                quantity_of(final(self).asks@, final(self).asks@.len()),
            ),
    {
        self.bids = read_levels(bids, self.depth_limit);
        self.asks = read_levels(asks, self.depth_limit);
        self.obi = find_balance(find_quantity(&self.bids), find_quantity(&self.asks));
    }

    /// The first level to buy.
    pub fn best_bid(&self) -> (r: Option<Level>)
        ensures
            r == if self.bids@.len() == 0 {
                None
            } else {
                Some(self.bids@[0])
            },
    {
        if self.bids.len() == 0 {
            None
        } else {
            Some(self.bids[0])
        }
    }

    /// The first level to sell.
    pub fn best_ask(&self) -> (r: Option<Level>)
        ensures
            r == if self.asks@.len() == 0 {
                None
            } else {
                Some(self.asks@[0])
            },
    {
        if self.asks.len() == 0 {
            None
        } else {
            Some(self.asks[0])
        }
    }

    /// The value of the first levels of a side.
    pub fn depth_notional_usd(&self, is_bid: bool, levels: usize) -> (r: Option<Dec>)
        ensures
            r == notional_of(
                if is_bid {
                    self.bids@
                } else {
                    self.asks@
                },
                levels as nat,
            ),
            notional_told(
                if is_bid {
                    self.bids@
                } else {
                    self.asks@
                },
                levels as nat,
                r,
            ),
    {
        proof {
            lemma_powers();
            lemma_value(0, 0);
        }
        let book = if is_bid {
            &self.bids
        } else {
            &self.asks
        };
        let asked: usize = if levels == 0 {
            1
        } else {
            levels
        };
        let n: usize = if asked < book.len() {
            asked
        } else {
            book.len()
        };
        let mut total = number(0, 0);
        let mut i: usize = 0;
        while i < n
            invariant
                i <= n <= book@.len(),
                total == value_of_levels(book@, i as nat),
                pow10(28) == one(),
                worths_held(book@, n as nat) ==> value_of(total) == Some(
                    worth_total(book@, i as nat) / one(),
                ),
            decreases n - i,
        {
            let worth = mul_opt(Some(book[i].0), Some(book[i].1));
            total = add_opt(total, worth);
            proof {
                if worths_held(book@, n as nat) {
                    let exact = book@[i as int].0@ * book@[i as int].1@;
                    let before = worth_total(book@, i as nat);
                    let after = worth_total(book@, (i + 1) as nat);
                    assert(after == before + exact);
                    assert(exact == (exact / one()) * one() && before == (before / one()) * one()
                        && after == (after / one()) * one());
                    law_rounding_scales(exact / one(), 1, one(), value_of(worth));
                    lemma_held(exact / one(), value_of(worth));
                    lemma_held(after / one(), value_of(total));
                }
            }
            i += 1;
        }
        match total {
            Some(v) => if v.is_positive() {
                Some(v)
            } else {
                None
            },
            None => None,
        }
    }
}

/// After changes the sides are in order: no bid stands before a higher one and no ask
/// before a lower one.
pub proof fn law_sides_stay_in_order(
    book: Seq<Level>,
    changes: Seq<(String, String)>,
    limit: nat,
    is_bid: bool,
)
    ensures
        is_ordered(
            cut_to(in_order(with_changes(book, changes, changes.len()), is_bid), limit),
            is_bid,
        ),
{
    law_in_order(with_changes(book, changes, changes.len()), is_bid);
}

/// No price stands twice.
pub open spec fn distinct_prices(book: Seq<Level>) -> bool {
    forall|i: int, j: int|
        0 <= i < j < book.len() ==> #[trigger] book[i].0@ != #[trigger] book[j].0@
}

/// No level is without a quantity.
pub open spec fn no_empty_level(book: Seq<Level>) -> bool {
    forall|i: int| 0 <= i < book.len() ==> #[trigger] book[i].1@ != 0
}

/// Every level comes before those behind it.
pub open spec fn strictly_ordered(side: Seq<Level>, is_bid: bool) -> bool {
    forall|i: int, j: int|
        0 <= i < j < side.len() ==> comes_before(#[trigger] side[i], #[trigger] side[j], is_bid)
}

/// What is left without a price are levels of the book at other prices.
proof fn lemma_without_price(book: Seq<Level>, price: int)
    ensures
        forall|i: int|
            0 <= i < without_price(book, price).len() ==> book.contains(
                #[trigger] without_price(book, price)[i],
            ) && without_price(book, price)[i].0@ != price,
        distinct_prices(book) ==> distinct_prices(without_price(book, price)),
    decreases book.len(),
{
    if book.len() > 0 {
        let front = book.drop_last();
        lemma_without_price(front, price);
        let head = without_price(front, price);
        let left = without_price(book, price);
        assert forall|i: int| 0 <= i < left.len() implies book.contains(#[trigger] left[i])
            && left[i].0@ != price by {
            if i < head.len() {
                assert(front.contains(head[i]));
                let k = choose|k: int| 0 <= k < front.len() && front[k] == head[i];
                assert(book[k] == left[i]);
            } else {
                assert(book[book.len() - 1] == left[i]);
            }
        }
        if distinct_prices(book) {
            assert(distinct_prices(front)) by {
                assert forall|i: int, j: int| 0 <= i < j < front.len() implies #[trigger] front[i].0@
                    != #[trigger] front[j].0@ by {
                    assert(book[i].0@ != book[j].0@);
                }
            }
            assert forall|i: int, j: int| 0 <= i < j < left.len() implies #[trigger] left[i].0@
                != #[trigger] left[j].0@ by {
                if j < head.len() {
                    assert(head[i].0@ != head[j].0@);
                } else {
                    assert(front.contains(head[i]));
                    let k = choose|k: int| 0 <= k < front.len() && front[k] == head[i];
                    assert(book[k].0@ != book[book.len() - 1].0@);
                }
            }
        }
    }
}

/// The first level at a price has that price, and where there is none no level has it.
proof fn lemma_index_of_price(book: Seq<Level>, price: int)
    ensures
        0 <= index_of_price(book, price) <= book.len(),
        index_of_price(book, price) < book.len() ==> book[index_of_price(book, price)].0@ == price,
        index_of_price(book, price) == book.len() ==> forall|i: int|
            0 <= i < book.len() ==> #[trigger] book[i].0@ != price,
    decreases book.len(),
{
    if book.len() > 0 && book[0].0@ != price {
        let rest = book.skip(1);
        lemma_index_of_price(rest, price);
        if index_of_price(book, price) == book.len() {
            assert forall|i: int| 0 <= i < book.len() implies #[trigger] book[i].0@ != price by {
                if i > 0 {
                    assert(rest[i - 1].0@ != price);
                }
            }
        }
    }
}

/// Changes leave no price twice and no level without a quantity.
proof fn lemma_with_changes(book: Seq<Level>, changes: Seq<(String, String)>, n: nat)
    requires
        distinct_prices(book),
        no_empty_level(book),
    ensures
        distinct_prices(with_changes(book, changes, n)),
        no_empty_level(with_changes(book, changes, n)),
    decreases n,
{
    if n > 0 {
        lemma_with_changes(book, changes, (n - 1) as nat);
        let before = with_changes(book, changes, (n - 1) as nat);
        if let Some(level) = level_of(changes[n - 1]) {
            let after = with_level(before, level);
            lemma_index_of_price(before, level.0@);
            if level.1@ == 0 {
                lemma_without_price(before, level.0@);
                assert forall|i: int| 0 <= i < after.len() implies #[trigger] after[i].1@ != 0 by {
                    assert(before.contains(after[i]));
                }
            } else {
                assert forall|i: int, j: int| 0 <= i < j < after.len() implies #[trigger] after[i].0@
                    != #[trigger] after[j].0@ by {
                    if j < before.len() {
                        assert(before[i].0@ != before[j].0@);
                    } else {
                        assert(before[i].0@ != level.0@);
                    }
                }
            }
        }
    }
}

/// Putting levels in order keeps the levels.
proof fn lemma_order_keeps_levels(levels: Seq<Level>, is_bid: bool)
    requires
        distinct_prices(levels),
        no_empty_level(levels),
    ensures
        distinct_prices(in_order(levels, is_bid)),
        no_empty_level(in_order(levels, is_bid)),
        forall|l: Level|
            in_order(levels, is_bid).contains(l) <==> #[trigger] levels.contains(l),
    decreases levels.len(),
{
    let all = in_order(levels, is_bid);
    law_in_order(levels, is_bid);
    assert forall|l: Level| all.contains(l) <==> #[trigger] levels.contains(l) by {
        to_multiset_contains(all, l);
        to_multiset_contains(levels, l);
    }
    assert forall|i: int| 0 <= i < all.len() implies #[trigger] all[i].1@ != 0 by {
        assert(all.contains(all[i]));
        assert(levels.contains(all[i]));
    }
    if levels.len() > 0 {
        let front = levels.drop_last();
        let last = levels.last();
        let head = in_order(front, is_bid);
        assert forall|i: int, j: int| 0 <= i < j < front.len() implies #[trigger] front[i].0@
            != #[trigger] front[j].0@ by {
            assert(levels[i].0@ != levels[j].0@);
        }
        assert forall|i: int| 0 <= i < front.len() implies #[trigger] front[i].1@ != 0 by {
            assert(levels[i].1@ != 0);
        }
        lemma_order_keeps_levels(front, is_bid);
        lemma_place_for(head, last, is_bid);
        let k = place_for(head, last, is_bid);
        assert forall|i: int| 0 <= i < head.len() implies #[trigger] head[i].0@ != last.0@ by {
            assert(head.contains(head[i]));
            assert(front.contains(head[i]));
            let m = choose|m: int| 0 <= m < front.len() && front[m] == head[i];
            assert(levels[m].0@ != levels[levels.len() - 1].0@);
        }
        assert forall|i: int, j: int| 0 <= i < j < all.len() implies #[trigger] all[i].0@
            != #[trigger] all[j].0@ by {
            let a = if i < k { i } else { i - 1 };
            let b = if j < k { j } else { j - 1 };
            if i == k {
                assert(head[b].0@ != last.0@);
            } else if j == k {
                assert(head[a].0@ != last.0@);
            } else {
                assert(head[a].0@ != head[b].0@);
            }
        }
    }
}

/// After changes each side is strictly in order: no price stands twice, no level is
/// without a quantity, and what was cut off comes behind all that is kept.
pub proof fn law_sides_hold_the_best(
    book: Seq<Level>,
    changes: Seq<(String, String)>,
    limit: nat,
    is_bid: bool,
)
    requires
        distinct_prices(book),
        no_empty_level(book),
    ensures
        ({
            let merged = with_changes(book, changes, changes.len());
            let side = cut_to(in_order(merged, is_bid), limit);
            &&& strictly_ordered(side, is_bid)
            &&& distinct_prices(side)
            &&& no_empty_level(side)
            &&& side.len() == if merged.len() < limit {
                merged.len()
            } else {
                limit
            }
            &&& forall|i: int| 0 <= i < side.len() ==> merged.contains(#[trigger] side[i])
            &&& forall|i: int, l: Level|
                0 <= i < side.len() && #[trigger] merged.contains(l) && !side.contains(l)
                    ==> comes_before(#[trigger] side[i], l, is_bid)
        }),
{
    let merged = with_changes(book, changes, changes.len());
    let all = in_order(merged, is_bid);
    let side = cut_to(all, limit);
    lemma_with_changes(book, changes, changes.len());
    lemma_order_keeps_levels(merged, is_bid);
    law_in_order(merged, is_bid);
    assert forall|i: int, j: int| 0 <= i < j < all.len() implies comes_before(
        #[trigger] all[i],
        #[trigger] all[j],
        is_bid,
    ) by {
        assert(!comes_before(all[j], all[i], is_bid));
        assert(all[i].0@ != all[j].0@);
    }
    assert forall|i: int, j: int| 0 <= i < j < side.len() implies #[trigger] side[i].0@
        != #[trigger] side[j].0@ by {
        assert(all[i].0@ != all[j].0@);
    }
    assert forall|i: int| 0 <= i < side.len() implies merged.contains(#[trigger] side[i]) by {
        assert(all.contains(all[i]));
    }
    assert forall|i: int, l: Level|
        0 <= i < side.len() && #[trigger] merged.contains(l) && !side.contains(l) implies comes_before(
        #[trigger] side[i],
        l,
        is_bid,
    ) by {
        assert(all.contains(l));
        let j = choose|j: int| 0 <= j < all.len() && all[j] == l;
        if j < side.len() {
            assert(side[j] == l);
        }
        assert(comes_before(all[i], all[j], is_bid));
    }
}

/// The quantities that can be read among the first `n` levels of a side.
pub open spec fn read_quantity(texts: Seq<(String, String)>, n: nat) -> Option<Dec>
    decreases n,
{
    if n == 0 {
        lit(0, 0)
    } else {
        match plain_number(texts[n - 1].1@) {
            Some(q) => plus(read_quantity(texts, (n - 1) as nat), Some(q)),
            None => read_quantity(texts, (n - 1) as nat),
        }
    }
}

/// What the quantities that can be read come to, of the first `n` levels; the others count nothing.
pub open spec fn read_total(texts: Seq<(String, String)>, n: nat) -> int
    decreases n,
{
    if n == 0 {
        0
    } else {
        read_total(texts, (n - 1) as nat) + match plain_number(texts[n - 1].1@) {
            Some(q) => q@,
            None => 0,
        }
    }
}

pub open spec fn read_totals_held(texts: Seq<(String, String)>, n: nat) -> bool {
    forall|k: nat| k <= n ==> can_be_held(#[trigger] read_total(texts, k))
}

fn find_read_quantity(texts: &Vec<(String, String)>) -> (r: Option<Dec>)
    ensures
        r == read_quantity(texts@, texts@.len()),
        read_totals_held(texts@, texts@.len()) ==> value_of(r) == Some(
            read_total(texts@, texts@.len()),
        ),
{
    let mut total = number(0, 0);
    let mut i: usize = 0;
    proof {
        lemma_value(0, 0);
    }
    while i < texts.len()
        invariant
            i <= texts@.len(),
            total == read_quantity(texts@, i as nat),
            read_totals_held(texts@, texts@.len()) ==> value_of(total) == Some(
                read_total(texts@, i as nat),
            ),
        decreases texts.len() - i,
    {
        if let Some(q) = read_plain(texts[i].1.as_str()) {
            total = add_opt(total, Some(q));
            proof {
                if read_totals_held(texts@, texts@.len()) {
                    let after = read_total(texts@, (i + 1) as nat);
                    assert(can_be_held(after));
                    lemma_held(after, value_of(total));
                }
            }
        }
        i += 1;
    }
    total
}

/// The quantity to buy by the quantity to sell in a book.
pub fn fetch_depth_obi(bids: &Vec<(String, String)>, asks: &Vec<(String, String)>) -> (r: Option<
    Dec,
>)
    ensures
        r == balance_of(
            read_quantity(bids@, bids@.len()),
            read_quantity(asks@, asks@.len()),
        ),
        read_totals_held(bids@, bids@.len()) && read_totals_held(asks@, asks@.len()) ==> told_by(
            read_total(bids@, bids@.len()),
            read_total(asks@, asks@.len()),
            r,
        ),
{
    find_balance(find_read_quantity(bids), find_read_quantity(asks))
}

/// The market at a moment.
#[derive(Debug)]
pub struct MarketTick {
    pub symbol: String,
    pub price: Dec,
    pub bid: Dec,
    pub ask: Dec,
    pub volume: Dec,
    /// The time in milliseconds, where the exchange told one.
    pub ts_ms: u64,
    pub obi: Option<Dec>,
    pub funding_rate: Option<Dec>,
    pub liq_long_cluster: Option<Dec>,
    pub liq_short_cluster: Option<Dec>,
    pub bid_depth_usd: Option<Dec>,
    pub ask_depth_usd: Option<Dec>,
}

/// A tick that only a price is known of.
pub open spec fn is_price_tick(
    t: MarketTick,
    symbol: Seq<char>,
    price: Dec,
    funding_rate: Option<Dec>,
    ts_ms: u64,
) -> bool {
    &&& t.symbol@ == symbol
    &&& t.price == price
    &&& t.bid == price
    &&& t.ask == price
    &&& t.volume == dec_of(0, 0)
    &&& t.ts_ms == ts_ms
    &&& t.obi is None
    &&& t.funding_rate == funding_rate
    &&& t.liq_long_cluster is None
    &&& t.liq_short_cluster is None
    &&& t.bid_depth_usd is None
    &&& t.ask_depth_usd is None
}

/// The number of an optional text.
pub open spec fn optional_number(text: Option<&str>) -> Option<Dec> {
    match text {
        Some(t) => plain_number(t@),
        None => None,
    }
}

fn read_optional_number(text: Option<&str>) -> (r: Option<Dec>)
    ensures
        r == optional_number(text),
{
    match text {
        Some(t) => read_plain(t),
        None => None,
    }
}

/// The tick of a mark price; none where the price cannot be read.
pub fn parse_mark_price(
    symbol: &str,
    mark_price: &str,
    funding_rate: Option<&str>,
    event_time_ms: u64,
) -> (r: Option<MarketTick>)
    ensures
        match plain_number(mark_price@) {
            Some(price) => r matches Some(t) && is_price_tick(
                t,
                symbol@,
                price,
                optional_number(funding_rate),
                event_time_ms,
            ),
            None => r is None,
        },
{
    match read_plain(mark_price) {
        None => None,
        Some(price) => Some(
            MarketTick {
                symbol: copy_of(symbol),
                price,
                bid: price,
                ask: price,
                volume: Dec::new(0, 0),
                ts_ms: event_time_ms,
                obi: None,
                funding_rate: read_optional_number(funding_rate),
                liq_long_cluster: None,
                liq_short_cluster: None,
                bid_depth_usd: None,
                ask_depth_usd: None,
            },
        ),
    }
}

/// Takes the best prices and the values of a book into a tick.
pub fn populate_tick_with_depth(depth: &DepthState, tick: &mut MarketTick)
    ensures
        *final(tick) == (MarketTick {
            bid: if depth.bids@.len() == 0 {
                old(tick).bid
            } else {
                depth.bids@[0].0
            },
            ask: if depth.asks@.len() == 0 {
                old(tick).ask
            } else {
                depth.asks@[0].0
            },
            bid_depth_usd: notional_of(depth.bids@, TICK_LEVELS as nat),
            ask_depth_usd: notional_of(depth.asks@, TICK_LEVELS as nat),
            ..*old(tick)
        }),
        notional_told(depth.bids@, 10, final(tick).bid_depth_usd),
        notional_told(depth.asks@, 10, final(tick).ask_depth_usd),
{
    if let Some((price, _)) = depth.best_bid() {
        tick.bid = price;
    }
    if let Some((price, _)) = depth.best_ask() {
        tick.ask = price;
    }
    tick.bid_depth_usd = depth.depth_notional_usd(true, TICK_LEVELS);
    tick.ask_depth_usd = depth.depth_notional_usd(false, TICK_LEVELS);
}

/// The market as the exchange tells it when it is asked: the tick of the mark price, with
/// the imbalance of the book and the liquidations where they are known. `None` where the
/// price cannot be read.
pub fn fetch_snapshot(
    symbol: &str,
    mark_price: &str,
    funding_rate: Option<&str>,
    event_time_ms: u64,
    obi: Option<Dec>,
    liquidations: Option<(Option<Dec>, Option<Dec>)>,
) -> (r: Option<MarketTick>)
    ensures
        r is Some <==> plain_number(mark_price@) is Some,
        r matches Some(t) ==> t.obi == obi && t.liq_long_cluster == (match liquidations {
            Some((long, _)) => long,
            None => None,
        }) && t.liq_short_cluster == (match liquidations {
            Some((_, short)) => short,
            None => None,
        }) && is_price_tick(
            (MarketTick { obi: None, liq_long_cluster: None, liq_short_cluster: None, ..t }),
            symbol@,
            plain_number(mark_price@)->0,
            optional_number(funding_rate),
            event_time_ms,
        ),
{
    match parse_mark_price(symbol, mark_price, funding_rate, event_time_ms) {
        None => None,
        Some(mut tick) => {
            tick.obi = obi;
            if let Some((long, short)) = liquidations {
                tick.liq_long_cluster = long;
                tick.liq_short_cluster = short;
            }
            Some(tick)
        },
    }
}

/// A tick of a price alone has that price on both sides of the market, and nothing else is known.
pub proof fn law_price_ticks(
    t: MarketTick,
    symbol: Seq<char>,
    price: Dec,
    funding_rate: Option<Dec>,
    ts_ms: u64,
)
    requires
        is_price_tick(t, symbol, price, funding_rate, ts_ms),
    ensures
        t.symbol@ == symbol && t.ts_ms == ts_ms && t.funding_rate == funding_rate,
        t.price@ == price@ && t.bid@ == price@ && t.ask@ == price@ && t.volume@ == 0,
        t.obi is None && t.liq_long_cluster is None && t.liq_short_cluster is None,
        t.bid_depth_usd is None && t.ask_depth_usd is None,
{
    lemma_value(0, 0);
}

/// The quantity at a price of a side, if there is a level of it.
pub open spec fn holds(book: Seq<Level>, price: int, qty: int) -> bool {
    exists|i: int| 0 <= i < book.len() && (#[trigger] book[i]).0@ == price && book[i].1@ == qty
}

/// A change gives its price the quantity it names, and takes the price away where that is zero;
/// what the side holds at any other price stays.
pub proof fn law_one_change(book: Seq<Level>, level: Level, price: int, qty: int)
    requires
        distinct_prices(book),
    ensures
        level.1@ != 0 ==> (holds(with_level(book, level), level.0@, qty) <==> qty == level.1@),
        level.1@ == 0 ==> !holds(with_level(book, level), level.0@, qty),
        price != level.0@ ==> (holds(with_level(book, level), price, qty) <==> holds(
            book,
            price,
            qty,
        )),
{
    let after = with_level(book, level);
    lemma_found_price(book, level.0@);
    let at = index_of_price(book, level.0@);
    if level.1@ == 0 {
        lemma_without(book, level.0@, price, qty);
        lemma_without(book, level.0@, level.0@, qty);
    } else if at < book.len() {
        assert(after[at].0@ == level.0@ && after[at].1@ == level.1@);
        assert forall|i: int| 0 <= i < book.len() && i != at implies after[i] == #[trigger] book[i]
            && book[i].0@ != level.0@ by {
            if i < at {
                assert(book[i].0@ != book[at].0@);
            } else {
                assert(book[at].0@ != book[i].0@);
            }
        }
        if holds(book, price, qty) && price != level.0@ {
            let i = choose|i: int|
                0 <= i < book.len() && (#[trigger] book[i]).0@ == price && book[i].1@ == qty;
            assert(after[i].0@ == price);
        }
        if holds(after, price, qty) && price != level.0@ {
            let i = choose|i: int|
                0 <= i < after.len() && (#[trigger] after[i]).0@ == price && after[i].1@ == qty;
            assert(book[i].0@ == price);
        }
    } else {
        assert(after[book.len() as int] == level);
        if holds(book, price, qty) {
            let i = choose|i: int|
                0 <= i < book.len() && (#[trigger] book[i]).0@ == price && book[i].1@ == qty;
            assert(after[i].0@ == price);
        }
        if holds(after, price, qty) && price != level.0@ {
            let i = choose|i: int|
                0 <= i < after.len() && (#[trigger] after[i]).0@ == price && after[i].1@ == qty;
            assert(book[i].0@ == price);
        }
        if holds(after, level.0@, qty) {
            let i = choose|i: int|
                0 <= i < after.len() && (#[trigger] after[i]).0@ == level.0@ && after[i].1@ == qty;
            if i < book.len() {
                assert(book[i].0@ == level.0@);
            }
        }
    }
}

/// The first level of a price is found where there is one.
proof fn lemma_found_price(book: Seq<Level>, price: int)
    ensures
        0 <= index_of_price(book, price) <= book.len(),
        index_of_price(book, price) < book.len() ==> book[index_of_price(book, price)].0@ == price,
        index_of_price(book, price) == book.len() ==> forall|i: int|
            0 <= i < book.len() ==> (#[trigger] book[i]).0@ != price,
    decreases book.len(),
{
    if book.len() > 0 && book[0].0@ != price {
        let rest = book.skip(1);
        lemma_found_price(rest, price);
        let k = index_of_price(rest, price);
        if k < rest.len() {
            assert(rest[k] == book[k + 1]);
        } else {
            assert forall|i: int| 0 <= i < book.len() implies (#[trigger] book[i]).0@ != price by {
                if i > 0 {
                    assert(rest[i - 1] == book[i]);
                }
            }
        }
    }
}

/// Taking a price away leaves the other prices, and no level of it.
proof fn lemma_without(book: Seq<Level>, gone: int, price: int, qty: int)
    ensures
        holds(without_price(book, gone), price, qty) <==> holds(book, price, qty) && price != gone,
    decreases book.len(),
{
    if book.len() > 0 {
        let head = book.drop_last();
        lemma_without(head, gone, price, qty);
        let h = without_price(head, gone);
        let s = without_price(book, gone);
        if holds(head, price, qty) {
            let i = choose|i: int|
                0 <= i < head.len() && (#[trigger] head[i]).0@ == price && head[i].1@ == qty;
            assert(book[i] == head[i]);
        }
        if holds(book, price, qty) {
            let i = choose|i: int|
                0 <= i < book.len() && (#[trigger] book[i]).0@ == price && book[i].1@ == qty;
            if i < head.len() {
                assert(head[i] == book[i]);
            }
        }
        if holds(h, price, qty) {
            let i = choose|i: int|
                0 <= i < h.len() && (#[trigger] h[i]).0@ == price && h[i].1@ == qty;
            assert(s[i] == h[i]);
        }
        if holds(s, price, qty) {
            let i = choose|i: int|
                0 <= i < s.len() && (#[trigger] s[i]).0@ == price && s[i].1@ == qty;
            if i < h.len() {
                assert(h[i] == s[i]);
            }
        }
        if s.len() > h.len() {
            assert(s[s.len() - 1] == book[book.len() - 1]);
        } else {
            assert(book[book.len() - 1].0@ == gone);
        }
    }
}

} // verus!
