//! Price histories: for each token the most recent prices, oldest first.

use std::collections::VecDeque;
use vstd::hash_map::StringHashMap;
use vstd::prelude::*;

verus! {

/// The most prices that are kept for one token.
pub const MAX_HISTORY: usize = 200;

/// A history after one more price: the price goes to the end, and the oldest
/// one leaves where that makes the history longer than `MAX_HISTORY`.
pub open spec fn appended(history: Seq<i64>, price: i64) -> Seq<i64> {
    let longer = history.push(price);
    if longer.len() > MAX_HISTORY {
        longer.drop_first()
    } else {
        longer
    }
}

/// The history of a token in a set of histories, empty before its first price.
pub open spec fn history_of(histories: Map<Seq<char>, Seq<i64>>, token: Seq<char>) -> Seq<i64> {
    if histories.contains_key(token) {
        histories[token]
    } else {
        Seq::<i64>::empty()
    }
}

/// The histories after one more price of `token`: its history has the price
/// appended, and begins with it where the token is new; all others stay.
pub open spec fn recorded(
    histories: Map<Seq<char>, Seq<i64>>,
    token: Seq<char>,
    price: i64,
) -> Map<Seq<char>, Seq<i64>> {
    histories.insert(token, appended(history_of(histories, token), price))
}

/// The prices of one token, oldest first, never more than `MAX_HISTORY`.
pub struct PriceSeries {
    samples: VecDeque<i64>,
}

impl View for PriceSeries {
    type V = Seq<i64>;

    closed spec fn view(&self) -> Seq<i64> {
        self.samples@
    }
}

impl PriceSeries {
    #[verifier::type_invariant]
    spec fn bounded(self) -> bool {
        self.samples@.len() <= MAX_HISTORY
    }

    /// A series without prices.
    pub fn new() -> (series: Self)
        ensures
            series@ == Seq::<i64>::empty(),
    {
        PriceSeries { samples: VecDeque::new() }
    }

    /// How many prices the series holds.
    pub fn len(&self) -> (n: usize)
        ensures
            n == self@.len(),
            n <= MAX_HISTORY,
    {
        proof {
            use_type_invariant(self);
        }
        self.samples.len()
    }

    /// The price at `index`, counted from the oldest.
    pub fn get(&self, index: usize) -> (price: i64)
        requires
            index < self@.len(),
        ensures
            price == self@[index as int],
    {
        self.samples[index]
    }

    /// Appends a price; the oldest one leaves a series that is full.
    pub fn push(&mut self, price: i64)
        ensures
            final(self)@ == appended(old(self)@, price),
            1 <= final(self)@.len() <= MAX_HISTORY,
    {
        proof {
            use_type_invariant(&*self);
        }
        // The prices are taken out while they are changed, so that the
        // series itself is never seen out of bounds.
        let mut samples: VecDeque<i64> = VecDeque::new();
        std::mem::swap(&mut self.samples, &mut samples);
        if samples.len() >= MAX_HISTORY {
            samples.pop_front();
        }
        samples.push_back(price);
        assert(samples@ =~= appended(old(self)@, price));
        self.samples = samples;
    }

    /// The prices, oldest first.
    pub fn to_vec(&self) -> (prices: Vec<i64>)
        ensures
            prices@ == self@,
    {
        let mut prices: Vec<i64> = Vec::new();
        let n = self.samples.len();
        let mut i: usize = 0;
        while i < n
            invariant
                n == self.samples@.len(),
                i <= n,
                prices@ == self.samples@.take(i as int),
            decreases n - i,
        {
            prices.push(self.samples[i]);
            i += 1;
        }
        prices
    }
}

/// Appending keeps a history within `MAX_HISTORY`; to a full one it evicts
/// exactly the oldest price, and the length stays `MAX_HISTORY`.
pub proof fn lemma_appended_bounded(history: Seq<i64>, price: i64)
    requires
        history.len() <= MAX_HISTORY,
    ensures
        1 <= appended(history, price).len() <= MAX_HISTORY,
        appended(history, price).last() == price,
        history.len() < MAX_HISTORY ==> appended(history, price) == history.push(price),
        history.len() == MAX_HISTORY ==> {
            &&& appended(history, price).len() == MAX_HISTORY
            &&& appended(history, price) == history.drop_first().push(price)
        },
{
    if history.len() == MAX_HISTORY {
        assert(history.push(price).drop_first() =~= history.drop_first().push(price));
    }
}

/// The histories of all tokens seen so far. A token has one history, from
/// its first price on, and keeps it.
pub struct HistoryStore {
    /// For each token the slot that holds its history.
    index: StringHashMap<usize>,
    /// The histories, in the order in which their tokens were first seen.
    slots: Vec<PriceSeries>,
}

impl View for HistoryStore {
    type V = Map<Seq<char>, Seq<i64>>;

    closed spec fn view(&self) -> Map<Seq<char>, Seq<i64>> {
        Map::new(
            |token: Seq<char>| self.index@.contains_key(token),
            |token: Seq<char>| self.slots@[self.index@[token] as int]@,
        )
    }
}

impl HistoryStore {
    /// Every token has a slot of its own, and no slot is empty.
    #[verifier::type_invariant]
    spec fn consistent(self) -> bool {
        &&& forall|token: Seq<char>| #[trigger]
            self.index@.contains_key(token) ==> self.index@[token] < self.slots@.len()
        &&& forall|t1: Seq<char>, t2: Seq<char>|
            #![trigger self.index@[t1], self.index@[t2]]
            self.index@.contains_key(t1) && self.index@.contains_key(t2) && self.index@[t1]
                == self.index@[t2] ==> t1 == t2
        &&& forall|i: int|
            0 <= i < self.slots@.len() ==> 1 <= (#[trigger] self.slots@[i])@.len() <= MAX_HISTORY
    }

    /// A store that has seen no token.
    pub fn new() -> (store: Self)
        ensures
            store@ == Map::<Seq<char>, Seq<i64>>::empty(),
    {
        let store = HistoryStore { index: StringHashMap::new(), slots: Vec::new() };
        assert(store@ =~= Map::<Seq<char>, Seq<i64>>::empty());
        store
    }

    /// How many tokens have a history.
    pub fn tokens(&self) -> (n: usize)
        ensures
            n == self@.dom().len(),
    {
        assert(self@.dom() =~= self.index@.dom());
        self.index.len()
    }

    /// The history of a token, `None` before its first price.
    pub fn history(&self, token: &str) -> (r: Option<&PriceSeries>)
        ensures
            match r {
                Some(series) => {
                    &&& self@.contains_key(token@)
                    &&& series@ == self@[token@]
                    &&& 1 <= series@.len() <= MAX_HISTORY
                },
                None => !self@.contains_key(token@),
            },
    {
        proof {
            use_type_invariant(self);
        }
        match self.index.get(token) {
            Some(slot) => Some(&self.slots[*slot]),
            None => None,
        }
    }

    /// Appends a price to the history of a token, which begins with it where
    /// the token is new. The histories of all other tokens stay as they are.
    pub fn append(&mut self, token: &str, price: i64)
        ensures
            final(self)@ == recorded(old(self)@, token@, price),
    {
        proof {
            use_type_invariant(&*self);
        }
        // Index and slots are taken out while they are changed, and put
        // back once they agree again.
        let mut index: StringHashMap<usize> = StringHashMap::new();
        let mut slots: Vec<PriceSeries> = Vec::new();
        std::mem::swap(&mut self.index, &mut index);
        std::mem::swap(&mut self.slots, &mut slots);
        let found = match index.get(token) {
            Some(slot) => Some(*slot),
            None => None,
        };
        match found {
            Some(slot) => {
                proof {
                    lemma_appended_bounded(slots@[slot as int]@, price);
                }
                slots[slot].push(price);
            },
            None => {
                let mut series = PriceSeries::new();
                series.push(price);
                let slot = slots.len();
                slots.push(series);
                index.insert(token.to_owned(), slot);
            },
        }
        self.slots = slots;
        self.index = index;
        assert(self@ =~= recorded(old(self)@, token@, price));
    }
}

/// Histories that are not empty and within `MAX_HISTORY` stay so when a
/// price is recorded.
pub proof fn lemma_recorded_keeps_bound(
    histories: Map<Seq<char>, Seq<i64>>,
    token: Seq<char>,
    price: i64,
)
    requires
        forall|t: Seq<char>| #[trigger]
            histories.contains_key(t) ==> 1 <= histories[t].len() <= MAX_HISTORY,
    ensures
        forall|t: Seq<char>| #[trigger]
            recorded(histories, token, price).contains_key(t) ==> 1 <= recorded(
                histories,
                token,
                price,
            )[t].len() <= MAX_HISTORY,
{
    lemma_appended_bounded(history_of(histories, token), price);
}

/// Recording a price touches the history of its token alone.
pub proof fn lemma_recorded_keeps_others(
    histories: Map<Seq<char>, Seq<i64>>,
    token: Seq<char>,
    price: i64,
    other: Seq<char>,
)
    requires
        other != token,
    ensures
        recorded(histories, token, price).contains_key(other) == histories.contains_key(other),
        history_of(recorded(histories, token, price), other) == history_of(histories, other),
{
}

} // verus!
