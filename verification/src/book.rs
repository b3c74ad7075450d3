//! The levels of one side of an order book.
use vstd::prelude::*;

use crate::decimal::Decimal;

verus! {

/// Whether prices rise from each level to the next, so that none occurs twice.
pub open spec fn ascending(levels: Seq<(int, int)>) -> bool {
    forall|i: int, j: int|
        0 <= i < j < levels.len() ==> (#[trigger] levels[i]).0 < (#[trigger] levels[j]).0
}

/// The quantity at a price.
pub open spec fn quantity_at(levels: Seq<(int, int)>, price: int) -> Option<int>
    decreases levels.len(),
{
    if levels.len() == 0 {
        None
    } else if levels[0].0 == price {
        Some(levels[0].1)
    } else {
        quantity_at(levels.drop_first(), price)
    }
}

/// The levels after a quantity has been put at a price: in place of the one that
/// stood there, or before the first level with a higher price.
pub open spec fn with_level(levels: Seq<(int, int)>, price: int, quantity: int) -> Seq<(int, int)>
    decreases levels.len(),
{
    if levels.len() == 0 {
        seq![(price, quantity)]
    } else if levels[0].0 < price {
        seq![levels[0]] + with_level(levels.drop_first(), price, quantity)
    } else if levels[0].0 == price {
        levels.update(0, (price, quantity))
    } else {
        seq![(price, quantity)] + levels
    }
}

/// Levels of an order book, as price and quantity: in ascending order of price,
/// and no price twice.
#[derive(Debug)]
pub struct PriceLevels {
    levels: Vec<(Decimal, Decimal)>,
}

spec fn units(levels: Seq<(Decimal, Decimal)>) -> Seq<(int, int)> {
    levels.map_values(|level: (Decimal, Decimal)| (level.0@, level.1@))
}

impl View for PriceLevels {
    type V = Seq<(int, int)>;

    closed spec fn view(&self) -> Seq<(int, int)> {
        units(self.levels@)
    }
}

impl Clone for PriceLevels {
    fn clone(&self) -> (r: Self)
        ensures
            r@ == self@,
    {
        proof {
            use_type_invariant(self);
        }
        let mut levels: Vec<(Decimal, Decimal)> = Vec::new();
        let mut i: usize = 0;
        while i < self.levels.len()
            invariant
                i <= self.levels@.len(),
                levels@ == self.levels@.take(i as int),
            decreases self.levels.len() - i,
        {
            levels.push(self.levels[i]);
            i = i + 1;
            assert(levels@ =~= self.levels@.take(i as int));
        }
        assert(levels@ =~= self.levels@);
        PriceLevels { levels }
    }
}

impl PriceLevels {
    #[verifier::type_invariant]
    spec fn in_order(self) -> bool {
        ascending(self@)
    }

    /// No levels.
    pub fn new() -> (r: Self)
        ensures
            r@ == Seq::<(int, int)>::empty(),
    {
        let levels: Vec<(Decimal, Decimal)> = Vec::new();
        assert(units(levels@) =~= Seq::<(int, int)>::empty());
        PriceLevels { levels }
    }

    /// The number of levels.
    pub fn len(&self) -> (n: usize)
        ensures
            n == self@.len(),
    {
        self.levels.len()
    }

    /// The price and the quantity of a level, counted from the lowest price.
    pub fn level_at(&self, i: usize) -> (r: (Decimal, Decimal))
        requires
            i < self@.len(),
        ensures
            (r.0@, r.1@) == self@[i as int],
            ascending(self@),
    {
        proof {
            use_type_invariant(self);
        }
        self.levels[i]
    }

    /// The place of the first level whose price is not below a price.
    fn place_of(&self, price: Decimal) -> (r: usize)
        ensures
            r <= self@.len(),
            forall|i: int| 0 <= i < r ==> (#[trigger] self@[i]).0 < price@,
            r < self@.len() ==> self@[r as int].0 >= price@,
    {
        let mut i: usize = 0;
        while i < self.levels.len() && price.exceeds(self.levels[i].0)
            invariant
                i <= self.levels@.len(),
                self.levels@.len() == self@.len(),
                forall|j: int| 0 <= j < i ==> (#[trigger] self@[j]).0 < price@,
            decreases self.levels.len() - i,
        {
            i = i + 1;
        }
        i
    }

    /// The quantity at a price.
    pub fn get(&self, price: Decimal) -> (r: Option<Decimal>)
        ensures
            crate::decimal::value(r) == quantity_at(self@, price@),
    {
        proof {
            use_type_invariant(self);
        }
        let place: usize = self.place_of(price);
        proof {
            lemma_quantity(self@, price@, place as int);
        }
        if place < self.levels.len() && !self.levels[place].0.exceeds(price) {
            Some(self.levels[place].1)
        } else {
            None
        }
    }

    /// Puts a quantity at a price.
    pub fn insert(&mut self, price: Decimal, quantity: Decimal)
        ensures
            final(self)@ == with_level(old(self)@, price@, quantity@),
            ascending(final(self)@),
    {
        proof {
            use_type_invariant(&*self);
        }
        let ghost before = self@;
        let place: usize = self.place_of(price);
        proof {
            lemma_with_level(before, price@, quantity@, place as int);
        }
        let mut levels: Vec<(Decimal, Decimal)> = Vec::new();
        assert(units(levels@) =~= Seq::<(int, int)>::empty());
        std::mem::swap(&mut levels, &mut self.levels);
        let ghost old_levels = levels@;
        if place < levels.len() && !levels[place].0.exceeds(price) {
            let key: Decimal = levels[place].0;
            levels.set(place, (key, quantity));
            assert(units(levels@) =~= before.update(place as int, (price@, quantity@)));
        } else {
            levels.insert(place, (price, quantity));
            assert(units(levels@) =~= before.insert(place as int, (price@, quantity@)));
        }
        self.levels = levels;
    }
}

impl Default for PriceLevels {
    fn default() -> (r: Self)
        ensures
            r@ == Seq::<(int, int)>::empty(),
    {
        PriceLevels::new()
    }
}

proof fn lemma_quantity(levels: Seq<(int, int)>, price: int, place: int)
    requires
        ascending(levels),
        0 <= place <= levels.len(),
        forall|i: int| 0 <= i < place ==> (#[trigger] levels[i]).0 < price,
        place < levels.len() ==> levels[place].0 >= price,
    ensures
        quantity_at(levels, price) == (if place < levels.len() && levels[place].0 == price {
            Some(levels[place].1)
        } else {
            None
        }),
    decreases levels.len(),
{
    if levels.len() > 0 {
        let rest = levels.drop_first();
        assert(ascending(rest)) by {
            assert forall|i: int, j: int| 0 <= i < j < rest.len() implies (
            #[trigger] rest[i]).0 < (#[trigger] rest[j]).0 by {
                assert(levels[i + 1].0 < levels[j + 1].0);
            }
        }
        if place > 0 {
            assert forall|i: int| 0 <= i < place - 1 implies (#[trigger] rest[i]).0 < price by {
                assert(rest[i] == levels[i + 1]);
            }
            assert(levels[0].0 < price);
            lemma_quantity(rest, price, place - 1);
        } else if levels[0].0 > price {
            if rest.len() > 0 {
                assert(levels[0].0 < levels[1].0);
            }
            lemma_quantity(rest, price, 0);
        }
    }
}

proof fn lemma_with_level(levels: Seq<(int, int)>, price: int, quantity: int, place: int)
    requires
        ascending(levels),
        0 <= place <= levels.len(),
        forall|i: int| 0 <= i < place ==> (#[trigger] levels[i]).0 < price,
        place < levels.len() ==> levels[place].0 >= price,
    ensures
        with_level(levels, price, quantity) == (if place < levels.len() && levels[place].0
            == price {
            levels.update(place, (price, quantity))
        } else {
            levels.insert(place, (price, quantity))
        }),
        ascending(with_level(levels, price, quantity)),
    decreases levels.len(),
{
    let after = with_level(levels, price, quantity);
    if levels.len() == 0 {
        assert(after =~= levels.insert(0, (price, quantity)));
    } else if place > 0 {
        let rest = levels.drop_first();
        assert forall|i: int, j: int| 0 <= i < j < rest.len() implies (#[trigger] rest[i]).0 < (
        #[trigger] rest[j]).0 by {
            assert(levels[i + 1].0 < levels[j + 1].0);
        }
        assert forall|i: int| 0 <= i < place - 1 implies (#[trigger] rest[i]).0 < price by {
            assert(rest[i] == levels[i + 1]);
        }
        assert(levels[0].0 < price);
        lemma_with_level(rest, price, quantity, place - 1);
        if place < levels.len() && levels[place].0 == price {
            assert(after =~= levels.update(place, (price, quantity)));
        } else {
            assert(after =~= levels.insert(place, (price, quantity)));
        }
    } else if levels[0].0 > price {
        assert(after =~= levels.insert(0, (price, quantity)));
    }
    assert forall|i: int, j: int| 0 <= i < j < after.len() implies (#[trigger] after[i]).0 < (
    #[trigger] after[j]).0 by {
        if place < levels.len() && levels[place].0 == price {
            assert(levels[i].0 < levels[j].0);
        } else {
            if j < place {
                assert(levels[i].0 < levels[j].0);
            } else if i < place && place < j {
                assert(levels[i].0 < levels[j - 1].0);
            } else if i > place {
                assert(levels[i - 1].0 < levels[j - 1].0);
            } else if i == place {
                if place < j - 1 {
                    assert(levels[place].0 < levels[j - 1].0);
                }
            }
        }
    }
}

/// A read after a write gives the quantity that was written at that price, and at
/// every other price the quantity that stood there before.
pub proof fn law_quantity_after_insert(
    levels: Seq<(int, int)>,
    price: int,
    quantity: int,
    other: int,
)
    requires
        ascending(levels),
    ensures
        quantity_at(with_level(levels, price, quantity), other) == (if other == price {
            Some(quantity)
        } else {
            quantity_at(levels, other)
        }),
    decreases levels.len(),
{
    reveal_with_fuel(quantity_at, 2);
    let after = with_level(levels, price, quantity);
    if levels.len() == 0 {
        assert(after.drop_first() =~= Seq::<(int, int)>::empty());
    } else {
        let rest = levels.drop_first();
        assert forall|i: int, j: int| 0 <= i < j < rest.len() implies (#[trigger] rest[i]).0 < (
        #[trigger] rest[j]).0 by {
            assert(levels[i + 1].0 < levels[j + 1].0);
        }
        if levels[0].0 < price {
            assert(after.drop_first() =~= with_level(rest, price, quantity));
            law_quantity_after_insert(rest, price, quantity, other);
        } else if levels[0].0 == price {
            assert(after.drop_first() =~= rest);
        } else {
            assert(after.drop_first() =~= levels);
        }
    }
}

/// Every level is found by its price, and no quantity is found at a price that no
/// level has.
pub proof fn law_levels_are_found(levels: Seq<(int, int)>, i: int, price: int)
    requires
        ascending(levels),
    ensures
        0 <= i < levels.len() ==> quantity_at(levels, levels[i].0) == Some(levels[i].1),
        (forall|j: int| 0 <= j < levels.len() ==> (#[trigger] levels[j]).0 != price)
            ==> quantity_at(levels, price) is None,
    decreases levels.len(),
{
    if levels.len() > 0 {
        let rest = levels.drop_first();
        assert forall|a: int, b: int| 0 <= a < b < rest.len() implies (#[trigger] rest[a]).0 < (
        #[trigger] rest[b]).0 by {
            assert(levels[a + 1].0 < levels[b + 1].0);
        }
        law_levels_are_found(rest, i - 1, price);
        if 0 < i < levels.len() {
            assert(levels[0].0 < levels[i].0);
            assert(rest[i - 1] == levels[i]);
        }
        if forall|j: int| 0 <= j < levels.len() ==> (#[trigger] levels[j]).0 != price {
            assert(levels[0].0 != price);
            assert forall|j: int| 0 <= j < rest.len() implies (#[trigger] rest[j]).0 != price by {
                assert(rest[j] == levels[j + 1]);
            }
        }
    }
}

/// After a quantity has been put at a price the prices still rise, every level at
/// another price is still there, and there is no other level.
pub proof fn law_insert_keeps_levels(levels: Seq<(int, int)>, price: int, quantity: int, i: int)
    requires
        ascending(levels),
    ensures
        ascending(with_level(levels, price, quantity)),
        with_level(levels, price, quantity).contains((price, quantity)),
        0 <= i < levels.len() && levels[i].0 != price ==> with_level(
            levels,
            price,
            quantity,
        ).contains(levels[i]),
        0 <= i < with_level(levels, price, quantity).len() ==> with_level(
            levels,
            price,
            quantity,
        )[i] == (price, quantity) || levels.contains(with_level(levels, price, quantity)[i]),
    decreases levels.len(),
{
    let after = with_level(levels, price, quantity);
    let place = lemma_place(levels, price);
    lemma_with_level(levels, price, quantity, place);
    assert(after[place] == (price, quantity));
    if 0 <= i < levels.len() && levels[i].0 != price {
        if i < place || (place < levels.len() && levels[place].0 == price) {
            assert(after[i] == levels[i]);
        } else {
            assert(after[i + 1] == levels[i]);
        }
    }
    if 0 <= i < after.len() && after[i] != (price, quantity) {
        if i < place || (place < levels.len() && levels[place].0 == price) {
            assert(after[i] == levels[i]);
        } else {
            assert(after[i] == levels[i - 1]);
        }
    }
}

/// The place of the first level whose price is not below a price.
proof fn lemma_place(levels: Seq<(int, int)>, price: int) -> (place: int)
    requires
        ascending(levels),
    ensures
        0 <= place <= levels.len(),
        forall|i: int| 0 <= i < place ==> (#[trigger] levels[i]).0 < price,
        place < levels.len() ==> levels[place].0 >= price,
    decreases levels.len(),
{
    if levels.len() == 0 {
        0
    } else {
        let rest = levels.drop_last();
        assert forall|a: int, b: int| 0 <= a < b < rest.len() implies (#[trigger] rest[a]).0 < (
        #[trigger] rest[b]).0 by {
            assert(levels[a].0 < levels[b].0);
        }
        let place = lemma_place(rest, price);
        assert(forall|i: int| 0 <= i < rest.len() ==> #[trigger] rest[i] == levels[i]);
        assert forall|i: int| 0 <= i < place implies (#[trigger] levels[i]).0 < price by {
            assert(rest[i].0 < price);
        }
        if place == rest.len() && levels[levels.len() - 1].0 < price {
            levels.len() as int
        } else {
            place
        }
    }
}

} // verus!
