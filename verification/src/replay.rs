//! Sliding replay filter over packet numbers.

use vstd::prelude::*;

use crate::error::ReplayError;

verus! {

/// Sliding replay filter accepting unseen out-of-order packet numbers.
#[derive(Clone, Debug)]
pub struct ReplayWindow {
    width: usize,
    highest: Option<u64>,
    words: Vec<u64>,
}

/// What a replay window remembers: the highest accepted number, and the accepted
/// numbers fewer than `width` below it.
#[verifier::ext_equal]
pub struct ReplayModel {
    pub width: nat,
    pub highest: Option<u64>,
    pub seen: Set<u64>,
}

/// A window that has accepted nothing.
pub open spec fn fresh_window(width: nat) -> ReplayModel {
    ReplayModel { width, highest: None, seen: Set::empty() }
}

/// Whether a window takes a packet number.
pub open spec fn admission(window: ReplayModel, number: u64) -> Result<(), ReplayError> {
    match window.highest {
        None => Ok(()),
        Some(highest) => if number > highest {
            Ok(())
        } else if highest - number >= window.width {
            Err(ReplayError::TooOld)
        } else if window.seen.contains(number) {
            Err(ReplayError::Duplicate)
        } else {
            Ok(())
        },
    }
}

/// The window after a packet number was presented. Refused numbers leave it as it
/// was; a new highest number moves it and drops what falls out at its end.
pub open spec fn presented(window: ReplayModel, number: u64) -> ReplayModel {
    if admission(window, number) is Err {
        window
    } else {
        let highest = match window.highest {
            Some(highest) if highest > number => highest,
            _ => number,
        };
        ReplayModel {
            width: window.width,
            highest: Some(highest),
            seen: Set::new(
                |n: u64| (window.seen.contains(n) && highest - n < window.width) || n == number,
            ),
        }
    }
}

/// What holds of every window: all remembered numbers lie in it.
pub open spec fn window_valid(window: ReplayModel) -> bool {
    &&& window.width > 0
    &&& window.highest is None ==> window.seen =~= Set::empty()
    &&& forall|n: u64| #[trigger]
        window.seen.contains(n) ==> n <= window.highest->Some_0 && window.highest->Some_0 - n
            < window.width
}

/// A window stays valid.
pub proof fn law_window_stays_valid(window: ReplayModel, number: u64)
    requires
        window_valid(window),
    ensures
        window_valid(presented(window, number)),
{
}

/// No number is accepted twice: once accepted it is refused at once, and it stays
/// refused whatever other numbers are presented in between.
pub proof fn law_no_number_is_accepted_twice(
    window: ReplayModel,
    number: u64,
    between: Seq<u64>,
)
    requires
        window_valid(window),
        admission(window, number) is Ok,
    ensures
        admission(presented_all(presented(window, number), between), number) is Err,
    decreases between.len(),
{
    let start = presented(window, number);
    law_window_stays_valid(window, number);
    lemma_spent_stays_spent(start, number, between);
}

/// The window after several packet numbers were presented in turn.
pub open spec fn presented_all(window: ReplayModel, numbers: Seq<u64>) -> ReplayModel
    decreases numbers.len(),
{
    if numbers.len() == 0 {
        window
    } else {
        presented(presented_all(window, numbers.drop_last()), numbers.last())
    }
}

/// Whether a number can never be accepted any more.
spec fn spent(window: ReplayModel, number: u64) -> bool {
    &&& window.highest is Some
    &&& number <= window.highest->Some_0
    &&& window.seen.contains(number) || window.highest->Some_0 - number >= window.width
}

proof fn lemma_spent_stays_spent(window: ReplayModel, number: u64, numbers: Seq<u64>)
    requires
        window_valid(window),
        spent(window, number),
    ensures
        spent(presented_all(window, numbers), number),
        window_valid(presented_all(window, numbers)),
    decreases numbers.len(),
{
    if numbers.len() > 0 {
        lemma_spent_stays_spent(window, number, numbers.drop_last());
    }
}

/// A number that is new, or that lies in the window and was not seen, is accepted;
/// one that lies below the window never is.
pub proof fn law_window_admits_what_is_unseen(window: ReplayModel, number: u64)
    requires
        window_valid(window),
        window.highest is Some,
    ensures
        admission(window, number) is Ok <==> (number > window.highest->Some_0 || (
        window.highest->Some_0 - number < window.width && !window.seen.contains(number))),
        number <= window.highest->Some_0 && window.highest->Some_0 - number >= window.width
            ==> admission(window, number) == Err::<(), ReplayError>(ReplayError::TooOld),
{
}

/// A window knows its history: after any numbers were presented in any order, a number is
/// accepted exactly where it was not presented before and none of those is ahead of it
/// by the width of the window or more. One that is too far behind is too old; any other
/// that was presented before is a duplicate.
pub proof fn law_window_knows_its_history(width: nat, numbers: Seq<u64>, number: u64)
    requires
        width > 0,
    ensures
        ({
            let verdict = admission(presented_all(fresh_window(width), numbers), number);
            let behind = exists|i: int|
                0 <= i < numbers.len() && (#[trigger] numbers[i]) - number >= width;
            verdict == if behind {
                Err::<(), ReplayError>(ReplayError::TooOld)
            } else if numbers.contains(number) {
                Err(ReplayError::Duplicate)
            } else {
                Ok(())
            }
        }),
{
    lemma_history(width, numbers);
    let window = presented_all(fresh_window(width), numbers);
    if numbers.len() > 0 {
        let highest = window.highest->Some_0;
        if numbers.contains(number) {
            let i = choose|i: int| 0 <= i < numbers.len() && numbers[i] == number;
            assert(numbers[i] <= highest);
        }
        let top = choose|i: int| 0 <= i < numbers.len() && numbers[i] == highest;
        if highest - number >= width {
            assert(numbers[top] - number >= width);
        }
    }
}

proof fn lemma_history(width: nat, numbers: Seq<u64>)
    requires
        width > 0,
    ensures
        ({
            let window = presented_all(fresh_window(width), numbers);
            &&& window.width == width
            &&& window.highest is Some == (numbers.len() > 0)
            &&& window.highest matches Some(highest) ==> numbers.contains(highest) && forall|
                i: int,
            |
                0 <= i < numbers.len() ==> (#[trigger] numbers[i]) <= highest
            &&& forall|n: u64| #[trigger]
                window.seen.contains(n) <==> numbers.contains(n) && window.highest->Some_0 - n
                    < width
        }),
    decreases numbers.len(),
{
    if numbers.len() > 0 {
        let earlier = numbers.drop_last();
        let last = numbers.last();
        lemma_history(width, earlier);
        let before = presented_all(fresh_window(width), earlier);
        let window = presented_all(fresh_window(width), numbers);
        assert(numbers =~= earlier.push(last));
        assert forall|n: u64| numbers.contains(n) == (earlier.contains(n) || n == last) by {
            if earlier.contains(n) {
                let i = choose|i: int| 0 <= i < earlier.len() && earlier[i] == n;
                assert(numbers[i] == n);
            }
            if n == last {
                assert(numbers[numbers.len() - 1] == n);
            }
            if numbers.contains(n) && n != last {
                let i = choose|i: int| 0 <= i < numbers.len() && numbers[i] == n;
                assert(earlier[i] == n);
            }
        }
        let highest = window.highest->Some_0;
        assert(numbers.contains(highest));
        assert forall|i: int| 0 <= i < numbers.len() implies (#[trigger] numbers[i])
            <= highest by {
            if i < earlier.len() {
                assert(earlier[i] == numbers[i]);
            }
        }
        assert forall|n: u64| #[trigger]
            window.seen.contains(n) <==> numbers.contains(n) && highest - n < width by {
            if earlier.len() > 0 && earlier.contains(n) {
                let i = choose|i: int| 0 <= i < earlier.len() && earlier[i] == n;
                assert(earlier[i] <= before.highest->Some_0);
            }
        }
    } else {
        assert(!numbers.contains(0));
        assert forall|n: u64| !numbers.contains(n) by {}
    }
}

/// Whether bit `index` of the words is set.
spec fn bit(words: Seq<u64>, index: int) -> bool {
    words[index / 64] & (1u64 << ((index % 64) as u64)) != 0
}

proof fn lemma_set_bit(word: u64, at: u64, other: u64)
    requires
        at < 64,
        other < 64,
    ensures
        ((word | (1u64 << at)) & (1u64 << other) != 0) == (at == other || word & (1u64 << other)
            != 0),
        ((word & !(1u64 << at)) & (1u64 << other) != 0) == (at != other && word & (1u64 << other)
            != 0),
{
    assert(((word | (1u64 << at)) & (1u64 << other) != 0) == (at == other || word & (1u64 << other)
        != 0)) by (bit_vector)
        requires
            at < 64,
            other < 64,
    ;
    assert(((word & !(1u64 << at)) & (1u64 << other) != 0) == (at != other && word & (1u64
        << other) != 0)) by (bit_vector)
        requires
            at < 64,
            other < 64,
    ;
}

/// Writing one bit leaves the others alone.
proof fn lemma_written_bit(before: Seq<u64>, after: Seq<u64>, at: int, value: bool)
    requires
        0 <= at / 64 < before.len(),
        0 <= at,
        after == before.update(
            at / 64,
            if value {
                before[at / 64] | (1u64 << ((at % 64) as u64))
            } else {
                before[at / 64] & !(1u64 << ((at % 64) as u64))
            },
        ),
    ensures
        bit(after, at) == value,
        forall|i: int| 0 <= i && i != at && i / 64 < before.len() ==> #[trigger] bit(after, i)
            == bit(before, i),
{
    lemma_set_bit(before[at / 64], (at % 64) as u64, (at % 64) as u64);
    assert forall|i: int| 0 <= i && i != at && i / 64 < before.len() implies #[trigger] bit(
        after,
        i,
    ) == bit(before, i) by {
        if i / 64 == at / 64 {
            lemma_set_bit(before[at / 64], (at % 64) as u64, (i % 64) as u64);
            assert(i % 64 != at % 64);
        }
    }
}

impl View for ReplayWindow {
    type V = ReplayModel;

    closed spec fn view(&self) -> ReplayModel {
        if self.sound() {
            ReplayModel {
                width: self.width as nat,
                highest: self.highest,
                seen: Set::new(
                    |n: u64|
                        self.highest is Some && n <= self.highest->Some_0 && self.highest->Some_0
                            - n < self.width && bit(self.words@, self.highest->Some_0 - n),
                ),
            }
        } else {
            fresh_window(0)
        }
    }
}

impl ReplayWindow {
    /// The words cover the window. A window for which this does not hold stands
    /// for one of no width.
    spec fn sound(&self) -> bool {
        &&& self.width > 0
        &&& self.words@.len() == (self.width + 63) / 64
        &&& self.highest is None ==> forall|i: int|
            0 <= i < self.width ==> !#[trigger] bit(self.words@, i)
    }

    /// The model of a window of some width is valid.
    pub proof fn model_is_valid(&self)
        requires
            self@.width > 0,
        ensures
            window_valid(self@),
    {
    }

    pub fn new(width: usize) -> (r: Self)
        requires
            width > 0,
        ensures
            r@ == fresh_window(width as nat),
    {
        let count: usize = if width % 64 == 0 {
            width / 64
        } else {
            width / 64 + 1
        };
        let mut words: Vec<u64> = Vec::new();
        words.resize(count, 0);
        let r = ReplayWindow { width, highest: None, words };
        assert(r@.seen =~= Set::empty());
        assert forall|i: int| 0 <= i < width implies !#[trigger] bit(r.words@, i) by {
            let mask = 1u64 << ((i % 64) as u64);
            assert(0u64 & mask == 0) by (bit_vector);
        }
        r
    }

    pub fn width(&self) -> (r: usize)
        requires
            self@.width > 0,
        ensures
            r == self@.width,
    {
        self.width
    }

    pub fn highest(&self) -> (r: Option<u64>)
        requires
            self@.width > 0,
        ensures
            r == self@.highest,
    {
        self.highest
    }

    /// Checks and records a packet number atomically from the caller's point of
    /// view. Authentication must succeed before this method is called.
    pub fn accept(&mut self, packet_number: u64) -> (r: Result<(), ReplayError>)
        requires
            old(self)@.width > 0,
        ensures
            r == admission(old(self)@, packet_number),
            final(self)@ == presented(old(self)@, packet_number),
    {
        let highest: u64 = match self.highest {
            Some(highest) => highest,
            None => {
                self.highest = Some(packet_number);
                self.set(0);
                assert(self@ =~= presented(old(self)@, packet_number));
                return Ok(());
            },
        };
        if packet_number > highest {
            let gap: u64 = packet_number - highest;
            let shift: usize = if gap > usize::MAX as u64 {
                usize::MAX
            } else {
                gap as usize
            };
            self.shift_left(shift);
            self.highest = Some(packet_number);
            self.set(0);
            assert(self@ =~= presented(old(self)@, packet_number));
            return Ok(());
        }
        let gap: u64 = highest - packet_number;
        if gap >= self.width as u64 {
            return Err(ReplayError::TooOld);
        }
        let distance: usize = gap as usize;
        if self.get(distance) {
            return Err(ReplayError::Duplicate);
        }
        self.set(distance);
        assert(self@ =~= presented(old(self)@, packet_number));
        Ok(())
    }

    fn get(&self, index: usize) -> (r: bool)
        requires
            self.sound(),
            index < self.width,
        ensures
            r == bit(self.words@, index as int),
    {
        (self.words[index / 64] & (1u64 << ((index % 64) as u64))) != 0
    }

    fn set(&mut self, index: usize)
        requires
            old(self).sound(),
            old(self).highest is Some,
            index < old(self).width,
        ensures
            final(self).sound(),
            final(self).width == old(self).width,
            final(self).highest == old(self).highest,
            bit(final(self).words@, index as int),
            forall|i: int|
                0 <= i < final(self).width && i != index ==> #[trigger] bit(final(self).words@, i)
                    == bit(old(self).words@, i),
    {
        let word: u64 = self.words[index / 64] | (1u64 << ((index % 64) as u64));
        self.words[index / 64] = word;
        proof {
            lemma_written_bit(old(self).words@, self.words@, index as int, true);
        }
    }

    fn clear(&mut self, index: usize)
        requires
            old(self).sound(),
            index < old(self).width,
        ensures
            final(self).sound(),
            final(self).width == old(self).width,
            final(self).highest == old(self).highest,
            !bit(final(self).words@, index as int),
            forall|i: int|
                0 <= i < final(self).width && i != index ==> #[trigger] bit(final(self).words@, i)
                    == bit(old(self).words@, i),
    {
        let word: u64 = self.words[index / 64] & !(1u64 << ((index % 64) as u64));
        self.words[index / 64] = word;
        proof {
            lemma_written_bit(old(self).words@, self.words@, index as int, false);
        }
    }

    fn clear_all(&mut self)
        requires
            old(self).sound(),
            old(self).highest is Some,
        ensures
            final(self).sound(),
            final(self).width == old(self).width,
            final(self).highest == old(self).highest,
            forall|i: int| 0 <= i < final(self).width ==> !#[trigger] bit(final(self).words@, i),
    {
        let mut i: usize = 0;
        while i < self.words.len()
            invariant
                self.sound(),
                i <= self.words@.len(),
                self.width == old(self).width,
                self.highest == old(self).highest,
                self.highest is Some,
                forall|j: int| 0 <= j < i ==> self.words@[j] == 0,
            decreases self.words.len() - i,
        {
            self.words[i] = 0;
            i += 1;
        }
        assert forall|k: int| 0 <= k < self.width implies !#[trigger] bit(self.words@, k) by {
            let mask = 1u64 << ((k % 64) as u64);
            assert(0u64 & mask == 0) by (bit_vector);
        }
    }

    /// Moves every bit up by `amount` places; bits that leave the window are lost.
    fn shift_left(&mut self, amount: usize)
        requires
            old(self).sound(),
            old(self).highest is Some,
        ensures
            final(self).sound(),
            final(self).width == old(self).width,
            final(self).highest == old(self).highest,
            forall|i: int|
                0 <= i < final(self).width ==> #[trigger] bit(final(self).words@, i) == (i >= amount
                    && bit(old(self).words@, i - amount)),
    {
        if amount >= self.width {
            self.clear_all();
            return;
        }
        let ghost start = self.words@;
        let mut index: usize = self.width;
        while index > amount
            invariant
                self.sound(),
                self.width == old(self).width,
                self.highest == old(self).highest,
                self.highest is Some,
                start == old(self).words@,
                amount <= index <= self.width,
                forall|i: int|
                    index <= i < self.width ==> #[trigger] bit(self.words@, i) == bit(
                        start,
                        i - amount,
                    ),
                forall|i: int|
                    0 <= i < index && i < self.width ==> #[trigger] bit(self.words@, i) == bit(
                        start,
                        i,
                    ),
            decreases index,
        {
            index -= 1;
            let value: bool = self.get(index - amount);
            if value {
                self.set(index);
            } else {
                self.clear(index);
            }
        }
        let mut low: usize = 0;
        while low < amount
            invariant
                self.sound(),
                self.width == old(self).width,
                self.highest == old(self).highest,
                self.highest is Some,
                start == old(self).words@,
                low <= amount < self.width,
                forall|i: int|
                    amount <= i < self.width ==> #[trigger] bit(self.words@, i) == bit(
                        start,
                        i - amount,
                    ),
                forall|i: int| 0 <= i < low ==> !#[trigger] bit(self.words@, i),
            decreases amount - low,
        {
            self.clear(low);
            low += 1;
        }
        self.clear_unused_tail();
    }

    /// Clears the bits of the last word that lie beyond the window.
    fn clear_unused_tail(&mut self)
        requires
            old(self).sound(),
        ensures
            final(self).sound(),
            final(self).width == old(self).width,
            final(self).highest == old(self).highest,
            forall|i: int|
                0 <= i < 64 * final(self).words@.len() ==> #[trigger] bit(final(self).words@, i)
                    == (i < final(self).width && bit(old(self).words@, i)),
    {
        let used_bits: u64 = (self.width % 64) as u64;
        if used_bits != 0 {
            assert(1u64 << used_bits >= 1) by (bit_vector)
                requires
                    used_bits < 64,
            ;
            let mask: u64 = (1u64 << used_bits) - 1;
            let last: usize = self.words.len() - 1;
            let word: u64 = self.words[last];
            self.words[last] = word & mask;
            assert forall|i: int| 0 <= i < 64 * self.words@.len() implies #[trigger] bit(
                self.words@,
                i,
            ) == (i < self.width && bit(old(self).words@, i)) by {
                if i / 64 == last {
                    let at = (i % 64) as u64;
                    assert((at < used_bits) == (i < self.width));
                    assert((word & mask) & (1u64 << at) == if at < used_bits {
                        word & (1u64 << at)
                    } else {
                        0
                    }) by (bit_vector)
                        requires
                            at < 64,
                            used_bits < 64,
                            mask == (1u64 << used_bits) - 1,
                    ;
                }
            }
        }
    }
}

} // verus!
