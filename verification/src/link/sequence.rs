//! Which sequence numbers are new.

use vstd::prelude::*;

verus! {

/// What a sequence number is to its receiver.
#[derive(Clone, Copy, Debug, PartialEq, Eq, Structural)]
pub enum InputSequenceDecision {
    New,
    Duplicate,
    Stale,
}

/// Bounded replay and duplicate detection for the transport sequence space.
/// Broadcast frames may arrive a few positions out of order, so unlike the
/// input state window this accepts the most recent 32 sequence numbers.
#[derive(Clone, Copy, Debug, PartialEq, Eq, Structural)]
pub struct ReplayWindow {
    highest: Option<u32>,
    seen: u32,
}

/// What a replay window knows: the highest number so far, and a bit for each
/// of the 32 numbers that end with it, the highest in the lowest bit.
pub struct ReplayView {
    pub highest: Option<u32>,
    pub seen: u32,
}

impl View for ReplayWindow {
    type V = ReplayView;

    closed spec fn view(&self) -> ReplayView {
        ReplayView { highest: self.highest, seen: self.seen }
    }
}

impl ReplayView {
    /// Whether the window remembers `sequence` as seen.
    pub open spec fn remembers(self, sequence: u32) -> bool {
        &&& self.highest is Some
        &&& self.highest->0.wrapping_sub(sequence) < 32
        &&& (self.seen >> self.highest->0.wrapping_sub(sequence)) & 1 == 1
    }

    /// What `sequence` is to the window.
    pub open spec fn decision(self, sequence: u32) -> InputSequenceDecision {
        if self.highest is None {
            InputSequenceDecision::New
        } else {
            let highest = self.highest->0;
            let forward = sequence.wrapping_sub(highest);
            let behind = highest.wrapping_sub(sequence);
            if forward == 0 {
                InputSequenceDecision::Duplicate
            } else if forward < 0x8000_0000 {
                InputSequenceDecision::New
            } else if behind >= 32 {
                InputSequenceDecision::Stale
            } else if self.remembers(sequence) {
                InputSequenceDecision::Duplicate
            } else {
                InputSequenceDecision::New
            }
        }
    }

    /// The window once `sequence` has come.
    pub open spec fn after(self, sequence: u32) -> ReplayView {
        if self.decision(sequence) != InputSequenceDecision::New {
            self
        } else if self.highest is None {
            ReplayView { highest: Some(sequence), seen: 1 }
        } else {
            let highest = self.highest->0;
            let forward = sequence.wrapping_sub(highest);
            let behind = highest.wrapping_sub(sequence);
            if forward < 0x8000_0000 {
                ReplayView {
                    highest: Some(sequence),
                    seen: if forward >= 32 {
                        1
                    } else {
                        (self.seen << forward) | 1
                    },
                }
            } else {
                ReplayView { highest: self.highest, seen: self.seen | (1u32 << behind) }
            }
        }
    }
}

impl ReplayWindow {
    /// A window that has seen nothing.
    pub fn new() -> (r: Self)
        ensures
            r@ == (ReplayView { highest: None, seen: 0 }),
    {
        Self { highest: None, seen: 0 }
    }

    /// Takes in a sequence number and says what it is.
    pub fn observe(&mut self, sequence: u32) -> (r: InputSequenceDecision)
        ensures
            r == old(self)@.decision(sequence),
            final(self)@ == old(self)@.after(sequence),
    {
        let highest: u32 = match self.highest {
            None => {
                self.highest = Some(sequence);
                self.seen = 1;
                return InputSequenceDecision::New;
            },
            Some(highest) => highest,
        };
        let forward: u32 = sequence.wrapping_sub(highest);
        if forward == 0 {
            return InputSequenceDecision::Duplicate;
        }
        if forward < 0x8000_0000 {
            self.highest = Some(sequence);
            self.seen = if forward >= 32 {
                1
            } else {
                (self.seen << forward) | 1
            };
            return InputSequenceDecision::New;
        }
        let behind: u32 = highest.wrapping_sub(sequence);
        if behind >= 32 {
            return InputSequenceDecision::Stale;
        }
        let mask: u32 = 1u32 << behind;
        proof {
            let seen = self.seen;
            assert(behind < 32 ==> ((seen & (1u32 << behind) != 0) <==> ((seen >> behind) & 1
                == 1))) by (bit_vector);
        }
        if self.seen & mask != 0 {
            InputSequenceDecision::Duplicate
        } else {
            self.seen = self.seen | mask;
            InputSequenceDecision::New
        }
    }

    /// Forgets all numbers.
    pub fn reset(&mut self)
        ensures
            final(self)@ == (ReplayView { highest: None, seen: 0 }),
    {
        self.highest = None;
        self.seen = 0;
    }
}

impl Default for ReplayWindow {
    fn default() -> (r: Self)
        ensures
            r@ == (ReplayView { highest: None, seen: 0 }),
    {
        Self::new()
    }
}

/// A number that was accepted is remembered.
pub proof fn law_accepted_is_remembered(w: ReplayView, sequence: u32)
    requires
        w.decision(sequence) == InputSequenceDecision::New,
    ensures
        w.after(sequence).remembers(sequence),
{
    if w.highest is Some {
        let seen = w.seen;
        let forward = sequence.wrapping_sub(w.highest->0);
        let behind = w.highest->0.wrapping_sub(sequence);
        assert(((seen << forward) | 1) >> 0u32 & 1 == 1) by (bit_vector);
        assert((1u32 >> 0u32) & 1 == 1) by (bit_vector);
        assert(behind < 32 ==> ((seen | (1u32 << behind)) >> behind) & 1 == 1) by (bit_vector);
    } else {
        assert((1u32 >> 0u32) & 1 == 1) by (bit_vector);
    }
}

/// A remembered number is not accepted again.
pub proof fn law_remembered_is_refused(w: ReplayView, sequence: u32)
    requires
        w.remembers(sequence),
    ensures
        w.decision(sequence) == InputSequenceDecision::Duplicate,
{
}

/// A remembered number stays remembered as long as the highest number is less
/// than 32 ahead of it. Further ahead than that, and less than half of the
/// number space, the number is stale. Either way it is not accepted again.
pub proof fn law_remembered_until_stale(w: ReplayView, sequence: u32, next: u32)
    requires
        w.remembers(sequence),
        w.after(next).highest->0.wrapping_sub(sequence) < 0x8000_0000,
    ensures
        w.after(next).remembers(sequence) || w.after(next).decision(sequence)
            == InputSequenceDecision::Stale,
        w.after(next).decision(sequence) != InputSequenceDecision::New,
{
    let seen = w.seen;
    let highest = w.highest->0;
    let forward = next.wrapping_sub(highest);
    let behind = highest.wrapping_sub(next);
    let back = highest.wrapping_sub(sequence);
    let later = w.after(next).highest->0.wrapping_sub(sequence);
    assert(forward < 32 && back < 32 && later < 32 && later == back + forward && (seen >> back) & 1
        == 1 ==> ((((seen << forward) | 1) >> later) & 1 == 1)) by (bit_vector);
    assert(back < 32 && behind < 32 && (seen >> back) & 1 == 1 ==> ((seen | (1u32 << behind))
        >> back) & 1 == 1) by (bit_vector);
}

/// Forward-only de-duplication for self-healing broadcast state frames.
///
/// A later snapshot supersedes every older one. Accepting a late frame after
/// newer state was applied could replay a released key or old cumulative
/// motion, so it is deliberately classified as stale.
#[derive(Clone, Copy, Debug, PartialEq, Eq, Structural)]
pub struct InputSequenceWindow {
    highest: Option<u32>,
}

/// What `sequence` is after `highest`.
pub open spec fn forward_decision(highest: Option<u32>, sequence: u32) -> InputSequenceDecision {
    if highest is None {
        InputSequenceDecision::New
    } else {
        let forward = sequence.wrapping_sub(highest->0);
        if forward == 0 {
            InputSequenceDecision::Duplicate
        } else if forward < 0x8000_0000 {
            InputSequenceDecision::New
        } else {
            InputSequenceDecision::Stale
        }
    }
}

impl InputSequenceWindow {
    /// The highest number so far.
    pub closed spec fn last(self) -> Option<u32> {
        self.highest
    }

    /// A window that has seen nothing.
    pub fn new() -> (r: Self)
        ensures
            r.last() is None,
    {
        Self { highest: None }
    }

    /// Takes in a sequence number and says what it is.
    pub fn observe_forward_only(&mut self, sequence: u32) -> (r: InputSequenceDecision)
        ensures
            r == forward_decision(old(self).last(), sequence),
            final(self).last() == if r == InputSequenceDecision::New {
                Some(sequence)
            } else {
                old(self).last()
            },
    {
        let highest: u32 = match self.highest {
            None => {
                self.highest = Some(sequence);
                return InputSequenceDecision::New;
            },
            Some(highest) => highest,
        };
        let forward: u32 = sequence.wrapping_sub(highest);
        if forward == 0 {
            InputSequenceDecision::Duplicate
        } else if forward < 0x8000_0000 {
            self.highest = Some(sequence);
            InputSequenceDecision::New
        } else {
            InputSequenceDecision::Stale
        }
    }

    /// Forgets the highest number.
    pub fn reset(&mut self)
        ensures
            final(self).last() is None,
    {
        self.highest = None;
    }
}

impl Default for InputSequenceWindow {
    fn default() -> (r: Self)
        ensures
            r.last() is None,
    {
        Self::new()
    }
}

/// A number that was accepted is not accepted again, and no more is one that
/// was passed by less than half of the number space.
pub proof fn law_state_is_not_reapplied(highest: u32, sequence: u32)
    requires
        highest.wrapping_sub(sequence) < 0x8000_0000,
    ensures
        forward_decision(Some(highest), sequence) != InputSequenceDecision::New,
{
}

/// Where a number stands on a line on which the highest number so far stands at
/// `base`: ahead of it by less than half of the number space, or else behind it.
pub open spec fn place(w: ReplayView, base: int, sequence: u32) -> int {
    if w.highest is None {
        0
    } else {
        let highest = w.highest->0;
        let forward = sequence.wrapping_sub(highest);
        if forward < 0x8000_0000 {
            base + forward
        } else {
            base - highest.wrapping_sub(sequence)
        }
    }
}

/// What a run of observations leads to.
pub struct Trail {
    /// The window.
    pub window: ReplayView,
    /// Where the highest number stands, from the first one on.
    pub base: int,
    /// Where each of the numbers stood when it came.
    pub places: Seq<int>,
}

/// What a run of observations leads to, from a window that has seen nothing.
pub open spec fn trail(numbers: Seq<u32>) -> Trail
    decreases numbers.len(),
{
    if numbers.len() == 0 {
        Trail { window: ReplayView { highest: None, seen: 0 }, base: 0, places: seq![] }
    } else {
        let t = trail(numbers.drop_last());
        let p = place(t.window, t.base, numbers.last());
        Trail {
            window: t.window.after(numbers.last()),
            base: if p > t.base {
                p
            } else {
                t.base
            },
            places: t.places.push(p),
        }
    }
}

/// What the last of some numbers was to the window when it came.
pub open spec fn last_decision(numbers: Seq<u32>) -> InputSequenceDecision {
    trail(numbers.drop_last()).window.decision(numbers.last())
}

/// Whether a bit of the window stands for a number that came.
pub open spec fn bit_set(seen: u32, d: int) -> bool {
    (seen >> (d as u32)) & 1 == 1
}

proof fn lemma_bits_forward(seen: u32, forward: u32, d: u32)
    requires
        0 < forward < 32,
        d < 32,
    ensures
        bit_set((seen << forward) | 1, d as int) <==> (d == 0 || (d >= forward && bit_set(
            seen,
            d - forward,
        ))),
{
    let back = (d - forward) as u32;
    assert(0 < forward && forward < 32 && forward <= d && d < 32 && back == (d - forward) as u32 ==> (((
    ((seen << forward) | 1) >> d) & 1 == 1) <==> ((seen >> back) & 1 == 1))) by (bit_vector);
    assert(0 < forward && forward < 32 && 0 < d && d < forward ==> (((seen << forward) | 1) >> d)
        & 1 == 0) by (bit_vector);
    assert((((seen << forward) | 1) >> 0u32) & 1 == 1) by (bit_vector);
}

proof fn lemma_bits_behind(seen: u32, behind: u32, d: u32)
    requires
        behind < 32,
        d < 32,
    ensures
        bit_set(seen | (1u32 << behind), d as int) <==> (d == behind || bit_set(seen, d as int)),
{
    assert(behind < 32 && d < 32 ==> ((((seen | (1u32 << behind)) >> d) & 1 == 1) <==> (d == behind
        || (seen >> d) & 1 == 1))) by (bit_vector);
}

proof fn lemma_bits_one(d: u32)
    requires
        d < 32,
    ensures
        bit_set(1, d as int) <==> d == 0,
{
    assert(d < 32 ==> (((1u32 >> d) & 1 == 1) <==> d == 0)) by (bit_vector);
}

/// What holds of every run.
pub open spec fn trail_kept(numbers: Seq<u32>) -> bool {
    let t = trail(numbers);
    &&& t.places.len() == numbers.len()
    &&& t.base >= 0
    &&& t.window.highest is Some <==> numbers.len() > 0
    &&& numbers.len() > 0 ==> t.places.contains(t.base) && t.places[0] == 0
    &&& forall|i: int| 0 <= i < t.places.len() ==> #[trigger] t.places[i] <= t.base
    &&& numbers.len() > 0 ==> forall|d: int|
        0 <= d < 32 ==> (#[trigger] bit_set(t.window.seen, d) <==> t.places.contains(t.base - d))
}

proof fn lemma_push_place(places: Seq<int>, p: int, q: int)
    ensures
        places.push(p).contains(q) <==> (places.contains(q) || q == p),
{
    if places.contains(q) {
        let i = places.index_of(q);
        assert(places.push(p)[i] == q);
    }
    if q == p {
        assert(places.push(p)[places.len() as int] == q);
    }
}

proof fn lemma_trail(numbers: Seq<u32>)
    ensures
        trail_kept(numbers),
    decreases numbers.len(),
{
    if numbers.len() > 0 {
        let rest = numbers.drop_last();
        lemma_trail(rest);
        let t = trail(rest);
        let after = trail(numbers);
        let s = numbers.last();
        let p = place(t.window, t.base, s);
        assert forall|q: int| #[trigger] after.places.contains(q) <==> (t.places.contains(q) || q
            == p) by {
            lemma_push_place(t.places, p, q);
        }
        assert forall|i: int| 0 <= i < after.places.len() implies #[trigger] after.places[i]
            <= after.base by {
            if i < t.places.len() {
                assert(after.places[i] == t.places[i]);
            }
        }
        if rest.len() == 0 {
            assert forall|d: int| 0 <= d < 32 implies (#[trigger] bit_set(after.window.seen, d)
                <==> after.places.contains(after.base - d)) by {
                lemma_bits_one(d as u32);
            }
        } else {
            assert(after.places[0] == t.places[0]);
            let highest = t.window.highest->0;
            let forward = s.wrapping_sub(highest);
            let behind = highest.wrapping_sub(s);
            let seen = t.window.seen;
            assert(bit_set(seen, 0) <==> t.places.contains(t.base - 0));
            assert forall|d: int| 0 <= d < 32 implies (#[trigger] bit_set(after.window.seen, d)
                <==> after.places.contains(after.base - d)) by {
                assert(bit_set(seen, d) <==> t.places.contains(t.base - d));
                if 0 < forward < 0x8000_0000 {
                    assert(after.base == t.base + forward);
                    if forward < 32 {
                        lemma_bits_forward(seen, forward, d as u32);
                        if d >= forward {
                            assert(bit_set(seen, d - forward) <==> t.places.contains(
                                t.base - (d - forward),
                            ));
                        }
                    } else {
                        lemma_bits_one(d as u32);
                    }
                    if t.places.contains(after.base - d) {
                        let i = t.places.index_of(after.base - d);
                        assert(t.places[i] <= t.base);
                    }
                } else {
                    assert(after.base == t.base);
                    if t.window.decision(s) == InputSequenceDecision::New {
                        lemma_bits_behind(seen, behind, d as u32);
                    } else if forward != 0 && behind < 32 {
                        assert(bit_set(seen, behind as int));
                        assert(bit_set(seen, behind as int) <==> t.places.contains(
                            t.base - behind,
                        ));
                    }
                }
            }
        }
    }
}

/// What a number is to a window after any run of observations: new where nothing
/// came yet, where it is ahead of the highest number, or where it is less than 32
/// behind and its place was not taken yet; stale where it is 32 or more behind;
/// otherwise a duplicate.
pub proof fn law_decision_after_a_run(numbers: Seq<u32>, sequence: u32)
    ensures
        ({
            let t = trail(numbers);
            let p = place(t.window, t.base, sequence);
            t.window.decision(sequence) == if numbers.len() == 0 || p > t.base {
                InputSequenceDecision::New
            } else if p <= t.base - 32 {
                InputSequenceDecision::Stale
            } else if t.places.contains(p) {
                InputSequenceDecision::Duplicate
            } else {
                InputSequenceDecision::New
            }
        }),
{
    lemma_trail(numbers);
    let t = trail(numbers);
    let p = place(t.window, t.base, sequence);
    if numbers.len() > 0 {
        let d = t.base - p;
        if 0 <= d < 32 {
            assert(bit_set(t.window.seen, d) <==> t.places.contains(t.base - d));
        }
    }
}

proof fn lemma_trail_prefix(numbers: Seq<u32>, k: int)
    requires
        0 <= k <= numbers.len(),
    ensures
        trail(numbers.take(k)).places == trail(numbers).places.take(k),
    decreases numbers.len(),
{
    lemma_trail(numbers);
    lemma_trail(numbers.take(k));
    if k < numbers.len() {
        lemma_trail_prefix(numbers.drop_last(), k);
        lemma_trail(numbers.drop_last());
        assert(numbers.drop_last().take(k) =~= numbers.take(k));
        assert(trail(numbers).places.take(k) =~= trail(numbers.drop_last()).places.take(k));
    } else {
        assert(numbers.take(k) =~= numbers);
        assert(trail(numbers).places.take(k) =~= trail(numbers).places);
    }
}

/// No number is new twice in a run of observations: where a number comes whose
/// place was taken by one that came before, it is not new.
pub proof fn law_nothing_is_new_twice(numbers: Seq<u32>, i: int, j: int)
    requires
        0 <= i < j < numbers.len(),
        trail(numbers).places[i] == trail(numbers).places[j],
    ensures
        last_decision(numbers.take(j + 1)) != InputSequenceDecision::New,
{
    let before = numbers.take(j);
    let t = trail(before);
    lemma_trail(numbers);
    lemma_trail(before);
    lemma_trail_prefix(numbers, j);
    lemma_trail_prefix(numbers, j + 1);
    assert(numbers.take(j + 1).drop_last() =~= before);
    let s = numbers[j];
    let p = place(t.window, t.base, s);
    assert(trail(numbers.take(j + 1)).places[j] == p);
    assert(trail(numbers).places.take(j + 1)[j] == trail(numbers).places[j]);
    assert(t.places[i] == trail(numbers).places[i]);
    assert(t.places[i] == p);
    assert(t.places.contains(p));
    law_decision_after_a_run(before, s);
}

/// Where numbers stand is what they are, up to the size of the number space.
proof fn lemma_places_are_numbers(numbers: Seq<u32>)
    ensures
        numbers.len() > 0 ==> {
            let t = trail(numbers);
            &&& t.window.highest == Some(((numbers[0] + t.base) % 0x1_0000_0000) as u32)
            &&& forall|i: int|
                0 <= i < numbers.len() ==> #[trigger] numbers[i] == (numbers[0] + t.places[i])
                    % 0x1_0000_0000
        },
    decreases numbers.len(),
{
    lemma_trail(numbers);
    if numbers.len() > 1 {
        let rest = numbers.drop_last();
        lemma_trail(rest);
        lemma_places_are_numbers(rest);
        let t = trail(rest);
        let after = trail(numbers);
        let s = numbers.last();
        let p = place(t.window, t.base, s);
        lemma_place_is_number(t.window, t.base, numbers[0], s);
        assert(rest[0] == numbers[0]);
        assert forall|i: int| 0 <= i < numbers.len() implies #[trigger] numbers[i] == (numbers[0]
            + after.places[i]) % 0x1_0000_0000 by {
            if i < rest.len() {
                assert(rest[i] == numbers[i]);
                assert(after.places[i] == t.places[i]);
            }
        }
    } else if numbers.len() == 1 {
        assert(numbers.drop_last().len() == 0);
        assert(trail(numbers).places[0] == 0);
    }
}

proof fn lemma_place_is_number(w: ReplayView, base: int, first: u32, s: u32)
    requires
        w.highest == Some(((first + base) % 0x1_0000_0000) as u32),
    ensures
        s == (first + place(w, base, s)) % 0x1_0000_0000,
{
    let highest = w.highest->0;
    let p = place(w, base, s);
    let k = (first + base) / 0x1_0000_0000;
    assert(first + base == k * 0x1_0000_0000 + highest);
    assert(p - base == s - highest || p - base == s - highest + 0x1_0000_0000 || p - base == s
        - highest - 0x1_0000_0000);
}

/// As long as no number that came is behind the highest one by the whole number
/// space, places are numbers: a number is new exactly where nothing came yet,
/// where it is ahead of the highest number by less than half of the number space,
/// or where it is less than 32 behind and did not come yet; and it is stale
/// exactly where it is 32 or more behind.
pub proof fn law_new_means_not_seen(numbers: Seq<u32>, sequence: u32)
    requires
        forall|i: int|
            0 <= i < numbers.len() ==> trail(numbers).base - #[trigger] trail(numbers).places[i]
                < 0x1_0000_0000,
    ensures
        ({
            let w = trail(numbers).window;
            let forward = sequence.wrapping_sub(w.highest->0);
            let behind = w.highest->0.wrapping_sub(sequence);
            w.decision(sequence) == if numbers.len() == 0 || 0 < forward < 0x8000_0000 {
                InputSequenceDecision::New
            } else if behind >= 32 {
                InputSequenceDecision::Stale
            } else if numbers.contains(sequence) {
                InputSequenceDecision::Duplicate
            } else {
                InputSequenceDecision::New
            }
        }),
{
    law_decision_after_a_run(numbers, sequence);
    lemma_trail(numbers);
    lemma_places_are_numbers(numbers);
    let t = trail(numbers);
    let p = place(t.window, t.base, sequence);
    if numbers.len() > 0 {
        lemma_place_is_number(t.window, t.base, numbers[0], sequence);
        if t.base - 32 < p <= t.base {
            if numbers.contains(sequence) {
                let i = numbers.index_of(sequence);
                assert(numbers[i] == (numbers[0] + t.places[i]) % 0x1_0000_0000);
                assert(t.base - 0x1_0000_0000 < t.places[i] <= t.base);
                let a = numbers[0] + t.places[i];
                let b = numbers[0] + p;
                assert(a % 0x1_0000_0000 == b % 0x1_0000_0000);
                assert(-0x1_0000_0000 < a - b < 0x1_0000_0000);
                assert(a == b);
                assert(t.places.contains(p));
            }
            if t.places.contains(p) {
                let i = t.places.index_of(p);
                assert(numbers[i] == (numbers[0] + t.places[i]) % 0x1_0000_0000);
                assert(numbers.contains(sequence));
            }
        }
    }
}

} // verus!
