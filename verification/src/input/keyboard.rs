//! Keyboard frames, held keys and the keys that a host must not see.

use vstd::prelude::*;

use super::InputError;
use crate::fixed;
use crate::fixed::keys_in_32;

verus! {

/// How many keys a keyboard state can hold.
pub const PHYSICAL_KEYBOARD_KEY_CAPACITY: usize = 32;

/// A usage of the keyboard page.
#[derive(Clone, Copy, Debug, PartialEq, Eq, PartialOrd, Ord, Hash, Structural)]
pub struct KeyUsage(pub u8);

/// A set of modifier keys, in the bits of a boot keyboard report.
#[derive(Clone, Copy, Debug, PartialEq, Eq, Structural)]
pub struct ModifierState(pub(crate) u8);

impl ModifierState {
    /// The set of the left ctrl key alone.
    pub fn left_ctrl() -> (r: Self)
        ensures
            r == ModifierState::of_mask(1),
    {
        Self(1)
    }

    /// The set of the left shift key alone.
    pub fn left_shift() -> (r: Self)
        ensures
            r == ModifierState::of_mask(2),
    {
        Self(2)
    }

    /// The set of the left alt key alone.
    pub fn left_alt() -> (r: Self)
        ensures
            r == ModifierState::of_mask(4),
    {
        Self(4)
    }

    /// The set of the left gui key alone.
    pub fn left_gui() -> (r: Self)
        ensures
            r == ModifierState::of_mask(8),
    {
        Self(8)
    }

    /// The set of the right ctrl key alone.
    pub fn right_ctrl() -> (r: Self)
        ensures
            r == ModifierState::of_mask(16),
    {
        Self(16)
    }

    /// The set of the right shift key alone.
    pub fn right_shift() -> (r: Self)
        ensures
            r == ModifierState::of_mask(32),
    {
        Self(32)
    }

    /// The set of the right alt key alone.
    pub fn right_alt() -> (r: Self)
        ensures
            r == ModifierState::of_mask(64),
    {
        Self(64)
    }

    /// The set of the right gui key alone.
    pub fn right_gui() -> (r: Self)
        ensures
            r == ModifierState::of_mask(128),
    {
        Self(128)
    }

    /// One bit for each modifier in the set.
    pub open(crate) spec fn mask(self) -> u8 {
        self.0
    }

    /// The set with these bits.
    pub open(crate) spec fn of_mask(bits: u8) -> ModifierState {
        ModifierState(bits)
    }

    /// The set of a mask has that mask.
    pub broadcast proof fn lemma_of_mask(bits: u8)
        ensures
            (#[trigger] ModifierState::of_mask(bits)).mask() == bits,
    {
    }

    /// A set is known by its mask.
    pub broadcast proof fn lemma_mask(modifiers: ModifierState)
        ensures
            ModifierState::of_mask(#[trigger] modifiers.mask()) == modifiers,
    {
    }

    /// No modifier.
    pub fn empty() -> (r: Self)
        ensures
            r == ModifierState::of_mask(0),
    {
        Self(0)
    }

    /// The mask.
    pub fn bits(&self) -> (r: u8)
        ensures
            r == self.mask(),
    {
        self.0
    }

    /// The modifiers of a mask, every bit of which is one.
    pub fn from_bits_truncate(bits: u8) -> (r: Self)
        ensures
            r == ModifierState::of_mask(bits),
    {
        Self(bits)
    }

    /// Whether no modifier is in the set.
    pub fn is_empty(&self) -> (r: bool)
        ensures
            r == (self.mask() == 0),
    {
        self.0 == 0
    }

    /// Whether all of `other` is in the set.
    pub fn contains(&self, other: Self) -> (r: bool)
        ensures
            r == (self.mask() & other.mask() == other.mask()),
    {
        self.0 & other.0 == other.0
    }

    /// Puts the modifiers of `other` in or takes them out.
    pub fn set(&mut self, other: Self, value: bool)
        ensures
            *final(self) == ModifierState::of_mask(
                if value {
                    old(self).mask() | other.mask()
                } else {
                    old(self).mask() & !other.mask()
                },
            ),
    {
        if value {
            self.0 = self.0 | other.0;
        } else {
            self.0 = self.0 & !other.0;
        }
    }

    /// Puts a modifier in or takes it out.
    pub fn set_modifier(&mut self, modifier: Modifier, pressed: bool)
        ensures
            *final(self) == ModifierState::of_mask(
                if pressed {
                    old(self).mask() | modifier.bit()
                } else {
                    old(self).mask() & !modifier.bit()
                },
            ),
    {
        self.set(modifier.flag(), pressed);
    }

    /// The modifiers that are not in `other`.
    pub fn difference(self, other: Self) -> (r: Self)
        ensures
            r == ModifierState::of_mask(self.mask() & !other.mask()),
    {
        Self(self.0 & !other.0)
    }

    /// The modifiers in both sets.
    pub fn intersection(self, other: Self) -> (r: Self)
        ensures
            r == ModifierState::of_mask(self.mask() & other.mask()),
    {
        Self(self.0 & other.0)
    }
}

impl Default for ModifierState {
    fn default() -> (r: Self)
        ensures
            r == ModifierState::of_mask(0),
    {
        Self::empty()
    }
}

impl core::ops::BitOr for ModifierState {
    type Output = ModifierState;

    fn bitor(self, rhs: Self) -> (r: Self) {
        Self(self.0 | rhs.0)
    }
}

impl vstd::std_specs::ops::BitOrSpecImpl for ModifierState {
    open spec fn obeys_bitor_spec() -> bool {
        true
    }

    open spec fn bitor_req(self, rhs: Self) -> bool {
        true
    }

    open spec fn bitor_spec(self, rhs: Self) -> Self {
        ModifierState::of_mask(self.mask() | rhs.mask())
    }
}

/// One modifier key.
#[derive(Clone, Copy, Debug, PartialEq, Eq, Structural)]
pub enum Modifier {
    LeftCtrl,
    LeftShift,
    LeftAlt,
    LeftGui,
    RightCtrl,
    RightShift,
    RightAlt,
    RightGui,
}

impl Modifier {
    /// The modifier's bit in a mask.
    pub open spec fn bit(self) -> u8 {
        match self {
            Modifier::LeftCtrl => 1,
            Modifier::LeftShift => 2,
            Modifier::LeftAlt => 4,
            Modifier::LeftGui => 8,
            Modifier::RightCtrl => 16,
            Modifier::RightShift => 32,
            Modifier::RightAlt => 64,
            Modifier::RightGui => 128,
        }
    }

    /// The set of this modifier alone.
    pub fn flag(self) -> (r: ModifierState)
        ensures
            r == ModifierState::of_mask(self.bit()),
    {
        match self {
            Self::LeftCtrl => ModifierState(1),
            Self::LeftShift => ModifierState(2),
            Self::LeftAlt => ModifierState(4),
            Self::LeftGui => ModifierState(8),
            Self::RightCtrl => ModifierState(16),
            Self::RightShift => ModifierState(32),
            Self::RightAlt => ModifierState(64),
            Self::RightGui => ModifierState(128),
        }
    }
}

/// Modifiers and keys, in the order in which the keys came.
pub struct KeysView {
    pub modifiers: ModifierState,
    pub keys: Seq<KeyUsage>,
}

/// The keys of `a` that are also in `b`, in the order of `a`.
pub open spec fn kept(a: Seq<KeyUsage>, b: Seq<KeyUsage>) -> Seq<KeyUsage>
    decreases a.len(),
{
    if a.len() == 0 {
        seq![]
    } else if b.contains(a.last()) {
        kept(a.drop_last(), b).push(a.last())
    } else {
        kept(a.drop_last(), b)
    }
}

/// The keys of `a` that are not in `b`, in the order of `a`.
pub open spec fn missing(a: Seq<KeyUsage>, b: Seq<KeyUsage>) -> Seq<KeyUsage>
    decreases a.len(),
{
    if a.len() == 0 {
        seq![]
    } else if b.contains(a.last()) {
        missing(a.drop_last(), b)
    } else {
        missing(a.drop_last(), b).push(a.last())
    }
}

pub(crate) proof fn lemma_kept(a: Seq<KeyUsage>, b: Seq<KeyUsage>)
    ensures
        kept(a, b).len() <= a.len(),
        forall|k: KeyUsage| #[trigger]
            kept(a, b).contains(k) <==> (a.contains(k) && b.contains(k)),
        a.no_duplicates() ==> kept(a, b).no_duplicates(),
    decreases a.len(),
{
    if a.len() > 0 {
        let rest = a.drop_last();
        lemma_kept(rest, b);
        assert(a =~= rest.push(a.last()));
        assert forall|k: KeyUsage| #[trigger]
            kept(a, b).contains(k) <==> (a.contains(k) && b.contains(k)) by {
            lemma_push_contains(rest, a.last(), k);
            lemma_push_contains(kept(rest, b), a.last(), k);
        }
        if a.no_duplicates() {
            assert(rest.no_duplicates());
            assert(!rest.contains(a.last())) by {
                if rest.contains(a.last()) {
                    let i = rest.index_of(a.last());
                    assert(a[i] == a[a.len() - 1]);
                }
            }
            assert(!kept(rest, b).contains(a.last()));
            lemma_push_no_duplicates(kept(rest, b), a.last());
        }
    }
}

pub(crate) proof fn lemma_missing(a: Seq<KeyUsage>, b: Seq<KeyUsage>)
    ensures
        missing(a, b).len() <= a.len(),
        forall|k: KeyUsage| #[trigger]
            missing(a, b).contains(k) <==> (a.contains(k) && !b.contains(k)),
        a.no_duplicates() ==> missing(a, b).no_duplicates(),
    decreases a.len(),
{
    if a.len() > 0 {
        let rest = a.drop_last();
        lemma_missing(rest, b);
        assert(a =~= rest.push(a.last()));
        assert forall|k: KeyUsage| #[trigger]
            missing(a, b).contains(k) <==> (a.contains(k) && !b.contains(k)) by {
            lemma_push_contains(rest, a.last(), k);
            lemma_push_contains(missing(rest, b), a.last(), k);
        }
        if a.no_duplicates() {
            assert(rest.no_duplicates());
            assert(!rest.contains(a.last())) by {
                if rest.contains(a.last()) {
                    let i = rest.index_of(a.last());
                    assert(a[i] == a[a.len() - 1]);
                }
            }
            assert(!missing(rest, b).contains(a.last()));
            lemma_push_no_duplicates(missing(rest, b), a.last());
        }
    }
}

pub(crate) proof fn lemma_push_no_duplicates(s: Seq<KeyUsage>, x: KeyUsage)
    requires
        s.no_duplicates(),
        !s.contains(x),
    ensures
        s.push(x).no_duplicates(),
{
    assert forall|i: int, j: int|
        0 <= i < s.push(x).len() && 0 <= j < s.push(x).len() && i != j implies s.push(x)[i]
        != s.push(x)[j] by {
        if i == s.len() {
            assert(s.contains(s[j]));
        }
        if j == s.len() {
            assert(s.contains(s[i]));
        }
    }
}

pub(crate) proof fn lemma_push_contains(s: Seq<KeyUsage>, x: KeyUsage, k: KeyUsage)
    ensures
        s.push(x).contains(k) <==> (s.contains(k) || k == x),
{
    if s.contains(k) {
        let i = s.index_of(k);
        assert(s.push(x)[i] == k);
    }
    if k == x {
        assert(s.push(x)[s.len() as int] == k);
    }
}

proof fn lemma_kept_same(a: Seq<KeyUsage>, b: Seq<KeyUsage>, c: Seq<KeyUsage>)
    requires
        forall|k: KeyUsage| #[trigger] b.contains(k) <==> c.contains(k),
    ensures
        kept(a, b) == kept(a, c),
    decreases a.len(),
{
    if a.len() > 0 {
        lemma_kept_same(a.drop_last(), b, c);
    }
}

pub(crate) proof fn lemma_missing_same(a: Seq<KeyUsage>, b: Seq<KeyUsage>, c: Seq<KeyUsage>)
    requires
        forall|i: int|
            0 <= i < a.len() ==> (b.contains(#[trigger] a[i]) <==> c.contains(a[i])),
    ensures
        missing(a, b) == missing(a, c),
    decreases a.len(),
{
    if a.len() > 0 {
        let rest = a.drop_last();
        assert forall|i: int| 0 <= i < rest.len() implies (b.contains(#[trigger] rest[i])
            <==> c.contains(rest[i])) by {
            assert(rest[i] == a[i]);
        }
        lemma_missing_same(rest, b, c);
        assert(b.contains(a[a.len() - 1]) <==> c.contains(a[a.len() - 1]));
    }
}

proof fn lemma_kept_all(a: Seq<KeyUsage>, b: Seq<KeyUsage>)
    requires
        forall|i: int| 0 <= i < a.len() ==> b.contains(#[trigger] a[i]),
    ensures
        kept(a, b) == a,
    decreases a.len(),
{
    if a.len() > 0 {
        assert forall|i: int| 0 <= i < a.drop_last().len() implies b.contains(
            #[trigger] a.drop_last()[i],
        ) by {
            assert(a.drop_last()[i] == a[i]);
        }
        lemma_kept_all(a.drop_last(), b);
        assert(b.contains(a[a.len() - 1]));
        assert(a.drop_last().push(a.last()) =~= a);
    } else {
        assert(kept(a, b) =~= a);
    }
}

proof fn lemma_kept_remove(a: Seq<KeyUsage>, b: Seq<KeyUsage>, at: int)
    requires
        0 <= at < a.len(),
        !b.contains(a[at]),
    ensures
        kept(a.remove(at), b) == kept(a, b),
    decreases a.len(),
{
    if at == a.len() - 1 {
        assert(a.remove(at) =~= a.drop_last());
    } else {
        lemma_kept_remove(a.drop_last(), b, at);
        assert(a.remove(at).drop_last() =~= a.drop_last().remove(at));
    }
}

/// As many different keys as there are in `a` cannot outnumber `b`, which has
/// them all.
pub(crate) proof fn lemma_contained_len(a: Seq<KeyUsage>, b: Seq<KeyUsage>)
    requires
        a.no_duplicates(),
        forall|k: KeyUsage| #[trigger] a.contains(k) ==> b.contains(k),
    ensures
        a.len() <= b.len(),
{
    a.unique_seq_to_set();
    b.lemma_cardinality_of_set();
    assert(a.to_set().subset_of(b.to_set())) by {
        assert forall|k: KeyUsage| a.to_set().contains(k) implies b.to_set().contains(k) by {
            assert(a.contains(k));
        }
    }
    vstd::set_lib::lemma_len_subset(a.to_set(), b.to_set());
}

/// Whether `key` is among `keys`.
fn holds(keys: &[KeyUsage], key: KeyUsage) -> (r: bool)
    ensures
        r == keys@.contains(key),
{
    let mut i: usize = 0;
    while i < keys.len()
        invariant
            i <= keys@.len(),
            forall|j: int| 0 <= j < i ==> keys@[j] != key,
        decreases keys@.len() - i,
    {
        if keys[i] == key {
            assert(keys@[i as int] == key);
            return true;
        }
        i += 1;
    }
    false
}

/// Whether the two slices hold the same keys in the same order.
fn same_keys(a: &[KeyUsage], b: &[KeyUsage]) -> (r: bool)
    ensures
        r == (a@ == b@),
{
    if a.len() != b.len() {
        return false;
    }
    let mut i: usize = 0;
    while i < a.len()
        invariant
            i <= a@.len(),
            a@.len() == b@.len(),
            forall|j: int| 0 <= j < i ==> a@[j] == b@[j],
        decreases a@.len() - i,
    {
        if a[i] != b[i] {
            return false;
        }
        i += 1;
    }
    assert(a@ =~= b@);
    true
}

/// Takes out the first occurrence of `key`.
fn remove_key(keys: &mut heapless::Vec<KeyUsage, 32>, key: KeyUsage)
    ensures
        keys_in_32(*final(keys)) == keys_in_32(*old(keys)).remove_value(key),
{
    let ghost before = keys_in_32(*keys);
    let n: usize = fixed::items(keys).len();
    let mut i: usize = 0;
    proof {
        before.index_of_first_ensures(key);
    }
    while i < n
        invariant
            i <= n == before.len(),
            before == keys_in_32(*keys),
            before == keys_in_32(*old(keys)),
            forall|j: int| 0 <= j < i ==> before[j] != key,
        decreases n - i,
    {
        if fixed::items(keys)[i] == key {
            proof {
                before.index_of_first_ensures(key);
                assert(before.index_of_first(key) == Some(i as int)) by {
                    assert(before.contains(key)) by {
                        assert(before[i as int] == key);
                    }
                }
            }
            let _ = fixed::remove(keys, i);
            return ;
        }
        i += 1;
    }
    proof {
        before.index_of_first_ensures(key);
        assert(!before.contains(key));
    }
}

proof fn lemma_remove_value(s: Seq<KeyUsage>, key: KeyUsage, b: Seq<KeyUsage>)
    requires
        !b.contains(key),
    ensures
        kept(s.remove_value(key), b) == kept(s, b),
        s.no_duplicates() ==> s.remove_value(key).no_duplicates(),
{
    s.index_of_first_ensures(key);
    if s.contains(key) {
        let i = s.index_of_first(key)->0;
        lemma_kept_remove(s, b, i);
        assert forall|x: int, y: int|
            s.no_duplicates() && 0 <= x < s.len() - 1 && 0 <= y < s.len() - 1 && x
                != y implies s.remove(i)[x] != s.remove(i)[y] by {
            let p = if x < i { x } else { x + 1 };
            let q = if y < i { y } else { y + 1 };
            assert(s.remove(i)[x] == s[p]);
            assert(s.remove(i)[y] == s[q]);
        }
    }
}

/// Keeps only the keys that are also in `by`.
fn retain_keys(keys: &mut heapless::Vec<KeyUsage, 32>, by: &[KeyUsage])
    ensures
        keys_in_32(*final(keys)) == kept(keys_in_32(*old(keys)), by@),
{
    let ghost before = keys_in_32(*keys);
    let ghost mut done: int = 0;
    let mut index: usize = 0;
    assert(before.take(0) =~= Seq::<KeyUsage>::empty());
    assert(before.skip(0) =~= before);
    assert(kept(before.take(0), by@) + before.skip(0) =~= before);
    while index < fixed::items(keys).len()
        invariant
            0 <= done <= before.len(),
            index == kept(before.take(done), by@).len(),
            keys_in_32(*keys) == kept(before.take(done), by@) + before.skip(done),
        ensures
            done == before.len(),
            keys_in_32(*keys) == kept(before.take(done), by@) + before.skip(done),
        decreases before.len() - done,
    {
        let key = fixed::items(keys)[index];
        proof {
            assert(key == before[done]);
            assert(before.take(done + 1).drop_last() =~= before.take(done));
            assert(before.take(done + 1).last() == key);
            assert(before.skip(done) =~= seq![key] + before.skip(done + 1));
        }
        if holds(by, key) {
            index += 1;
            assert(keys_in_32(*keys) =~= kept(before.take(done + 1), by@) + before.skip(done + 1));
        } else {
            let _ = fixed::remove(keys, index);
            assert(keys_in_32(*keys) =~= kept(before.take(done + 1), by@) + before.skip(done + 1));
        }
        proof {
            done = done + 1;
        }
    }
    assert(before.take(done) =~= before);
    assert(kept(before, by@) + before.skip(done) =~= kept(before, by@));
}

/// The modifiers and keys of one keyboard report.
#[derive(Clone, Debug, PartialEq, Eq)]
pub struct KeyboardFrame {
    pub modifiers: ModifierState,
    pub(crate) keys_down: heapless::Vec<KeyUsage, PHYSICAL_KEYBOARD_KEY_CAPACITY>,
}

impl View for KeyboardFrame {
    type V = KeysView;

    open(crate) spec fn view(&self) -> KeysView {
        KeysView { modifiers: self.modifiers, keys: keys_in_32(self.keys_down) }
    }
}

impl KeyboardFrame {
    /// No key is down twice.
    pub open spec fn wf(&self) -> bool {
        self@.keys.no_duplicates()
    }

    /// A frame with no key down.
    pub fn new(modifiers: ModifierState) -> (r: Self)
        ensures
            r@ == (KeysView { modifiers, keys: seq![] }),
            r.wf(),
    {
        Self { modifiers, keys_down: fixed::new_keys() }
    }

    /// Adds a key that is down, unless it is there already.
    pub fn push_key(&mut self, key: KeyUsage) -> (r: Result<(), InputError>)
        requires
            old(self).wf(),
        ensures
            final(self).wf(),
            final(self)@.modifiers == old(self)@.modifiers,
            old(self)@.keys.contains(key) ==> r is Ok && final(self)@ == old(self)@,
            !old(self)@.keys.contains(key) && old(self)@.keys.len() < 32 ==> r is Ok && final(self)@.keys == old(self)@.keys.push(key),
            !old(self)@.keys.contains(key) && old(self)@.keys.len() >= 32 ==> r == Err::<
                (),
                InputError,
            >(InputError::KeyCapacity) && final(self)@ == old(self)@,
    {
        if holds(fixed::items(&self.keys_down), key) {
            return Ok(());
        }
        match fixed::push(&mut self.keys_down, key) {
            Ok(_) => Ok(()),
            Err(_) => Err(InputError::KeyCapacity),
        }
    }

    /// The keys that are down, in the order in which they were added.
    pub fn keys_down(&self) -> (r: &[KeyUsage])
        ensures
            r@ == self@.keys,
            r@.len() <= PHYSICAL_KEYBOARD_KEY_CAPACITY,
    {
        fixed::items(&self.keys_down)
    }
}

/// The modifiers and keys that are held, oldest key first.
#[derive(Clone, Debug, PartialEq, Eq)]
pub struct PhysicalKeyboardState {
    pub modifiers: ModifierState,
    pub(crate) keys: heapless::Vec<KeyUsage, PHYSICAL_KEYBOARD_KEY_CAPACITY>,
}

impl View for PhysicalKeyboardState {
    type V = KeysView;

    open(crate) spec fn view(&self) -> KeysView {
        KeysView { modifiers: self.modifiers, keys: keys_in_32(self.keys) }
    }
}

impl PhysicalKeyboardState {
    /// No key is held twice.
    pub open spec fn wf(&self) -> bool {
        self@.keys.no_duplicates()
    }

    /// Nothing held.
    pub fn new() -> (r: Self)
        ensures
            r@ == (KeysView { modifiers: ModifierState::of_mask(0), keys: seq![] }),
            r.wf(),
    {
        Self { modifiers: ModifierState::empty(), keys: fixed::new_keys() }
    }

    /// Another state that holds the same.
    pub fn copied(&self) -> (r: Self)
        ensures
            r@ == self@,
    {
        Self { modifiers: self.modifiers, keys: fixed::copy(&self.keys) }
    }

    /// Whether both states hold the same, in the same order.
    pub fn same_as(&self, other: &Self) -> (r: bool)
        ensures
            r == (self@ == other@),
    {
        self.modifiers == other.modifiers && same_keys(
            fixed::items(&self.keys),
            fixed::items(&other.keys),
        )
    }

    /// Holds what `frame` says: keys that are held already keep their place,
    /// new ones come behind them. What is released is suppressed no longer.
    pub fn apply_frame(
        &mut self,
        frame: &KeyboardFrame,
        suppression: &mut KeyboardSuppression,
    ) -> (r: Result<(), InputError>)
        requires
            old(self).wf(),
            frame.wf(),
            old(suppression).wf(),
        ensures
            r is Ok,
            final(self).wf(),
            final(suppression).wf(),
            final(self)@ == held_after(old(self)@, frame@),
            final(suppression)@ == suppressed_after(old(suppression)@, frame@),
    {
        self.apply_keys(frame.modifiers, frame.keys_down(), suppression)
    }

    /// Holds what `state` holds, in the way of `apply_frame`.
    pub fn apply_state(
        &mut self,
        state: &PhysicalKeyboardState,
        suppression: &mut KeyboardSuppression,
    ) -> (r: Result<(), InputError>)
        requires
            old(self).wf(),
            state.wf(),
            old(suppression).wf(),
        ensures
            r is Ok,
            final(self).wf(),
            final(suppression).wf(),
            final(self)@ == held_after(old(self)@, state@),
            final(suppression)@ == suppressed_after(old(suppression)@, state@),
    {
        self.apply_keys(state.modifiers, state.keys(), suppression)
    }

    fn apply_keys(
        &mut self,
        modifiers: ModifierState,
        keys: &[KeyUsage],
        suppression: &mut KeyboardSuppression,
    ) -> (r: Result<(), InputError>)
        requires
            old(self).wf(),
            keys@.no_duplicates(),
            keys@.len() <= 32,
            old(suppression).wf(),
        ensures
            r is Ok,
            final(self).wf(),
            final(suppression).wf(),
            final(self)@ == held_after(old(self)@, (KeysView { modifiers, keys: keys@ })),
            final(suppression)@ == suppressed_after(
                old(suppression)@,
                (KeysView { modifiers, keys: keys@ }),
            ),
    {
        let ghost held = self@.keys;
        let ghost hidden = suppression@.keys;
        self.modifiers = modifiers;
        let ghost mut done: int = 0;
        let mut index: usize = 0;
        assert(held.take(0) =~= Seq::<KeyUsage>::empty());
        assert(kept(held.take(0), keys@) + held.skip(0) =~= held);
        while index < fixed::items(&self.keys).len()
            invariant
                held == old(self)@.keys,
                hidden == old(suppression)@.keys,
                suppression.modifiers == old(suppression).modifiers,
                self.modifiers == modifiers,
                0 <= done <= held.len(),
                index == kept(held.take(done), keys@).len(),
                keys_in_32(self.keys) == kept(held.take(done), keys@) + held.skip(done),
                suppression.wf(),
                kept(suppression@.keys, keys@) == kept(hidden, keys@),
            ensures
                done == held.len(),
                keys_in_32(self.keys) == kept(held.take(done), keys@) + held.skip(done),
            decreases held.len() - done,
        {
            let key = fixed::items(&self.keys)[index];
            proof {
                assert(key == held[done]);
                assert(held.take(done + 1).drop_last() =~= held.take(done));
                assert(held.take(done + 1).last() == key);
                assert(held.skip(done) =~= seq![key] + held.skip(done + 1));
            }
            if holds(keys, key) {
                index += 1;
            } else {
                let _ = fixed::remove(&mut self.keys, index);
                proof {
                    lemma_remove_value(suppression@.keys, key, keys@);
                }
                suppression.release_key(key);
            }
            assert(keys_in_32(self.keys) =~= kept(held.take(done + 1), keys@) + held.skip(
                done + 1,
            ));
            proof {
                done = done + 1;
            }
        }
        let ghost stayed = kept(held, keys@);
        proof {
            assert(held.take(done) =~= held);
            assert(kept(held, keys@) + held.skip(done) =~= kept(held, keys@));
            lemma_kept(held, keys@);
            assert(keys@.take(0) =~= Seq::<KeyUsage>::empty());
            assert(stayed + missing(keys@.take(0), held) =~= stayed);
        }
        let mut i: usize = 0;
        while i < keys.len()
            invariant
                held == old(self)@.keys,
                hidden == old(suppression)@.keys,
                suppression.modifiers == old(suppression).modifiers,
                suppression.wf(),
                kept(suppression@.keys, keys@) == kept(hidden, keys@),
                self.modifiers == modifiers,
                i <= keys@.len() <= 32,
                keys@.no_duplicates(),
                held.no_duplicates(),
                stayed == kept(held, keys@),
                keys_in_32(self.keys) == stayed + missing(keys@.take(i as int), held),
                self.wf(),
            decreases keys@.len() - i,
        {
            let key = keys[i];
            let ghost before = keys@.take(i as int);
            proof {
                lemma_kept(held, keys@);
                lemma_missing(before, held);
                assert(keys@.take(i + 1).drop_last() =~= before);
                assert(keys@.take(i + 1).last() == key);
                assert(keys@.contains(key));
                assert(!before.contains(key)) by {
                    if before.contains(key) {
                        let j = before.index_of(key);
                        assert(keys@[j] == keys@[i as int]);
                    }
                }
                let now = stayed + missing(before, held);
                lemma_add_contains(stayed, missing(before, held), key);
                assert(now.contains(key) <==> held.contains(key));
                if !held.contains(key) {
                    assert forall|k: KeyUsage| #[trigger]
                        now.push(key).contains(k) implies keys@.contains(k) by {
                        lemma_push_contains(now, key, k);
                        lemma_add_contains(stayed, missing(before, held), k);
                        if before.contains(k) {
                            let j = before.index_of(k);
                            assert(keys@[j] == k);
                        }
                    }
                    lemma_contained_len(now.push(key), keys@);
                    assert(now.push(key) =~= stayed + missing(keys@.take(i + 1), held));
                }
            }
            match self.press_key(key) {
                Ok(_) => {},
                Err(error) => {
                    return Err(error);
                },
            }
            i += 1;
        }
        proof {
            assert(keys@.take(i as int) =~= keys@);
            lemma_kept(held, keys@);
            lemma_missing(keys@, held);
            let now = stayed + missing(keys@, held);
            assert forall|k: KeyUsage| #[trigger] now.contains(k) <==> keys@.contains(k) by {
                lemma_add_contains(stayed, missing(keys@, held), k);
            }
            lemma_kept_same(suppression@.keys, now, keys@);
            lemma_kept(suppression@.keys, keys@);
        }
        suppression.retain_pressed_by(self);
        Ok(())
    }

    /// Holds exactly what `frame` says, in the order of the frame.
    pub fn replace_with_frame(&mut self, frame: &KeyboardFrame) -> (r: Result<(), InputError>)
        ensures
            r is Ok,
            final(self)@ == frame@,
    {
        self.modifiers = frame.modifiers;
        self.keys = fixed::copy(&frame.keys_down);
        Ok(())
    }

    /// Holds one more key, unless it is held already.
    pub fn press_key(&mut self, key: KeyUsage) -> (r: Result<(), InputError>)
        requires
            old(self).wf(),
        ensures
            final(self).wf(),
            final(self)@.modifiers == old(self)@.modifiers,
            old(self)@.keys.contains(key) ==> r is Ok && final(self)@ == old(self)@,
            !old(self)@.keys.contains(key) && old(self)@.keys.len() < 32 ==> r is Ok && final(self)@.keys == old(self)@.keys.push(key),
            !old(self)@.keys.contains(key) && old(self)@.keys.len() >= 32 ==> r == Err::<
                (),
                InputError,
            >(InputError::KeyCapacity) && final(self)@ == old(self)@,
    {
        if self.contains_key(key) {
            return Ok(());
        }
        match fixed::push(&mut self.keys, key) {
            Ok(_) => Ok(()),
            Err(_) => Err(InputError::KeyCapacity),
        }
    }

    /// Lets go of a key, which is then suppressed no longer.
    pub fn release_key(&mut self, key: KeyUsage, suppression: &mut KeyboardSuppression)
        ensures
            final(self)@ == (KeysView {
                modifiers: old(self)@.modifiers,
                keys: old(self)@.keys.remove_value(key),
            }),
            final(suppression)@ == (KeysView {
                modifiers: old(suppression)@.modifiers,
                keys: old(suppression)@.keys.remove_value(key),
            }),
    {
        remove_key(&mut self.keys, key);
        suppression.release_key(key);
    }

    /// Holds a modifier or lets go of it.
    pub fn set_modifier(&mut self, modifier: Modifier, pressed: bool)
        ensures
            final(self)@ == (KeysView {
                modifiers: ModifierState::of_mask(
                    if pressed {
                        old(self)@.modifiers.mask() | modifier.bit()
                    } else {
                        old(self)@.modifiers.mask() & !modifier.bit()
                    },
                ),
                keys: old(self)@.keys,
            }),
    {
        self.modifiers.set_modifier(modifier, pressed);
    }

    /// Adds modifiers to those that are held.
    pub(crate) fn add_modifiers(&mut self, modifiers: ModifierState)
        ensures
            final(self)@ == (KeysView {
                modifiers: ModifierState::of_mask(old(self)@.modifiers.mask() | modifiers.mask()),
                keys: old(self)@.keys,
            }),
    {
        self.modifiers = self.modifiers | modifiers;
    }

    /// The keys that are held, oldest first.
    pub fn keys(&self) -> (r: &[KeyUsage])
        ensures
            r@ == self@.keys,
            r@.len() <= PHYSICAL_KEYBOARD_KEY_CAPACITY,
    {
        fixed::items(&self.keys)
    }

    /// How many keys are held.
    pub fn key_count(&self) -> (r: usize)
        ensures
            r == self@.keys.len(),
    {
        fixed::items(&self.keys).len()
    }

    /// Whether the key is held.
    pub fn contains_key(&self, key: KeyUsage) -> (r: bool)
        ensures
            r == self@.keys.contains(key),
    {
        holds(fixed::items(&self.keys), key)
    }

    /// What is held and not suppressed.
    pub fn visible_against(&self, suppression: &KeyboardSuppression) -> (r: VisibleKeyboardState)
        ensures
            r@ == visible(self@, suppression@),
            !r.cut_short(),
    {
        let mut keys = fixed::new_keys();
        let mut truncated = false;
        let held = fixed::items(&self.keys);
        let mut i: usize = 0;
        assert(held@.take(0) =~= Seq::<KeyUsage>::empty());
        while i < held.len()
            invariant
                i <= held@.len() <= 32,
                held@ == self@.keys,
                keys_in_32(keys) == missing(held@.take(i as int), suppression@.keys),
                !truncated,
            decreases held@.len() - i,
        {
            let key = held[i];
            proof {
                assert(held@.take(i + 1).drop_last() =~= held@.take(i as int));
                assert(held@.take(i + 1).last() == key);
                lemma_missing(held@.take(i as int), suppression@.keys);
            }
            if !suppression.contains_key(key) {
                match fixed::push(&mut keys, key) {
                    Ok(_) => {},
                    Err(_) => {
                        truncated = true;
                    },
                }
            }
            i += 1;
        }
        assert(held@.take(i as int) =~= held@);
        VisibleKeyboardState {
            modifiers: self.modifiers.difference(suppression.modifiers),
            keys,
            truncated,
        }
    }

    /// A frame that says what is held.
    pub fn to_frame(&self) -> (r: Result<KeyboardFrame, InputError>)
        requires
            self.wf(),
        ensures
            r is Ok,
            r->Ok_0@ == self@,
            r->Ok_0.wf(),
    {
        let mut frame = KeyboardFrame::new(self.modifiers);
        let held = fixed::items(&self.keys);
        let mut i: usize = 0;
        assert(held@.take(0) =~= Seq::<KeyUsage>::empty());
        while i < held.len()
            invariant
                i <= held@.len() <= 32,
                held@ == self@.keys,
                self.wf(),
                frame.wf(),
                frame@.modifiers == self@.modifiers,
                frame@.keys == held@.take(i as int),
            decreases held@.len() - i,
        {
            proof {
                if held@.take(i as int).contains(held@[i as int]) {
                    let j = held@.take(i as int).index_of(held@[i as int]);
                    assert(held@[j] == held@[i as int]);
                }
                assert(held@.take(i as int).push(held@[i as int]) =~= held@.take(i + 1));
            }
            match frame.push_key(held[i]) {
                Ok(_) => {},
                Err(error) => {
                    return Err(error);
                },
            }
            i += 1;
        }
        assert(held@.take(i as int) =~= held@);
        Ok(frame)
    }
}

proof fn lemma_add_contains(a: Seq<KeyUsage>, b: Seq<KeyUsage>, k: KeyUsage)
    ensures
        (a + b).contains(k) <==> (a.contains(k) || b.contains(k)),
{
    if a.contains(k) {
        let i = a.index_of(k);
        assert((a + b)[i] == k);
    }
    if b.contains(k) {
        let i = b.index_of(k);
        assert((a + b)[a.len() + i] == k);
    }
    if (a + b).contains(k) {
        let i = (a + b).index_of(k);
        if i < a.len() {
            assert(a[i] == k);
        } else {
            assert(b[i - a.len()] == k);
        }
    }
}

/// What is held once a report that says `now` has come: what stays held keeps
/// its place, and new keys come behind.
pub open spec fn held_after(before: KeysView, now: KeysView) -> KeysView {
    KeysView {
        modifiers: now.modifiers,
        keys: kept(before.keys, now.keys) + missing(now.keys, before.keys),
    }
}

/// What stays suppressed once a report that says `now` has come: what it does
/// not say is released, and suppressed no longer.
pub open spec fn suppressed_after(before: KeysView, now: KeysView) -> KeysView {
    KeysView {
        modifiers: ModifierState::of_mask(before.modifiers.mask() & now.modifiers.mask()),
        keys: kept(before.keys, now.keys),
    }
}

/// What a host sees of what is held.
pub open spec fn visible(held: KeysView, hidden: KeysView) -> KeysView {
    KeysView {
        modifiers: ModifierState::of_mask(held.modifiers.mask() & !hidden.modifiers.mask()),
        keys: missing(held.keys, hidden.keys),
    }
}

impl Default for PhysicalKeyboardState {
    fn default() -> (r: Self)
        ensures
            r@ == (KeysView { modifiers: ModifierState::of_mask(0), keys: seq![] }),
            r.wf(),
    {
        Self::new()
    }
}

/// The modifiers and keys that a host must not see until they are released.
#[derive(Clone, Debug, PartialEq, Eq)]
pub struct KeyboardSuppression {
    pub(crate) modifiers: ModifierState,
    pub(crate) keys: heapless::Vec<KeyUsage, PHYSICAL_KEYBOARD_KEY_CAPACITY>,
}

impl View for KeyboardSuppression {
    type V = KeysView;

    open(crate) spec fn view(&self) -> KeysView {
        KeysView { modifiers: self.modifiers, keys: keys_in_32(self.keys) }
    }
}

impl KeyboardSuppression {
    /// No key is suppressed twice.
    pub open spec fn wf(&self) -> bool {
        self@.keys.no_duplicates()
    }

    /// Nothing suppressed.
    pub fn new() -> (r: Self)
        ensures
            r@ == (KeysView { modifiers: ModifierState::of_mask(0), keys: seq![] }),
            r.wf(),
    {
        Self { modifiers: ModifierState::empty(), keys: fixed::new_keys() }
    }

    /// Another suppression of the same.
    pub fn copied(&self) -> (r: Self)
        ensures
            r@ == self@,
    {
        Self { modifiers: self.modifiers, keys: fixed::copy(&self.keys) }
    }

    /// Suppresses exactly what is held.
    pub fn capture_from(&mut self, state: &PhysicalKeyboardState) -> (r: Result<(), InputError>)
        ensures
            r is Ok,
            final(self)@ == state@,
    {
        self.modifiers = state.modifiers;
        self.keys = fixed::copy(&state.keys);
        Ok(())
    }

    /// Suppresses what a host would see beyond its first `limit` keys, and
    /// says how many keys that is.
    pub fn suppress_visible_after(
        &mut self,
        state: &PhysicalKeyboardState,
        limit: usize,
    ) -> (r: Result<usize, InputError>)
        requires
            old(self).wf(),
            state.wf(),
        ensures
            final(self)@.modifiers == old(self)@.modifiers,
            final(self).wf(),
            ({
                let seen = missing(state@.keys, old(self)@.keys);
                let extra = if limit < seen.len() {
                    seen.skip(limit as int)
                } else {
                    seq![]
                };
                &&& r is Ok <==> old(self)@.keys.len() + extra.len() <= 32
                &&& r is Ok ==> r->Ok_0 == extra.len() && final(self)@.keys == old(self)@.keys
                    + extra
                &&& r is Err ==> r->Err_0 == InputError::KeyCapacity && final(self)@.keys == old(self)@.keys + extra.take(32 - old(self)@.keys.len())
            }),
    {
        let ghost before = self@.keys;
        let visible = state.visible_against(self);
        let seen = visible.keys();
        let n: usize = seen.len();
        let mut i: usize = limit;
        let mut count: usize = 0;
        let room: usize = PHYSICAL_KEYBOARD_KEY_CAPACITY - fixed::items(&self.keys).len();
        let ghost extra = if limit < seen@.len() {
            seen@.skip(limit as int)
        } else {
            seq![]
        };
        proof {
            lemma_missing(state@.keys, before);
            assert(before + extra.take(0) =~= before);
        }
        while i < n
            invariant
                n == seen@.len(),
                limit < seen@.len() ==> extra == seen@.skip(limit as int),
                limit >= seen@.len() ==> extra == Seq::<KeyUsage>::empty(),
                limit <= i,
                i <= n || limit > n,
                limit > n ==> i == limit,
                count == i - limit,
                room == 32 - before.len(),
                seen@ == missing(state@.keys, before),
                seen@.no_duplicates(),
                forall|k: KeyUsage| #[trigger] seen@.contains(k) ==> !before.contains(k),
                before == old(self)@.keys,
                before.no_duplicates(),
                count <= room,
                self@.modifiers == old(self)@.modifiers,
                self@.keys == before + extra.take(count as int),
                self.wf(),
            decreases n - i,
        {
            proof {
                let key = seen@[i as int];
                assert(extra[count as int] == key);
                assert(extra.take(count + 1) =~= extra.take(count as int).push(key));
                assert(seen@.contains(key));
                if (before + extra.take(count as int)).contains(key) {
                    lemma_add_contains(before, extra.take(count as int), key);
                    let j = extra.take(count as int).index_of(key);
                    assert(seen@[limit + j] == seen@[i as int]);
                }
                assert((before + extra.take(count as int)).push(key) =~= before + extra.take(
                    count + 1,
                ));
            }
            match fixed::push(&mut self.keys, seen[i]) {
                Ok(_) => {},
                Err(_) => {
                    return Err(InputError::KeyCapacity);
                },
            }
            i += 1;
            count += 1;
        }
        assert(extra.take(count as int) =~= extra);
        Ok(count)
    }

    /// Whether the key is suppressed.
    pub fn contains_key(&self, key: KeyUsage) -> (r: bool)
        ensures
            r == self@.keys.contains(key),
    {
        holds(fixed::items(&self.keys), key)
    }

    fn release_key(&mut self, key: KeyUsage)
        ensures
            final(self)@.modifiers == old(self)@.modifiers,
            final(self)@.keys == old(self)@.keys.remove_value(key),
    {
        remove_key(&mut self.keys, key);
    }

    fn retain_pressed_by(&mut self, state: &PhysicalKeyboardState)
        ensures
            final(self)@ == suppressed_after(old(self)@, state@),
    {
        retain_keys(&mut self.keys, state.keys());
        self.modifiers = self.modifiers.intersection(state.modifiers);
    }
}

impl Default for KeyboardSuppression {
    fn default() -> (r: Self)
        ensures
            r@ == (KeysView { modifiers: ModifierState::of_mask(0), keys: seq![] }),
            r.wf(),
    {
        Self::new()
    }
}

/// What a host sees.
#[derive(Clone, Debug, PartialEq, Eq)]
pub struct VisibleKeyboardState {
    pub modifiers: ModifierState,
    pub(crate) keys: heapless::Vec<KeyUsage, PHYSICAL_KEYBOARD_KEY_CAPACITY>,
    pub(crate) truncated: bool,
}

impl View for VisibleKeyboardState {
    type V = KeysView;

    open(crate) spec fn view(&self) -> KeysView {
        KeysView { modifiers: self.modifiers, keys: keys_in_32(self.keys) }
    }
}

impl VisibleKeyboardState {
    /// Whether keys had to be left out.
    pub open(crate) spec fn cut_short(&self) -> bool {
        self.truncated
    }

    /// Whether the host sees nothing.
    pub fn is_empty(&self) -> (r: bool)
        ensures
            r == (self@.modifiers.mask() == 0 && self@.keys.len() == 0),
    {
        self.modifiers.is_empty() && fixed::items(&self.keys).len() == 0
    }

    /// The keys that the host sees.
    pub fn keys(&self) -> (r: &[KeyUsage])
        ensures
            r@ == self@.keys,
            r@.len() <= PHYSICAL_KEYBOARD_KEY_CAPACITY,
    {
        fixed::items(&self.keys)
    }

    /// Whether keys had to be left out.
    pub fn truncated(&self) -> (r: bool)
        ensures
            r == self.cut_short(),
    {
        self.truncated
    }
}

/// Once all that is held has been captured, a host sees nothing of it.
pub proof fn law_captured_is_hidden(held: KeysView)
    ensures
        visible(held, held).keys.len() == 0,
        visible(held, held).modifiers.mask() == 0,
{
    lemma_missing(held.keys, held.keys);
    if missing(held.keys, held.keys).len() > 0 {
        assert(missing(held.keys, held.keys).contains(missing(held.keys, held.keys)[0]));
    }
    let m = held.modifiers.mask();
    assert(m & !m == 0) by (bit_vector);
}

/// What a report does not say is held no longer, and what it says is.
pub proof fn law_held_is_what_was_reported(before: KeysView, now: KeysView, key: KeyUsage)
    ensures
        held_after(before, now).keys.contains(key) <==> now.keys.contains(key),
{
    lemma_kept(before.keys, now.keys);
    lemma_missing(now.keys, before.keys);
    lemma_add_contains(kept(before.keys, now.keys), missing(now.keys, before.keys), key);
}

/// A suppressed key stays suppressed until a report comes that does not say
/// it, and nothing becomes suppressed by a report.
pub proof fn law_suppressed_until_released(before: KeysView, now: KeysView, key: KeyUsage)
    ensures
        suppressed_after(before, now).keys.contains(key) <==> (before.keys.contains(key)
            && now.keys.contains(key)),
{
    lemma_kept(before.keys, now.keys);
}

/// A report of what is held changes nothing.
pub(crate) proof fn lemma_held_again(held: KeysView)
    ensures
        held_after(held, held) == held,
{
    let keys = held.keys;
    assert forall|i: int| 0 <= i < keys.len() implies keys.contains(#[trigger] keys[i]) by {}
    lemma_kept_all(keys, keys);
    lemma_missing(keys, keys);
    assert(missing(keys, keys).len() == 0) by {
        if missing(keys, keys).len() > 0 {
            assert(missing(keys, keys).contains(missing(keys, keys)[0]));
        }
    }
    assert(held_after(held, held).keys =~= keys);
}

/// What is suppressed and what is seen of what is held are not more than that.
pub(crate) proof fn lemma_room_to_suppress(held: Seq<KeyUsage>, hidden: Seq<KeyUsage>)
    requires
        hidden.no_duplicates(),
        forall|k: KeyUsage| #[trigger] hidden.contains(k) ==> held.contains(k),
    ensures
        hidden.len() + missing(held, hidden).len() <= held.len(),
{
    lemma_split_len(held, hidden);
    lemma_kept(held, hidden);
    lemma_contained_len(hidden, kept(held, hidden));
}

proof fn lemma_split_len(a: Seq<KeyUsage>, b: Seq<KeyUsage>)
    ensures
        kept(a, b).len() + missing(a, b).len() == a.len(),
    decreases a.len(),
{
    if a.len() > 0 {
        lemma_split_len(a.drop_last(), b);
    }
}

/// Once all that is seen beyond the first `limit` keys is suppressed, no more
/// than `limit` keys are seen.
pub proof fn law_no_more_than_the_limit_is_seen(
    held: Seq<KeyUsage>,
    hidden: Seq<KeyUsage>,
    limit: nat,
)
    requires
        held.no_duplicates(),
        limit < missing(held, hidden).len(),
    ensures
        missing(held, hidden + missing(held, hidden).skip(limit as int)).len() <= limit,
{
    let seen = missing(held, hidden);
    let rest = seen.skip(limit as int);
    let first = seen.take(limit as int);
    let left = missing(held, hidden + rest);
    lemma_missing(held, hidden);
    lemma_missing(held, hidden + rest);
    assert forall|k: KeyUsage| #[trigger] left.contains(k) implies first.contains(k) by {
        lemma_add_contains(hidden, rest, k);
        assert(!(hidden + rest).contains(k));
        assert(seen.contains(k));
        let i = seen.index_of(k);
        if i >= limit {
            assert(rest[i - limit] == k);
        } else {
            assert(first[i] == k);
        }
    }
    lemma_contained_len(left, first);
}

/// Reporting again what was reported before changes nothing.
pub proof fn law_same_report_changes_nothing(before: KeysView, now: KeysView)
    ensures
        held_after(held_after(before, now), now) == held_after(before, now),
{
    let held = held_after(before, now);
    assert forall|k: KeyUsage| #[trigger] held.keys.contains(k) <==> now.keys.contains(k) by {
        law_held_is_what_was_reported(before, now, k);
    }
    assert forall|i: int| 0 <= i < held.keys.len() implies now.keys.contains(
        #[trigger] held.keys[i],
    ) by {
        assert(held.keys.contains(held.keys[i]));
    }
    lemma_kept_all(held.keys, now.keys);
    lemma_missing(now.keys, held.keys);
    if missing(now.keys, held.keys).len() > 0 {
        assert(missing(now.keys, held.keys).contains(missing(now.keys, held.keys)[0]));
    }
    assert(held_after(held, now).keys =~= held.keys);
}

/// The modifiers' bits, in the order in which a report has them: each is twice
/// the one before, and those on the right follow those on the left.
pub proof fn law_order_of_the_modifiers()
    ensures
        Modifier::LeftCtrl.bit() == 1,
        Modifier::LeftShift.bit() == 2 * Modifier::LeftCtrl.bit(),
        Modifier::LeftAlt.bit() == 2 * Modifier::LeftShift.bit(),
        Modifier::LeftGui.bit() == 2 * Modifier::LeftAlt.bit(),
        Modifier::RightCtrl.bit() == 16 * Modifier::LeftCtrl.bit(),
        Modifier::RightShift.bit() == 16 * Modifier::LeftShift.bit(),
        Modifier::RightAlt.bit() == 16 * Modifier::LeftAlt.bit(),
        Modifier::RightGui.bit() == 16 * Modifier::LeftGui.bit(),
{
}

proof fn lemma_kept_in_order(a: Seq<KeyUsage>, b: Seq<KeyUsage>, i: int, j: int) -> (r: (int, int))
    requires
        0 <= i < j < a.len(),
        b.contains(a[i]),
        b.contains(a[j]),
    ensures
        0 <= r.0 < r.1 < kept(a, b).len(),
        kept(a, b)[r.0] == a[i],
        kept(a, b)[r.1] == a[j],
    decreases a.len(),
{
    let rest = a.drop_last();
    if j < rest.len() {
        lemma_kept_in_order(rest, b, i, j)
    } else {
        lemma_kept(rest, b);
        assert(rest[i] == a[i]);
        assert(kept(rest, b).contains(a[i]));
        (kept(rest, b).index_of(a[i]), kept(rest, b).len() as int)
    }
}

proof fn lemma_missing_in_order(a: Seq<KeyUsage>, b: Seq<KeyUsage>, i: int, j: int) -> (r: (
    int,
    int,
))
    requires
        0 <= i < j < a.len(),
        !b.contains(a[i]),
        !b.contains(a[j]),
    ensures
        0 <= r.0 < r.1 < missing(a, b).len(),
        missing(a, b)[r.0] == a[i],
        missing(a, b)[r.1] == a[j],
    decreases a.len(),
{
    let rest = a.drop_last();
    if j < rest.len() {
        lemma_missing_in_order(rest, b, i, j)
    } else {
        lemma_missing(rest, b);
        assert(rest[i] == a[i]);
        assert(missing(rest, b).contains(a[i]));
        (missing(rest, b).index_of(a[i]), missing(rest, b).len() as int)
    }
}

/// Whether one key stands before another.
pub open spec fn comes_before(keys: Seq<KeyUsage>, a: KeyUsage, b: KeyUsage) -> bool {
    exists|i: int, j: int|
        0 <= i < j < keys.len() && #[trigger] keys[i] == a && #[trigger] keys[j] == b
}

/// Keys that stay held stay in the order in which they were pressed, and keys
/// that are pressed now come after them, in the order of the report.
pub proof fn law_held_keys_keep_their_order(
    before: KeysView,
    now: KeysView,
    a: KeyUsage,
    b: KeyUsage,
)
    ensures
        comes_before(before.keys, a, b) && now.keys.contains(a) && now.keys.contains(b)
            ==> comes_before(held_after(before, now).keys, a, b),
        before.keys.contains(a) && now.keys.contains(a) && now.keys.contains(b)
            && !before.keys.contains(b) ==> comes_before(held_after(before, now).keys, a, b),
        comes_before(now.keys, a, b) && !before.keys.contains(a) && !before.keys.contains(b)
            ==> comes_before(held_after(before, now).keys, a, b),
{
    let k = kept(before.keys, now.keys);
    let m = missing(now.keys, before.keys);
    let held = held_after(before, now).keys;
    lemma_kept(before.keys, now.keys);
    lemma_missing(now.keys, before.keys);
    if comes_before(before.keys, a, b) && now.keys.contains(a) && now.keys.contains(b) {
        let (i, j) = choose|i: int, j: int|
            0 <= i < j < before.keys.len() && #[trigger] before.keys[i] == a
                && #[trigger] before.keys[j] == b;
        let r = lemma_kept_in_order(before.keys, now.keys, i, j);
        assert(held[r.0] == a && held[r.1] == b);
    }
    if before.keys.contains(a) && now.keys.contains(a) && now.keys.contains(b)
        && !before.keys.contains(b) {
        assert(k.contains(a) && m.contains(b));
        let i = k.index_of(a);
        let j = k.len() + m.index_of(b);
        assert(held[i] == a && held[j] == b);
    }
    if comes_before(now.keys, a, b) && !before.keys.contains(a) && !before.keys.contains(b) {
        let (i, j) = choose|i: int, j: int|
            0 <= i < j < now.keys.len() && #[trigger] now.keys[i] == a
                && #[trigger] now.keys[j] == b;
        let r = lemma_missing_in_order(now.keys, before.keys, i, j);
        assert(held[k.len() + r.0] == a && held[k.len() + r.1] == b);
    }
}

} // verus!
