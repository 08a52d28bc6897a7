//! The fixed-capacity vectors of `heapless`, with what each of them holds.
//!
//! `heapless::Vec` is opaque here. What a vector holds has a name of its own
//! for each element type and capacity in use, and `Listed` gathers these names
//! so that one statement of each method serves all of them.

use vstd::prelude::*;

use crate::bridge::UsbHidInterfaceRegistration;
use crate::domain::destination::Destination;
use crate::domain::input_profile::InputProfile;
use crate::ids::InterfaceId;
use crate::input::keyboard::KeyUsage;
use crate::link::composite::ReportIdMapping;
use crate::reports::BleHidNotification;

verus! {

/// `heapless::Vec`, as an opaque type.
#[verifier::external_type_specification]
#[verifier::external_body]
#[verifier::reject_recursive_types(T)]
pub struct ExFixedVec<T, const N: usize>(heapless::Vec<T, N>);

/// `heapless::Vec`'s `Clone`, for the derived `Clone` of the types that hold
/// such a vector. Nothing is claimed of the copy.
pub assume_specification<T, const N: usize>[ <heapless::Vec<T, N> as Clone>::clone ](
    v: &heapless::Vec<T, N>,
) -> heapless::Vec<T, N> where T: Clone
;

/// What a fixed-capacity vector holds, front to back.
pub trait Listed<T> {
    /// The items, front to back.
    spec fn listed(&self) -> Seq<T>;
}

/// The bytes in a management payload.
pub uninterp spec fn bytes_in_512(v: heapless::Vec<u8, 512>) -> Seq<u8>;

/// The bytes in a management frame.
pub uninterp spec fn bytes_in_524(v: heapless::Vec<u8, 524>) -> Seq<u8>;

/// The bytes in a framed management stream.
pub uninterp spec fn bytes_in_528(v: heapless::Vec<u8, 528>) -> Seq<u8>;

/// The bytes in a composite report descriptor.
pub uninterp spec fn bytes_in_8208(v: heapless::Vec<u8, 8208>) -> Seq<u8>;

impl Listed<u8> for heapless::Vec<u8, 8208> {
    open spec fn listed(&self) -> Seq<u8> {
        bytes_in_8208(*self)
    }
}

/// `heapless::Vec::new`: an empty vector.
#[verifier::external_body]
pub(crate) fn new_8208() -> (r: heapless::Vec<u8, 8208>)
    ensures
        bytes_in_8208(r) == Seq::<u8>::empty(),
{
    heapless::Vec::new()
}

/// The report ids of one interface.
pub uninterp spec fn bytes_in_255(v: heapless::Vec<u8, 255>) -> Seq<u8>;

impl Listed<u8> for heapless::Vec<u8, 255> {
    open spec fn listed(&self) -> Seq<u8> {
        bytes_in_255(*self)
    }
}

/// `heapless::Vec::new`: an empty vector.
#[verifier::external_body]
pub(crate) fn new_255() -> (r: heapless::Vec<u8, 255>)
    ensures
        bytes_in_255(r) == Seq::<u8>::empty(),
{
    heapless::Vec::new()
}

/// The report id mappings of a composite device.
pub uninterp spec fn mappings_in_255(v: heapless::Vec<ReportIdMapping, 255>) -> Seq<ReportIdMapping>;

impl Listed<ReportIdMapping> for heapless::Vec<ReportIdMapping, 255> {
    open spec fn listed(&self) -> Seq<ReportIdMapping> {
        mappings_in_255(*self)
    }
}

/// `heapless::Vec::new`: an empty vector.
#[verifier::external_body]
pub(crate) fn new_mappings() -> (r: heapless::Vec<ReportIdMapping, 255>)
    ensures
        mappings_in_255(r) == Seq::<ReportIdMapping>::empty(),
{
    heapless::Vec::new()
}

/// The interfaces of a composite device.
pub uninterp spec fn interfaces_in_8(v: heapless::Vec<InterfaceId, 8>) -> Seq<InterfaceId>;

impl Listed<InterfaceId> for heapless::Vec<InterfaceId, 8> {
    open spec fn listed(&self) -> Seq<InterfaceId> {
        interfaces_in_8(*self)
    }
}

/// `heapless::Vec::new`: an empty vector.
#[verifier::external_body]
pub(crate) fn new_interfaces() -> (r: heapless::Vec<InterfaceId, 8>)
    ensures
        interfaces_in_8(r) == Seq::<InterfaceId>::empty(),
{
    heapless::Vec::new()
}

/// The bytes of a scheduled report.
pub uninterp spec fn bytes_in_256(v: heapless::Vec<u8, 256>) -> Seq<u8>;

impl Listed<u8> for heapless::Vec<u8, 256> {
    open spec fn listed(&self) -> Seq<u8> {
        bytes_in_256(*self)
    }
}

/// `heapless::Vec::new`: an empty vector.
#[verifier::external_body]
pub(crate) fn new_256() -> (r: heapless::Vec<u8, 256>)
    ensures
        bytes_in_256(r) == Seq::<u8>::empty(),
{
    heapless::Vec::new()
}

/// The notifications of a report.
pub uninterp spec fn notifications_in_1(v: heapless::Vec<BleHidNotification, 1>) -> Seq<BleHidNotification>;

impl Listed<BleHidNotification> for heapless::Vec<BleHidNotification, 1> {
    open spec fn listed(&self) -> Seq<BleHidNotification> {
        notifications_in_1(*self)
    }
}

/// `heapless::Vec::new`: an empty vector.
#[verifier::external_body]
pub(crate) fn new_notifications() -> (r: heapless::Vec<BleHidNotification, 1>)
    ensures
        notifications_in_1(r) == Seq::<BleHidNotification>::empty(),
{
    heapless::Vec::new()
}

/// The bytes of a vendor report.
pub uninterp spec fn bytes_in_64(v: heapless::Vec<u8, 64>) -> Seq<u8>;

impl Listed<u8> for heapless::Vec<u8, 64> {
    open spec fn listed(&self) -> Seq<u8> {
        bytes_in_64(*self)
    }
}

/// `heapless::Vec::new`: an empty vector.
#[verifier::external_body]
pub(crate) fn new_64() -> (r: heapless::Vec<u8, 64>)
    ensures
        bytes_in_64(r) == Seq::<u8>::empty(),
{
    heapless::Vec::new()
}

/// The destinations that a registry holds.
pub uninterp spec fn destinations_in_8(v: heapless::Vec<Destination, 8>) -> Seq<Destination>;

impl Listed<Destination> for heapless::Vec<Destination, 8> {
    open spec fn listed(&self) -> Seq<Destination> {
        destinations_in_8(*self)
    }
}

/// `heapless::Vec::new`: an empty vector.
#[verifier::external_body]
pub(crate) fn new_destinations() -> (r: heapless::Vec<Destination, 8>)
    ensures
        destinations_in_8(r) == Seq::<Destination>::empty(),
{
    heapless::Vec::new()
}

/// The profiles that a registry holds.
pub uninterp spec fn profiles_in_8(v: heapless::Vec<InputProfile, 8>) -> Seq<InputProfile>;

impl Listed<InputProfile> for heapless::Vec<InputProfile, 8> {
    open spec fn listed(&self) -> Seq<InputProfile> {
        profiles_in_8(*self)
    }
}

/// `heapless::Vec::new`: an empty vector.
#[verifier::external_body]
pub(crate) fn new_profiles() -> (r: heapless::Vec<InputProfile, 8>)
    ensures
        profiles_in_8(r) == Seq::<InputProfile>::empty(),
{
    heapless::Vec::new()
}

/// The interfaces that are connected.
pub uninterp spec fn registrations_in_8(v: heapless::Vec<UsbHidInterfaceRegistration, 8>) -> Seq<UsbHidInterfaceRegistration>;

impl Listed<UsbHidInterfaceRegistration> for heapless::Vec<UsbHidInterfaceRegistration, 8> {
    open spec fn listed(&self) -> Seq<UsbHidInterfaceRegistration> {
        registrations_in_8(*self)
    }
}

/// `heapless::Vec::new`: an empty vector.
#[verifier::external_body]
pub(crate) fn new_registrations() -> (r: heapless::Vec<UsbHidInterfaceRegistration, 8>)
    ensures
        registrations_in_8(r) == Seq::<UsbHidInterfaceRegistration>::empty(),
{
    heapless::Vec::new()
}

/// The keys in a keyboard state.
pub uninterp spec fn keys_in_32(v: heapless::Vec<KeyUsage, 32>) -> Seq<KeyUsage>;

impl Listed<KeyUsage> for heapless::Vec<KeyUsage, 32> {
    open spec fn listed(&self) -> Seq<KeyUsage> {
        keys_in_32(*self)
    }
}

/// `heapless::Vec::new`: an empty vector.
#[verifier::external_body]
pub(crate) fn new_keys() -> (r: heapless::Vec<KeyUsage, 32>)
    ensures
        keys_in_32(r) == Seq::<KeyUsage>::empty(),
{
    heapless::Vec::new()
}

impl Listed<u8> for heapless::Vec<u8, 512> {
    open spec fn listed(&self) -> Seq<u8> {
        bytes_in_512(*self)
    }
}

impl Listed<u8> for heapless::Vec<u8, 524> {
    open spec fn listed(&self) -> Seq<u8> {
        bytes_in_524(*self)
    }
}

impl Listed<u8> for heapless::Vec<u8, 528> {
    open spec fn listed(&self) -> Seq<u8> {
        bytes_in_528(*self)
    }
}

/// `heapless::Vec::new`: an empty vector.
#[verifier::external_body]
pub(crate) fn new_512() -> (r: heapless::Vec<u8, 512>)
    ensures
        bytes_in_512(r) == Seq::<u8>::empty(),
{
    heapless::Vec::new()
}

/// `heapless::Vec::new`: an empty vector.
#[verifier::external_body]
pub(crate) fn new_524() -> (r: heapless::Vec<u8, 524>)
    ensures
        bytes_in_524(r) == Seq::<u8>::empty(),
{
    heapless::Vec::new()
}

/// `heapless::Vec::new`: an empty vector.
#[verifier::external_body]
pub(crate) fn new_528() -> (r: heapless::Vec<u8, 528>)
    ensures
        bytes_in_528(r) == Seq::<u8>::empty(),
{
    heapless::Vec::new()
}

/// `heapless::Vec::push`: the item goes to the back, or comes back where the
/// vector is full, which then stays as it was.
#[verifier::external_body]
pub(crate) fn push<T, const N: usize>(v: &mut heapless::Vec<T, N>, item: T) -> (r: Result<(), T>)
    where heapless::Vec<T, N>: Listed<T>
    ensures
        (N > old(v).listed().len()) ==> (r is Ok && final(v).listed() == old(v).listed().push(item)),
        (N <= old(v).listed().len()) ==> (r == Err::<(), T>(item) && *final(v) == *old(v)),
{
    v.push(item)
}

/// `heapless::Vec::extend_from_slice`: all of the bytes go to the back, or,
/// where they do not all fit, none.
#[verifier::external_body]
pub(crate) fn extend<const N: usize>(v: &mut heapless::Vec<u8, N>, bytes: &[u8]) -> (r: Result<
    (),
    (),
>)
    where heapless::Vec<u8, N>: Listed<u8>
    ensures
        (N >= old(v).listed().len() + bytes@.len()) ==> (r is Ok && final(v).listed() == old(v).listed() + bytes@),
        (N < old(v).listed().len() + bytes@.len()) ==> (r is Err && *final(v) == *old(v)),
{
    v.extend_from_slice(bytes)
}

/// `heapless::Vec::as_slice`: the items, of which there are at most as many as
/// the capacity.
#[verifier::external_body]
pub(crate) fn items<T, const N: usize>(v: &heapless::Vec<T, N>) -> (r: &[T])
    where heapless::Vec<T, N>: Listed<T>
    ensures
        r@ == v.listed(),
        r@.len() <= N,
{
    v.as_slice()
}

/// `heapless::Vec`'s `IndexMut`, through its slice: one item is replaced.
#[verifier::external_body]
pub(crate) fn set<T, const N: usize>(v: &mut heapless::Vec<T, N>, index: usize, item: T)
    where heapless::Vec<T, N>: Listed<T>
    requires
        index < old(v).listed().len(),
    ensures
        final(v).listed() == old(v).listed().update(index as int, item),
{
    v[index] = item;
}

/// `heapless::Vec`'s `IndexMut`, through its slice: one item, to be changed.
#[verifier::external_body]
pub(crate) fn item_mut<T, const N: usize>(v: &mut heapless::Vec<T, N>, index: usize) -> (r: &mut T)
    where heapless::Vec<T, N>: Listed<T>
    requires
        index < old(v).listed().len(),
    ensures
        *r == old(v).listed()[index as int],
        final(v).listed() == old(v).listed().update(index as int, *final(r)),
{
    &mut v[index]
}

/// `heapless::Vec::remove`: one item leaves, and those behind it move up.
#[verifier::external_body]
pub(crate) fn remove<T, const N: usize>(v: &mut heapless::Vec<T, N>, index: usize) -> (r: T)
    where heapless::Vec<T, N>: Listed<T>
    requires
        index < old(v).listed().len(),
    ensures
        r == old(v).listed()[index as int],
        final(v).listed() == old(v).listed().remove(index as int),
{
    v.remove(index)
}

/// `heapless::Vec::swap_remove`: one item leaves, and the last takes its place.
#[verifier::external_body]
pub(crate) fn swap_remove<T, const N: usize>(v: &mut heapless::Vec<T, N>, index: usize) -> (r: T)
    where heapless::Vec<T, N>: Listed<T>
    requires
        index < old(v).listed().len(),
    ensures
        r == old(v).listed()[index as int],
        final(v).listed() == old(v).listed().update(index as int, old(v).listed().last()).drop_last(),
{
    v.swap_remove(index)
}

/// `heapless::Vec::clear`: nothing is left.
#[verifier::external_body]
pub(crate) fn clear<T, const N: usize>(v: &mut heapless::Vec<T, N>)
    where heapless::Vec<T, N>: Listed<T>
    ensures
        final(v).listed() == Seq::<T>::empty(),
{
    v.clear()
}

/// `heapless::Vec`'s `Clone`, where cloning an item copies it: a vector with
/// the same items.
#[verifier::external_body]
pub(crate) fn copy<T: Copy, const N: usize>(v: &heapless::Vec<T, N>) -> (r: heapless::Vec<T, N>)
    where heapless::Vec<T, N>: Listed<T>
    ensures
        r.listed() == v.listed(),
{
    v.clone()
}

} // verus!
