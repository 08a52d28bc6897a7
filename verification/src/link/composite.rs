//! Several HID interfaces behind one report descriptor.

use vstd::prelude::*;

use super::message::{MAX_HID_INTERFACES, MAX_HID_REPORT_DESCRIPTOR_SIZE, MAX_HID_REPORT_SIZE};
use crate::bytes::{part, write_at, write_front};
use crate::fixed;
use crate::fixed::{bytes_in_255, bytes_in_8208, interfaces_in_8, mappings_in_255};
use crate::ids::InterfaceId;

verus! {

/// The longest composite descriptor: all interfaces, each with two bytes more
/// than its own.
pub const COMPOSITE_DESCRIPTOR_MAX: usize = 8208;

/// The most report ids.
pub const REPORT_ID_MAPPING_MAX: usize = 255;

/// The report id that a report of an interface has in the composite device.
#[derive(Clone, Copy, Debug, PartialEq, Eq, Structural)]
pub struct ReportIdMapping {
    pub interface_id: InterfaceId,
    pub source_report_id: Option<u8>,
    pub composite_report_id: u8,
}

/// The report descriptor of a composite device and where its ids come from.
#[derive(Clone, Debug, PartialEq, Eq)]
pub struct CompositeDescriptor {
    descriptor: heapless::Vec<u8, COMPOSITE_DESCRIPTOR_MAX>,
    mappings: heapless::Vec<ReportIdMapping, REPORT_ID_MAPPING_MAX>,
    interfaces: heapless::Vec<InterfaceId, MAX_HID_INTERFACES>,
    next_report_id: u16,
}

/// Why an interface or a report was refused.
#[derive(Clone, Copy, Debug, PartialEq, Eq, Structural)]
pub enum CompositeDescriptorError {
    InterfaceCapacity,
    DuplicateInterface,
    DescriptorTooLarge,
    CompositeDescriptorCapacity,
    MalformedDescriptor,
    InvalidReportId,
    ReportIdCapacity,
    ReportTooLarge,
    UnknownInterface,
    UnknownReportId,
    OutputBufferTooSmall,
}

/// What a composite descriptor holds.
pub struct CompositeView {
    pub descriptor: Seq<u8>,
    pub mappings: Seq<ReportIdMapping>,
    pub interfaces: Seq<InterfaceId>,
}

impl View for CompositeDescriptor {
    type V = CompositeView;

    closed spec fn view(&self) -> CompositeView {
        CompositeView {
            descriptor: bytes_in_8208(self.descriptor),
            mappings: mappings_in_255(self.mappings),
            interfaces: interfaces_in_8(self.interfaces),
        }
    }
}

/// How long the descriptor item at `offset` is, if it is all there.
pub open spec fn item_len(source: Seq<u8>, offset: int) -> Option<int> {
    if offset >= source.len() {
        None
    } else {
        let prefix = source[offset];
        let len = if prefix == 0xfe {
            if offset + 1 >= source.len() {
                None
            } else {
                Some(3 + source[offset + 1] as int)
            }
        } else if prefix % 4 == 0 {
            Some(1int)
        } else if prefix % 4 == 1 {
            Some(2int)
        } else if prefix % 4 == 2 {
            Some(3int)
        } else {
            Some(5int)
        };
        if len is None || offset + len->0 > source.len() {
            None
        } else {
            len
        }
    }
}

/// The report ids from `offset` on, after those in `ids`, each once and in
/// order, or what is wrong with the descriptor. A short global item with tag 8
/// and one byte, whose prefix is 0x85, is a report id.
pub open spec fn report_ids(source: Seq<u8>, offset: int, ids: Seq<u8>) -> Result<
    Seq<u8>,
    CompositeDescriptorError,
>
    decreases source.len() - offset,
{
    if offset >= source.len() {
        Ok(ids)
    } else {
        match item_len(source, offset) {
            None => Err(CompositeDescriptorError::MalformedDescriptor),
            Some(len) => if source[offset] != 0x85 {
                report_ids(source, offset + len, ids)
            } else if source[offset + 1] == 0 {
                Err(CompositeDescriptorError::InvalidReportId)
            } else if ids.contains(source[offset + 1]) {
                report_ids(source, offset + len, ids)
            } else {
                report_ids(source, offset + len, ids.push(source[offset + 1]))
            },
        }
    }
}

/// A descriptor from `offset` on with its report ids replaced: the id that is
/// number `i` in `ids` by `base + i`.
pub open spec fn remapped(source: Seq<u8>, offset: int, ids: Seq<u8>, base: int) -> Seq<u8>
    decreases source.len() - offset,
{
    if offset >= source.len() {
        seq![]
    } else {
        match item_len(source, offset) {
            None => seq![],
            Some(len) => (if source[offset] == 0x85 {
                seq![0x85u8, (base + ids.index_of(source[offset + 1])) as u8]
            } else {
                source.subrange(offset, offset + len)
            }) + remapped(source, offset + len, ids, base),
        }
    }
}

/// The mappings of an interface with the report ids `ids`, from `base` on.
pub open spec fn id_mappings(interface_id: InterfaceId, ids: Seq<u8>, base: int) -> Seq<
    ReportIdMapping,
> {
    Seq::new(
        ids.len(),
        |i: int|
            ReportIdMapping {
                interface_id,
                source_report_id: Some(ids[i]),
                composite_report_id: (base + i) as u8,
            },
    )
}

impl CompositeView {
    /// The next free report id: they are given out in order, from 1 on.
    pub open spec fn next_id(self) -> int {
        self.mappings.len() as int + 1
    }

    /// Why an interface is refused, where it is.
    pub open spec fn refusal(self, interface_id: InterfaceId, source: Seq<u8>) -> Option<
        CompositeDescriptorError,
    > {
        if source.len() > MAX_HID_REPORT_DESCRIPTOR_SIZE {
            Some(CompositeDescriptorError::DescriptorTooLarge)
        } else if self.interfaces.contains(interface_id) {
            Some(CompositeDescriptorError::DuplicateInterface)
        } else {
            match report_ids(source, 0, seq![]) {
                Err(error) => Some(error),
                Ok(ids) => if self.interfaces.len() == MAX_HID_INTERFACES {
                    Some(CompositeDescriptorError::InterfaceCapacity)
                } else if self.mappings.len() + (if ids.len() == 0 {
                    1
                } else {
                    ids.len()
                }) > REPORT_ID_MAPPING_MAX {
                    Some(CompositeDescriptorError::ReportIdCapacity)
                } else if self.descriptor.len() + source.len() + (if ids.len() == 0 {
                    2int
                } else {
                    0
                }) > COMPOSITE_DESCRIPTOR_MAX {
                    Some(CompositeDescriptorError::CompositeDescriptorCapacity)
                } else {
                    None
                },
            }
        }
    }

    /// The composite with one more interface. One without report ids gets an
    /// id of its own in front, the ids of any other are replaced.
    pub open spec fn with_interface(
        self,
        interface_id: InterfaceId,
        source: Seq<u8>,
    ) -> CompositeView {
        let ids = report_ids(source, 0, seq![])->Ok_0;
        let base = self.next_id();
        if ids.len() == 0 {
            CompositeView {
                descriptor: self.descriptor + seq![0x85u8, base as u8] + source,
                mappings: self.mappings.push(
                    ReportIdMapping {
                        interface_id,
                        source_report_id: None,
                        composite_report_id: base as u8,
                    },
                ),
                interfaces: self.interfaces.push(interface_id),
            }
        } else {
            CompositeView {
                descriptor: self.descriptor + remapped(source, 0, ids, base),
                mappings: self.mappings + id_mappings(interface_id, ids, base),
                interfaces: self.interfaces.push(interface_id),
            }
        }
    }

    /// Mappings have the ids from 1 on, belong to known interfaces, and no
    /// report of an interface has two. An interface has either one mapping for
    /// reports without an id or mappings for reports with one.
    pub open spec fn wf(self) -> bool {
        &&& self.mappings.len() <= REPORT_ID_MAPPING_MAX
        &&& self.interfaces.len() <= MAX_HID_INTERFACES
        &&& self.descriptor.len() <= COMPOSITE_DESCRIPTOR_MAX
        &&& forall|i: int|
            0 <= i < self.mappings.len() ==> (#[trigger] self.mappings[i]).composite_report_id == i
                + 1 && self.interfaces.contains(self.mappings[i].interface_id)
        &&& forall|i: int, j: int|
            0 <= i < j < self.mappings.len() && (#[trigger] self.mappings[i]).interface_id == (
            #[trigger] self.mappings[j]).interface_id ==> self.mappings[i].source_report_id is Some
                && self.mappings[j].source_report_id is Some && self.mappings[i].source_report_id
                != self.mappings[j].source_report_id
    }

    /// The report of an interface as the composite device sends it, or why it
    /// does not. The interface's reports get the id in front where they have
    /// none of their own, and another id in its place where they have.
    pub open spec fn outgoing(self, interface_id: InterfaceId, report: Seq<u8>) -> Result<
        Seq<u8>,
        CompositeDescriptorError,
    > {
        if report.len() > MAX_HID_REPORT_SIZE {
            Err(CompositeDescriptorError::ReportTooLarge)
        } else {
            match first_mapping(self.mappings, interface_id) {
                None => Err(CompositeDescriptorError::UnknownInterface),
                Some(first) => if first.source_report_id is None {
                    Ok(seq![first.composite_report_id] + report)
                } else if report.len() == 0 {
                    Err(CompositeDescriptorError::UnknownReportId)
                } else {
                    match mapping_of(self.mappings, interface_id, report[0]) {
                        None => Err(CompositeDescriptorError::UnknownReportId),
                        Some(mapping) => Ok(report.update(0, mapping.composite_report_id)),
                    }
                },
            }
        }
    }

    /// The interface, the report id there and the report that a report to the
    /// composite device is for, or why there is none.
    pub open spec fn incoming(self, report: Seq<u8>) -> Result<
        (InterfaceId, Option<u8>, Seq<u8>),
        CompositeDescriptorError,
    > {
        if report.len() == 0 {
            Err(CompositeDescriptorError::UnknownReportId)
        } else {
            match mapping_to(self.mappings, report[0]) {
                None => Err(CompositeDescriptorError::UnknownReportId),
                Some(mapping) => match mapping.source_report_id {
                    None => Ok((mapping.interface_id, None, report.skip(1))),
                    Some(id) => Ok((mapping.interface_id, Some(id), report.update(0, id))),
                },
            }
        }
    }
}

/// The first mapping of an interface.
pub open spec fn first_mapping(
    mappings: Seq<ReportIdMapping>,
    interface_id: InterfaceId,
) -> Option<ReportIdMapping>
    decreases mappings.len(),
{
    if mappings.len() == 0 {
        None
    } else if mappings[0].interface_id == interface_id {
        Some(mappings[0])
    } else {
        first_mapping(mappings.skip(1), interface_id)
    }
}

/// The first mapping of a report id of an interface.
pub open spec fn mapping_of(
    mappings: Seq<ReportIdMapping>,
    interface_id: InterfaceId,
    source_id: u8,
) -> Option<ReportIdMapping>
    decreases mappings.len(),
{
    if mappings.len() == 0 {
        None
    } else if mappings[0].interface_id == interface_id && mappings[0].source_report_id == Some(
        source_id,
    ) {
        Some(mappings[0])
    } else {
        mapping_of(mappings.skip(1), interface_id, source_id)
    }
}

/// The first mapping to a composite report id.
pub open spec fn mapping_to(mappings: Seq<ReportIdMapping>, composite_id: u8) -> Option<
    ReportIdMapping,
>
    decreases mappings.len(),
{
    if mappings.len() == 0 {
        None
    } else if mappings[0].composite_report_id == composite_id {
        Some(mappings[0])
    } else {
        mapping_to(mappings.skip(1), composite_id)
    }
}

proof fn lemma_report_ids(source: Seq<u8>, offset: int, ids: Seq<u8>)
    requires
        0 <= offset,
        ids.no_duplicates(),
        forall|i: int| 0 <= i < ids.len() ==> ids[i] != 0,
        report_ids(source, offset, ids) is Ok,
    ensures
        ({
            let all = report_ids(source, offset, ids)->Ok_0;
            &&& ids.len() <= all.len()
            &&& all.take(ids.len() as int) == ids
            &&& all.no_duplicates()
            &&& forall|i: int| 0 <= i < all.len() ==> all[i] != 0
        }),
    decreases source.len() - offset,
{
    if offset >= source.len() {
        assert(ids.take(ids.len() as int) =~= ids);
    } else {
        let len = item_len(source, offset)->0;
        let id = source[offset + 1];
        if source[offset] == 0x85 && !ids.contains(id) {
            let more = ids.push(id);
            assert(more.no_duplicates());
            lemma_report_ids(source, offset + len, more);
            let all = report_ids(source, offset + len, more)->Ok_0;
            assert(all.take(ids.len() as int) =~= all.take(more.len() as int).take(
                ids.len() as int,
            ));
            assert(more.take(ids.len() as int) =~= ids);
        } else {
            lemma_report_ids(source, offset + len, ids);
        }
    }
}

/// Different numbers other than zero, each of one byte, are no more than 255.
proof fn lemma_few_ids(ids: Seq<u8>)
    requires
        ids.no_duplicates(),
        forall|i: int| 0 <= i < ids.len() ==> ids[i] != 0,
    ensures
        ids.len() <= 255,
{
    let all = vstd::set_lib::set_int_range(1, 256);
    vstd::set_lib::lemma_int_range(1, 256);
    let numbers = ids.map_values(|x: u8| x as int);
    assert(numbers.no_duplicates());
    numbers.unique_seq_to_set();
    assert(numbers.to_set().subset_of(all)) by {
        assert forall|x: int| numbers.to_set().contains(x) implies all.contains(x) by {
            let i = numbers.index_of(x);
            assert(numbers[i] == x);
            assert(ids[i] as int == x);
        }
    }
    vstd::set_lib::lemma_len_subset(numbers.to_set(), all);
}

fn hid_item_len(source: &[u8], offset: usize) -> (r: Result<usize, CompositeDescriptorError>)
    requires
        offset < source@.len(),
    ensures
        item_len(source@, offset as int) is Some ==> r is Ok && r->Ok_0 == item_len(
            source@,
            offset as int,
        )->0,
        item_len(source@, offset as int) is None ==> r is Err && r->Err_0
            == CompositeDescriptorError::MalformedDescriptor,
{
    let n: usize = source.len();
    let prefix: u8 = source[offset];
    let len: usize = if prefix == 0xfe {
        if offset + 1 >= n {
            return Err(CompositeDescriptorError::MalformedDescriptor);
        }
        3 + source[offset + 1] as usize
    } else {
        match prefix % 4 {
            0 => 1,
            1 => 2,
            2 => 3,
            _ => 5,
        }
    };
    if len > n - offset {
        return Err(CompositeDescriptorError::MalformedDescriptor);
    }
    Ok(len)
}

fn is_report_id_item(prefix: u8) -> (r: bool)
    ensures
        r == (prefix == 0x85),
{
    prefix == 0x85
}

fn has_byte(bytes: &[u8], byte: u8) -> (r: bool)
    ensures
        r == bytes@.contains(byte),
{
    let mut i: usize = 0;
    while i < bytes.len()
        invariant
            i <= bytes@.len(),
            forall|j: int| 0 <= j < i ==> bytes@[j] != byte,
        decreases bytes@.len() - i,
    {
        if bytes[i] == byte {
            assert(bytes@[i as int] == byte);
            return true;
        }
        i += 1;
    }
    false
}

fn validate_and_count_report_ids(source: &[u8]) -> (r: Result<usize, CompositeDescriptorError>)
    ensures
        report_ids(source@, 0, seq![]) is Ok ==> r is Ok && r->Ok_0 == report_ids(
            source@,
            0,
            seq![],
        )->Ok_0.len(),
        report_ids(source@, 0, seq![]) is Err ==> r is Err && r->Err_0 == report_ids(
            source@,
            0,
            seq![],
        )->Err_0,
{
    let mut offset: usize = 0;
    let mut ids = fixed::new_255();
    while offset < source.len()
        invariant
            offset <= source@.len(),
            bytes_in_255(ids).no_duplicates(),
            forall|i: int| 0 <= i < bytes_in_255(ids).len() ==> bytes_in_255(ids)[i] != 0,
            report_ids(source@, offset as int, bytes_in_255(ids)) == report_ids(
                source@,
                0,
                seq![],
            ),
        decreases source@.len() - offset,
    {
        let len: usize = match hid_item_len(source, offset) {
            Ok(len) => len,
            Err(error) => {
                return Err(error);
            },
        };
        if is_report_id_item(source[offset]) {
            let id: u8 = source[offset + 1];
            if id == 0 {
                return Err(CompositeDescriptorError::InvalidReportId);
            }
            if !has_byte(fixed::items(&ids), id) {
                proof {
                    let more = bytes_in_255(ids).push(id);
                    assert(more.no_duplicates());
                    lemma_few_ids(more);
                }
                match fixed::push(&mut ids, id) {
                    Ok(_) => {},
                    Err(_) => {
                        return Err(CompositeDescriptorError::ReportIdCapacity);
                    },
                }
            }
        }
        offset += len;
    }
    Ok(fixed::items(&ids).len())
}

fn find_first(mappings: &[ReportIdMapping], interface_id: InterfaceId) -> (r: Option<
    ReportIdMapping,
>)
    ensures
        r == first_mapping(mappings@, interface_id),
{
    let mut i: usize = 0;
    assert(mappings@.skip(0) =~= mappings@);
    while i < mappings.len()
        invariant
            i <= mappings@.len(),
            first_mapping(mappings@.skip(i as int), interface_id) == first_mapping(
                mappings@,
                interface_id,
            ),
        decreases mappings@.len() - i,
    {
        assert(mappings@.skip(i as int).skip(1) =~= mappings@.skip(i + 1));
        if mappings[i].interface_id == interface_id {
            return Some(mappings[i]);
        }
        i += 1;
    }
    None
}

fn find_source(mappings: &[ReportIdMapping], interface_id: InterfaceId, source_id: u8) -> (r:
    Option<ReportIdMapping>)
    ensures
        r == mapping_of(mappings@, interface_id, source_id),
{
    let mut i: usize = 0;
    assert(mappings@.skip(0) =~= mappings@);
    while i < mappings.len()
        invariant
            i <= mappings@.len(),
            mapping_of(mappings@.skip(i as int), interface_id, source_id) == mapping_of(
                mappings@,
                interface_id,
                source_id,
            ),
        decreases mappings@.len() - i,
    {
        assert(mappings@.skip(i as int).skip(1) =~= mappings@.skip(i + 1));
        let mapping = mappings[i];
        let is_source = match mapping.source_report_id {
            Some(id) => id == source_id,
            None => false,
        };
        if mapping.interface_id == interface_id && is_source {
            return Some(mapping);
        }
        i += 1;
    }
    None
}

fn find_composite(mappings: &[ReportIdMapping], composite_id: u8) -> (r: Option<ReportIdMapping>)
    ensures
        r == mapping_to(mappings@, composite_id),
{
    let mut i: usize = 0;
    assert(mappings@.skip(0) =~= mappings@);
    while i < mappings.len()
        invariant
            i <= mappings@.len(),
            mapping_to(mappings@.skip(i as int), composite_id) == mapping_to(
                mappings@,
                composite_id,
            ),
        decreases mappings@.len() - i,
    {
        assert(mappings@.skip(i as int).skip(1) =~= mappings@.skip(i + 1));
        if mappings[i].composite_report_id == composite_id {
            return Some(mappings[i]);
        }
        i += 1;
    }
    None
}

proof fn lemma_mapping_at(mappings: Seq<ReportIdMapping>, i: int, interface_id: InterfaceId, id: u8)
    requires
        0 <= i < mappings.len(),
        mappings[i].interface_id == interface_id,
        mappings[i].source_report_id == Some(id),
        forall|j: int|
            0 <= j < i ==> !((#[trigger] mappings[j]).interface_id == interface_id
                && mappings[j].source_report_id == Some(id)),
    ensures
        mapping_of(mappings, interface_id, id) == Some(mappings[i]),
    decreases mappings.len(),
{
    if i > 0 {
        assert(!(mappings[0].interface_id == interface_id && mappings[0].source_report_id == Some(
            id,
        )));
        assert forall|j: int| 0 <= j < i - 1 implies !((#[trigger] mappings.skip(1)[j]).interface_id
            == interface_id && mappings.skip(1)[j].source_report_id == Some(id)) by {
            assert(mappings.skip(1)[j] == mappings[j + 1]);
        }
        lemma_mapping_at(mappings.skip(1), i - 1, interface_id, id);
    }
}

proof fn lemma_no_mapping(mappings: Seq<ReportIdMapping>, interface_id: InterfaceId, id: u8)
    requires
        forall|j: int|
            0 <= j < mappings.len() ==> !((#[trigger] mappings[j]).interface_id == interface_id
                && mappings[j].source_report_id == Some(id)),
    ensures
        mapping_of(mappings, interface_id, id) is None,
    decreases mappings.len(),
{
    if mappings.len() > 0 {
        assert(!(mappings[0].interface_id == interface_id && mappings[0].source_report_id == Some(
            id,
        )));
        assert forall|j: int| 0 <= j < mappings.len() - 1 implies !((
        #[trigger] mappings.skip(1)[j]).interface_id == interface_id
            && mappings.skip(1)[j].source_report_id == Some(id)) by {
            assert(mappings.skip(1)[j] == mappings[j + 1]);
        }
        lemma_no_mapping(mappings.skip(1), interface_id, id);
    }
}

proof fn lemma_mapping_is(mappings: Seq<ReportIdMapping>, interface_id: InterfaceId, id: u8) -> (i:
    int)
    requires
        mapping_of(mappings, interface_id, id) is Some,
    ensures
        0 <= i < mappings.len(),
        mapping_of(mappings, interface_id, id) == Some(mappings[i]),
        mappings[i].interface_id == interface_id,
        mappings[i].source_report_id == Some(id),
    decreases mappings.len(),
{
    if mappings[0].interface_id == interface_id && mappings[0].source_report_id == Some(id) {
        0
    } else {
        let i = lemma_mapping_is(mappings.skip(1), interface_id, id);
        i + 1
    }
}

proof fn lemma_first_is(mappings: Seq<ReportIdMapping>, interface_id: InterfaceId) -> (i: int)
    requires
        first_mapping(mappings, interface_id) is Some,
    ensures
        0 <= i < mappings.len(),
        first_mapping(mappings, interface_id) == Some(mappings[i]),
        mappings[i].interface_id == interface_id,
    decreases mappings.len(),
{
    if mappings[0].interface_id == interface_id {
        0
    } else {
        let i = lemma_first_is(mappings.skip(1), interface_id);
        i + 1
    }
}

proof fn lemma_mapping_to(mappings: Seq<ReportIdMapping>, base: int, i: int)
    requires
        0 <= base,
        0 <= i < mappings.len(),
        base + mappings.len() <= 255,
        forall|j: int|
            0 <= j < mappings.len() ==> (#[trigger] mappings[j]).composite_report_id == base + j
                + 1,
    ensures
        mapping_to(mappings, (base + i + 1) as u8) == Some(mappings[i]),
    decreases mappings.len(),
{
    assert(mappings[0].composite_report_id == base + 1);
    if i > 0 {
        assert forall|j: int| 0 <= j < mappings.len() - 1 implies (
        #[trigger] mappings.skip(1)[j]).composite_report_id == base + 1 + j + 1 by {
            assert(mappings.skip(1)[j] == mappings[j + 1]);
        }
        lemma_mapping_to(mappings.skip(1), base + 1, i - 1);
    }
}

impl CompositeDescriptor {
    /// The mappings are in order, and the next report id is the first that
    /// they leave.
    pub closed spec fn wf(&self) -> bool {
        &&& self@.wf()
        &&& self.next_report_id == self@.next_id()
    }

    /// What `wf` says of the view.
    pub proof fn lemma_wf(&self)
        requires
            self.wf(),
        ensures
            self@.wf(),
    {
    }

    /// A composite of no interface.
    pub fn new() -> (r: Self)
        ensures
            r.wf(),
            r@ == (CompositeView { descriptor: seq![], mappings: seq![], interfaces: seq![] }),
    {
        Self {
            descriptor: fixed::new_8208(),
            mappings: fixed::new_mappings(),
            interfaces: fixed::new_interfaces(),
            next_report_id: 1,
        }
    }

    /// Adds an interface with its report descriptor, or leaves everything as
    /// it was.
    pub fn add_interface(&mut self, interface_id: InterfaceId, source_descriptor: &[u8]) -> (r:
        Result<(), CompositeDescriptorError>)
        requires
            old(self).wf(),
        ensures
            final(self).wf(),
            old(self)@.refusal(interface_id, source_descriptor@) is Some ==> r == Err::<
                (),
                CompositeDescriptorError,
            >(old(self)@.refusal(interface_id, source_descriptor@)->0) && final(self)@ == old(
                self,
            )@,
            old(self)@.refusal(interface_id, source_descriptor@) is None ==> r is Ok && final(
                self)@ == old(self)@.with_interface(interface_id, source_descriptor@),
    {
        let source_len: usize = source_descriptor.len();
        if source_len > MAX_HID_REPORT_DESCRIPTOR_SIZE {
            return Err(CompositeDescriptorError::DescriptorTooLarge);
        }
        if self.has_interface(interface_id) {
            return Err(CompositeDescriptorError::DuplicateInterface);
        }
        let item_count: usize = match validate_and_count_report_ids(source_descriptor) {
            Ok(count) => count,
            Err(error) => {
                return Err(error);
            },
        };
        let ghost ids = report_ids(source_descriptor@, 0, seq![])->Ok_0;
        proof {
            lemma_report_ids(source_descriptor@, 0, seq![]);
            lemma_few_ids(ids);
        }
        let needed_mappings: usize = if item_count == 0 {
            1
        } else {
            item_count
        };
        if fixed::items(&self.interfaces).len() == MAX_HID_INTERFACES {
            return Err(CompositeDescriptorError::InterfaceCapacity);
        }
        if fixed::items(&self.mappings).len() + needed_mappings > REPORT_ID_MAPPING_MAX
            || self.next_report_id as usize + needed_mappings > 256 {
            return Err(CompositeDescriptorError::ReportIdCapacity);
        }
        let extra: usize = if item_count == 0 {
            2
        } else {
            0
        };
        if fixed::items(&self.descriptor).len() + source_len + extra > COMPOSITE_DESCRIPTOR_MAX {
            return Err(CompositeDescriptorError::CompositeDescriptorCapacity);
        }
        let ghost before = self@;
        if item_count == 0 {
            let assigned: u8 = self.allocate_report_id(interface_id, None);
            let _ = fixed::extend(&mut self.descriptor, &[0x85, assigned]);
            let _ = fixed::extend(&mut self.descriptor, source_descriptor);
            assert(bytes_in_8208(self.descriptor) =~= before.descriptor + seq![
                0x85u8,
                before.next_id() as u8,
            ] + source_descriptor@);
        } else {
            self.copy_and_remap_descriptor(interface_id, source_descriptor);
        }
        let _ = fixed::push(&mut self.interfaces, interface_id);
        proof {
            let after = self@;
            assert(after == before.with_interface(interface_id, source_descriptor@));
            lemma_interface_kept_wf(before, interface_id, source_descriptor@);
        }
        Ok(())
    }

    fn has_interface(&self, interface_id: InterfaceId) -> (r: bool)
        ensures
            r == self@.interfaces.contains(interface_id),
    {
        let interfaces = fixed::items(&self.interfaces);
        let mut i: usize = 0;
        while i < interfaces.len()
            invariant
                i <= interfaces@.len(),
                interfaces@ == self@.interfaces,
                forall|j: int| 0 <= j < i ==> interfaces@[j] != interface_id,
            decreases interfaces@.len() - i,
        {
            if interfaces[i] == interface_id {
                assert(self@.interfaces[i as int] == interface_id);
                return true;
            }
            i += 1;
        }
        false
    }

    /// The descriptor of the composite device.
    pub fn descriptor(&self) -> (r: &[u8])
        ensures
            r@ == self@.descriptor,
    {
        fixed::items(&self.descriptor)
    }

    /// The mappings, in the order of their composite ids.
    pub fn mappings(&self) -> (r: &[ReportIdMapping])
        ensures
            r@ == self@.mappings,
    {
        fixed::items(&self.mappings)
    }

    /// How many interfaces there are.
    pub fn interface_count(&self) -> (r: usize)
        ensures
            r == self@.interfaces.len(),
    {
        fixed::items(&self.interfaces).len()
    }

    /// Writes a report of an interface, as the composite device sends it, to
    /// the front of `out`.
    pub fn encode_input_report(
        &self,
        interface_id: InterfaceId,
        source_report: &[u8],
        out: &mut [u8],
    ) -> (r: Result<usize, CompositeDescriptorError>)
        ensures
            ({
                let sent = self@.outgoing(interface_id, source_report@);
                &&& sent is Err ==> r == Err::<usize, CompositeDescriptorError>(sent->Err_0)
                    && final(out)@ == old(out)@
                &&& sent is Ok && sent->Ok_0.len() > old(out)@.len() ==> r == Err::<
                    usize,
                    CompositeDescriptorError,
                >(CompositeDescriptorError::OutputBufferTooSmall) && final(out)@ == old(out)@
                &&& sent is Ok && sent->Ok_0.len() <= old(out)@.len() ==> r == Ok::<
                    usize,
                    CompositeDescriptorError,
                >(sent->Ok_0.len() as usize) && final(out)@ == sent->Ok_0 + old(out)@.skip(
                    sent->Ok_0.len() as int,
                )
            }),
    {
        if source_report.len() > MAX_HID_REPORT_SIZE {
            return Err(CompositeDescriptorError::ReportTooLarge);
        }
        let mappings = fixed::items(&self.mappings);
        let first = match find_first(mappings, interface_id) {
            Some(first) => first,
            None => {
                return Err(CompositeDescriptorError::UnknownInterface);
            },
        };
        match first.source_report_id {
            None => {
                if out.len() < source_report.len() + 1 {
                    return Err(CompositeDescriptorError::OutputBufferTooSmall);
                }
                let head: [u8; 1] = [first.composite_report_id];
                assert(head@ =~= seq![first.composite_report_id]);
                write_front(out, &head, source_report);
                Ok(source_report.len() + 1)
            },
            Some(_) => {
                if source_report.len() == 0 {
                    return Err(CompositeDescriptorError::UnknownReportId);
                }
                let mapping = match find_source(mappings, interface_id, source_report[0]) {
                    Some(mapping) => mapping,
                    None => {
                        return Err(CompositeDescriptorError::UnknownReportId);
                    },
                };
                if out.len() < source_report.len() {
                    return Err(CompositeDescriptorError::OutputBufferTooSmall);
                }
                write_at(out, 0, source_report);
                out[0] = mapping.composite_report_id;
                assert(out@ =~= source_report@.update(0, mapping.composite_report_id) + old(
                    out,
                )@.skip(source_report@.len() as int));
                Ok(source_report.len())
            },
        }
    }

    /// Writes what a report to the composite device is for its interface to
    /// the front of `out`, and says which interface and report id that is.
    pub fn decode_host_report(&self, composite_report: &[u8], out: &mut [u8]) -> (r: Result<
        (InterfaceId, Option<u8>, usize),
        CompositeDescriptorError,
    >)
        ensures
            ({
                let got = self@.incoming(composite_report@);
                &&& got is Err ==> r == Err::<
                    (InterfaceId, Option<u8>, usize),
                    CompositeDescriptorError,
                >(got->Err_0) && final(out)@ == old(out)@
                &&& got is Ok && got->Ok_0.2.len() > old(out)@.len() ==> r == Err::<
                    (InterfaceId, Option<u8>, usize),
                    CompositeDescriptorError,
                >(CompositeDescriptorError::OutputBufferTooSmall) && final(out)@ == old(out)@
                &&& got is Ok && got->Ok_0.2.len() <= old(out)@.len() ==> r == Ok::<
                    (InterfaceId, Option<u8>, usize),
                    CompositeDescriptorError,
                >((got->Ok_0.0, got->Ok_0.1, got->Ok_0.2.len() as usize)) && final(out)@
                    == got->Ok_0.2 + old(out)@.skip(got->Ok_0.2.len() as int)
            }),
    {
        let n: usize = composite_report.len();
        if n == 0 {
            return Err(CompositeDescriptorError::UnknownReportId);
        }
        let mapping = match find_composite(fixed::items(&self.mappings), composite_report[0]) {
            Some(mapping) => mapping,
            None => {
                return Err(CompositeDescriptorError::UnknownReportId);
            },
        };
        match mapping.source_report_id {
            None => {
                let source = part(composite_report, 1, n);
                assert(source@ =~= composite_report@.skip(1));
                if out.len() < source.len() {
                    return Err(CompositeDescriptorError::OutputBufferTooSmall);
                }
                write_at(out, 0, source);
                assert(out@ =~= source@ + old(out)@.skip(source@.len() as int));
                Ok((mapping.interface_id, None, source.len()))
            },
            Some(source_id) => {
                if out.len() < n {
                    return Err(CompositeDescriptorError::OutputBufferTooSmall);
                }
                write_at(out, 0, composite_report);
                out[0] = source_id;
                assert(out@ =~= composite_report@.update(0, source_id) + old(out)@.skip(n as int));
                Ok((mapping.interface_id, Some(source_id), n))
            },
        }
    }

    fn allocate_report_id(&mut self, interface_id: InterfaceId, source_report_id: Option<u8>) -> (r:
        u8)
        requires
            old(self).next_report_id == old(self)@.next_id(),
            old(self)@.mappings.len() < REPORT_ID_MAPPING_MAX,
        ensures
            r == old(self)@.next_id(),
            final(self).next_report_id == final(self)@.next_id(),
            final(self)@ == (CompositeView {
                mappings: old(self)@.mappings.push(
                    ReportIdMapping { interface_id, source_report_id, composite_report_id: r },
                ),
                ..old(self)@
            }),
    {
        let composite_report_id: u8 = self.next_report_id as u8;
        self.next_report_id += 1;
        let _ = fixed::push(
            &mut self.mappings,
            ReportIdMapping { interface_id, source_report_id, composite_report_id },
        );
        composite_report_id
    }

    fn copy_and_remap_descriptor(&mut self, interface_id: InterfaceId, source: &[u8])
        requires
            old(self).wf(),
            old(self)@.refusal(interface_id, source@) is None,
            report_ids(source@, 0, seq![])->Ok_0.len() > 0,
        ensures
            final(self).next_report_id == final(self)@.next_id(),
            ({
                let ids = report_ids(source@, 0, seq![])->Ok_0;
                let base = old(self)@.next_id();
                &&& final(self)@.descriptor == old(self)@.descriptor + remapped(
                    source@,
                    0,
                    ids,
                    base,
                )
                &&& final(self)@.mappings == old(self)@.mappings + id_mappings(
                    interface_id,
                    ids,
                    base,
                )
                &&& final(self)@.interfaces == old(self)@.interfaces
            }),
    {
        let ghost all = report_ids(source@, 0, seq![])->Ok_0;
        let ghost base = self@.next_id();
        let ghost before = self@;
        let ghost mut found = Seq::<u8>::empty();
        let ghost mut done = Seq::<u8>::empty();
        let mut offset: usize = 0;
        proof {
            lemma_report_ids(source@, 0, seq![]);
            assert(before.descriptor + done =~= before.descriptor);
            assert(before.mappings + id_mappings(interface_id, found, base) =~= before.mappings);
            assert(done + remapped(source@, 0, all, base) =~= remapped(source@, 0, all, base));
        }
        while offset < source.len()
            invariant
                before == old(self)@,
                before.wf(),
                base == before.next_id(),
                before.refusal(interface_id, source@) is None,
                offset <= source@.len(),
                all == report_ids(source@, 0, seq![])->Ok_0,
                all.len() > 0,
                all.no_duplicates(),
                found.no_duplicates(),
                forall|i: int| 0 <= i < found.len() ==> found[i] != 0,
                report_ids(source@, offset as int, found) == Ok::<
                    Seq<u8>,
                    CompositeDescriptorError,
                >(all),
                done.len() == offset,
                done + remapped(source@, offset as int, all, base) == remapped(
                    source@,
                    0,
                    all,
                    base,
                ),
                self.next_report_id == self@.next_id(),
                self@.descriptor == before.descriptor + done,
                self@.mappings == before.mappings + id_mappings(interface_id, found, base),
                self@.interfaces == before.interfaces,
            decreases source@.len() - offset,
        {
            proof {
                lemma_report_ids(source@, offset as int, found);
            }
            let len: usize = match hid_item_len(source, offset) {
                Ok(len) => len,
                Err(_) => {
                    return ;
                },
            };
            let prefix: u8 = source[offset];
            let _ = fixed::push(&mut self.descriptor, prefix);
            if is_report_id_item(prefix) {
                let source_id: u8 = source[offset + 1];
                proof {
                    lemma_lookup(before, interface_id, found, base, source_id);
                }
                let mapped: u8 = match find_source(
                    fixed::items(&self.mappings),
                    interface_id,
                    source_id,
                ) {
                    Some(existing) => {
                        proof {
                            lemma_prefix_index(found, all, source_id);
                        }
                        existing.composite_report_id
                    },
                    None => {
                        proof {
                            let more = found.push(source_id);
                            assert(more.no_duplicates());
                            lemma_report_ids(source@, offset + len, more);
                            assert(more[found.len() as int] == source_id);
                            lemma_prefix_index(more, all, source_id);
                            assert(more.index_of(source_id) == found.len()) by {
                                assert(more[found.len() as int] == source_id);
                                let i = more.index_of(source_id);
                                assert(more[i] == source_id);
                            }
                            assert(id_mappings(interface_id, more, base) =~= id_mappings(
                                interface_id,
                                found,
                                base,
                            ).push(
                                ReportIdMapping {
                                    interface_id,
                                    source_report_id: Some(source_id),
                                    composite_report_id: (base + found.len()) as u8,
                                },
                            ));
                            found = more;
                        }
                        let mapped: u8 = self.allocate_report_id(interface_id, Some(source_id));
                        assert(self@.mappings =~= before.mappings + id_mappings(
                            interface_id,
                            found,
                            base,
                        ));
                        mapped
                    },
                };
                let _ = fixed::push(&mut self.descriptor, mapped);
                proof {
                    let item = seq![0x85u8, (base + all.index_of(source_id)) as u8];
                    assert(mapped == (base + all.index_of(source_id)) as u8);
                    assert(self@.descriptor =~= before.descriptor + (done + item));
                    assert(done + (item + remapped(source@, offset + len, all, base)) =~= (done
                        + item) + remapped(source@, offset + len, all, base));
                    done = done + item;
                }
            } else {
                let _ = fixed::extend(
                    &mut self.descriptor,
                    part(source, offset + 1, offset + len),
                );
                proof {
                    let item = source@.subrange(offset as int, offset + len);
                    assert(self@.descriptor =~= before.descriptor + (done + item));
                    assert(done + (item + remapped(source@, offset + len, all, base)) =~= (done
                        + item) + remapped(source@, offset + len, all, base));
                    done = done + item;
                }
            }
            offset += len;
        }
        proof {
            lemma_report_ids(source@, offset as int, found);
            assert(done =~= remapped(source@, 0, all, base));
        }
    }
}

impl Default for CompositeDescriptor {
    fn default() -> (r: Self)
        ensures
            r.wf(),
            r@ == (CompositeView { descriptor: seq![], mappings: seq![], interfaces: seq![] }),
    {
        Self::new()
    }
}

proof fn lemma_prefix_index(front: Seq<u8>, all: Seq<u8>, id: u8)
    requires
        front.len() <= all.len(),
        all.take(front.len() as int) == front,
        all.no_duplicates(),
        front.contains(id),
    ensures
        all.index_of(id) == front.index_of(id),
{
    let i = front.index_of(id);
    assert(front[i] == id);
    assert(all[i] == all.take(front.len() as int)[i]);
    let j = all.index_of(id);
    assert(all[j] == id);
}

proof fn lemma_lookup(
    before: CompositeView,
    interface_id: InterfaceId,
    found: Seq<u8>,
    base: int,
    id: u8,
)
    requires
        before.wf(),
        !before.interfaces.contains(interface_id),
        base == before.next_id(),
        found.no_duplicates(),
    ensures
        ({
            let mappings = before.mappings + id_mappings(interface_id, found, base);
            &&& mapping_of(mappings, interface_id, id) is Some <==> found.contains(id)
            &&& found.contains(id) ==> mapping_of(mappings, interface_id, id)->0
                == (ReportIdMapping {
                interface_id,
                source_report_id: Some(id),
                composite_report_id: (base + found.index_of(id)) as u8,
            })
        }),
{
    let mappings = before.mappings + id_mappings(interface_id, found, base);
    let n = before.mappings.len();
    assert forall|j: int| 0 <= j < n implies (#[trigger] mappings[j]).interface_id
        != interface_id by {
        assert(mappings[j] == before.mappings[j]);
        assert(before.interfaces.contains(before.mappings[j].interface_id));
    }
    if found.contains(id) {
        let i = found.index_of(id);
        assert(mappings[n + i].source_report_id == Some(id));
        assert forall|j: int| 0 <= j < n + i implies !((#[trigger] mappings[j]).interface_id
            == interface_id && mappings[j].source_report_id == Some(id)) by {
            if j >= n {
                assert(found[j - n] != found[i]);
            }
        }
        lemma_mapping_at(mappings, n + i, interface_id, id);
    } else {
        assert forall|j: int| 0 <= j < mappings.len() implies !((
        #[trigger] mappings[j]).interface_id == interface_id && mappings[j].source_report_id
            == Some(id)) by {
            if j >= n {
                assert(found.contains(found[j - n]));
            }
        }
        lemma_no_mapping(mappings, interface_id, id);
    }
}

proof fn lemma_remapped_len(source: Seq<u8>, offset: int, found: Seq<u8>, all: Seq<u8>, base: int)
    requires
        0 <= offset <= source.len(),
        report_ids(source, offset, found) is Ok,
    ensures
        remapped(source, offset, all, base).len() == source.len() - offset,
    decreases source.len() - offset,
{
    if offset < source.len() {
        let len = item_len(source, offset)->0;
        let id = source[offset + 1];
        if source[offset] == 0x85 && !found.contains(id) {
            lemma_remapped_len(source, offset + len, found.push(id), all, base);
        } else {
            lemma_remapped_len(source, offset + len, found, all, base);
        }
    }
}

proof fn lemma_interface_kept_wf(before: CompositeView, interface_id: InterfaceId, source: Seq<u8>)
    requires
        before.wf(),
        before.refusal(interface_id, source) is None,
    ensures
        before.with_interface(interface_id, source).wf(),
{
    let ids = report_ids(source, 0, seq![])->Ok_0;
    let base = before.next_id();
    let after = before.with_interface(interface_id, source);
    let n = before.mappings.len();
    lemma_report_ids(source, 0, seq![]);
    lemma_few_ids(ids);
    lemma_remapped_len(source, 0, seq![], ids, base);
    assert(after.interfaces[before.interfaces.len() as int] == interface_id);
    assert forall|i: int| 0 <= i < after.mappings.len() implies (
    #[trigger] after.mappings[i]).composite_report_id == i + 1 && after.interfaces.contains(
        after.mappings[i].interface_id,
    ) by {
        if i < n {
            assert(after.mappings[i] == before.mappings[i]);
            let j = before.interfaces.index_of(before.mappings[i].interface_id);
            assert(after.interfaces[j] == before.mappings[i].interface_id);
        }
    }
    assert forall|i: int, j: int|
        0 <= i < j < after.mappings.len() && (#[trigger] after.mappings[i]).interface_id == (
        #[trigger] after.mappings[j]).interface_id implies after.mappings[i].source_report_id is Some
        && after.mappings[j].source_report_id is Some && after.mappings[i].source_report_id
        != after.mappings[j].source_report_id by {
        if j < n {
            assert(after.mappings[i] == before.mappings[i]);
            assert(after.mappings[j] == before.mappings[j]);
        } else if i < n {
            assert(after.mappings[i] == before.mappings[i]);
            assert(before.interfaces.contains(before.mappings[i].interface_id));
        } else {
            assert(ids[i - n] != ids[j - n]);
        }
    }
}

/// What an interface sends through the composite device comes back to the
/// interface as it was: a host that answers with the same bytes is understood.
pub proof fn law_reports_are_reversible(
    v: CompositeView,
    interface_id: InterfaceId,
    report: Seq<u8>,
)
    requires
        v.wf(),
        v.outgoing(interface_id, report) is Ok,
    ensures
        v.incoming(v.outgoing(interface_id, report)->Ok_0) is Ok,
        v.incoming(v.outgoing(interface_id, report)->Ok_0)->Ok_0.0 == interface_id,
        v.incoming(v.outgoing(interface_id, report)->Ok_0)->Ok_0.2 == report,
        v.incoming(v.outgoing(interface_id, report)->Ok_0)->Ok_0.1 is Some ==> report.len() > 0
            && v.incoming(v.outgoing(interface_id, report)->Ok_0)->Ok_0.1 == Some(report[0]),
{
    let sent = v.outgoing(interface_id, report)->Ok_0;
    let i = lemma_first_is(v.mappings, interface_id);
    if v.mappings[i].source_report_id is None {
        lemma_mapping_to(v.mappings, 0, i);
        assert(sent.skip(1) =~= report);
    } else {
        let k = lemma_mapping_is(v.mappings, interface_id, report[0]);
        lemma_mapping_to(v.mappings, 0, k);
        assert(sent.update(0, report[0]) =~= report);
    }
}

/// No two mappings share a composite report id, so that every report to the
/// composite device is for one report of one interface.
pub proof fn law_composite_ids_are_unique(v: CompositeView, i: int, j: int)
    requires
        v.wf(),
        0 <= i < v.mappings.len(),
        0 <= j < v.mappings.len(),
        v.mappings[i].composite_report_id == v.mappings[j].composite_report_id,
    ensures
        i == j,
{
}

/// Whether an item of the descriptor starts at `at`, where one starts at `from`.
pub open spec fn is_item(source: Seq<u8>, from: int, at: int) -> bool
    decreases source.len() - from,
{
    if from >= source.len() {
        false
    } else if from == at {
        true
    } else {
        match item_len(source, from) {
            None => false,
            Some(len) => is_item(source, from + len, at),
        }
    }
}

proof fn lemma_id_is_found(source: Seq<u8>, offset: int, found: Seq<u8>, at: int)
    requires
        0 <= offset,
        found.no_duplicates(),
        forall|i: int| 0 <= i < found.len() ==> found[i] != 0,
        report_ids(source, offset, found) is Ok,
        is_item(source, offset, at),
        source[at] == 0x85,
    ensures
        report_ids(source, offset, found)->Ok_0.contains(source[at + 1]),
    decreases source.len() - offset,
{
    let len = item_len(source, offset)->0;
    let id = source[offset + 1];
    let all = report_ids(source, offset, found)->Ok_0;
    let more = if source[offset] == 0x85 && !found.contains(id) {
        found.push(id)
    } else {
        found
    };
    if at == offset {
        assert(more.no_duplicates());
        assert(more.contains(id)) by {
            if !found.contains(id) {
                assert(more[found.len() as int] == id);
            }
        }
        lemma_report_ids(source, offset + len, more);
        let i = more.index_of(id);
        assert(all.take(more.len() as int)[i] == all[i]);
    } else {
        assert(more.no_duplicates());
        lemma_id_is_found(source, offset + len, more, at);
    }
}

proof fn lemma_remapped_at(
    source: Seq<u8>,
    offset: int,
    found: Seq<u8>,
    all: Seq<u8>,
    base: int,
    at: int,
)
    requires
        0 <= offset,
        report_ids(source, offset, found) is Ok,
        is_item(source, offset, at),
    ensures
        offset <= at < source.len(),
        item_len(source, at) is Some,
        ({
            let written = remapped(source, offset, all, base);
            let len = item_len(source, at)->0;
            &&& written.len() == source.len() - offset
            &&& source[at] == 0x85 ==> written[at - offset] == 0x85 && written[at - offset + 1] == (
            base + all.index_of(source[at + 1])) as u8
            &&& source[at] != 0x85 ==> forall|k: int|
                at <= k < at + len ==> written[k - offset] == #[trigger] source[k]
        }),
    decreases source.len() - offset,
{
    let len = item_len(source, offset)->0;
    let id = source[offset + 1];
    let written = remapped(source, offset, all, base);
    let rest = remapped(source, offset + len, all, base);
    lemma_remapped_len(source, offset, found, all, base);
    if at != offset {
        let more = if source[offset] == 0x85 && !found.contains(id) {
            found.push(id)
        } else {
            found
        };
        lemma_remapped_at(source, offset + len, more, all, base, at);
        assert forall|k: int| offset + len <= k < source.len() implies #[trigger] written[k
            - offset] == rest[k - (offset + len)] by {}
        assert(written[at - offset] == rest[at - (offset + len)]);
        if source[at] == 0x85 {
            assert(written[(at + 1) - offset] == rest[(at + 1) - (offset + len)]);
        }
    }
}

proof fn lemma_first_exists(mappings: Seq<ReportIdMapping>, interface_id: InterfaceId, i: int)
    requires
        0 <= i < mappings.len(),
        mappings[i].interface_id == interface_id,
    ensures
        first_mapping(mappings, interface_id) is Some,
    decreases mappings.len(),
{
    if mappings[0].interface_id != interface_id {
        assert(mappings.skip(1)[i - 1] == mappings[i]);
        lemma_first_exists(mappings.skip(1), interface_id, i - 1);
    }
}

/// The descriptor says under which ids the reports come: where the interface's own
/// descriptor names an id, the composite one names the id that the interface's
/// reports with it are sent under.
pub proof fn law_reports_come_under_the_announced_id(
    v: CompositeView,
    interface_id: InterfaceId,
    source: Seq<u8>,
    at: int,
    report: Seq<u8>,
)
    requires
        v.wf(),
        v.refusal(interface_id, source) is None,
        is_item(source, 0, at),
        source[at] == 0x85,
        0 < report.len() <= MAX_HID_REPORT_SIZE,
        report[0] == source[at + 1],
    ensures
        ({
            let after = v.with_interface(interface_id, source);
            let n = v.descriptor.len() as int;
            &&& after.descriptor.len() == n + source.len()
            &&& after.descriptor[n + at] == 0x85
            &&& after.outgoing(interface_id, report) == Ok::<Seq<u8>, CompositeDescriptorError>(
                seq![after.descriptor[n + at + 1]] + report.skip(1),
            )
        }),
{
    let ids = report_ids(source, 0, seq![])->Ok_0;
    let base = v.next_id();
    let after = v.with_interface(interface_id, source);
    let id = source[at + 1];
    lemma_report_ids(source, 0, seq![]);
    lemma_id_is_found(source, 0, seq![], at);
    lemma_remapped_at(source, 0, seq![], ids, base, at);
    lemma_lookup(v, interface_id, ids, base, id);
    let k = lemma_mapping_is(after.mappings, interface_id, id);
    lemma_first_exists(after.mappings, interface_id, k);
    let f = lemma_first_is(after.mappings, interface_id);
    if f < v.mappings.len() {
        assert(after.mappings[f] == v.mappings[f]);
        assert(v.interfaces.contains(v.mappings[f].interface_id));
    }
    assert(after.mappings[f].source_report_id is Some);
    let named = after.descriptor[v.descriptor.len() + at + 1];
    assert(report.update(0, named) =~= seq![named] + report.skip(1));
}

/// An interface whose reports have no id gets one of its own, which stands before
/// its descriptor and before every report that it sends.
pub proof fn law_reports_without_an_id_get_one(
    v: CompositeView,
    interface_id: InterfaceId,
    source: Seq<u8>,
    report: Seq<u8>,
)
    requires
        v.wf(),
        v.refusal(interface_id, source) is None,
        forall|at: int| is_item(source, 0, at) ==> source[at] != 0x85,
        report.len() <= MAX_HID_REPORT_SIZE,
    ensures
        ({
            let after = v.with_interface(interface_id, source);
            let n = v.descriptor.len() as int;
            &&& after.descriptor.len() == n + 2 + source.len()
            &&& after.descriptor[n] == 0x85
            &&& after.descriptor.skip(n + 2) == source
            &&& after.outgoing(interface_id, report) == Ok::<Seq<u8>, CompositeDescriptorError>(
                seq![after.descriptor[n + 1]] + report,
            )
        }),
{
    let after = v.with_interface(interface_id, source);
    let n = v.mappings.len() as int;
    lemma_no_ids(source, 0);
    assert(after.descriptor.skip(v.descriptor.len() as int + 2) =~= source);
    assert(after.mappings[n].interface_id == interface_id);
    lemma_first_exists(after.mappings, interface_id, n);
    let f = lemma_first_is(after.mappings, interface_id);
    if f < n {
        assert(after.mappings[f] == v.mappings[f]);
        assert(v.interfaces.contains(v.mappings[f].interface_id));
    }
}

proof fn lemma_no_ids(source: Seq<u8>, offset: int)
    requires
        0 <= offset,
        report_ids(source, offset, seq![]) is Ok,
        forall|at: int| is_item(source, offset, at) ==> source[at] != 0x85,
    ensures
        report_ids(source, offset, seq![])->Ok_0.len() == 0,
    decreases source.len() - offset,
{
    if offset < source.len() {
        let len = item_len(source, offset)->0;
        assert(is_item(source, offset, offset));
        assert forall|at: int| is_item(source, offset + len, at) implies source[at] != 0x85 by {
            lemma_item_is_behind(source, offset + len, at);
            assert(is_item(source, offset, at));
        }
        lemma_no_ids(source, offset + len);
    }
}

proof fn lemma_item_is_behind(source: Seq<u8>, from: int, at: int)
    requires
        is_item(source, from, at),
    ensures
        from <= at,
    decreases source.len() - from,
{
    if from != at {
        lemma_item_is_behind(source, from + item_len(source, from)->0, at);
    }
}

/// Adding an interface leaves what the descriptor said of the others as it was,
/// and what the interface's own said but for its ids.
pub proof fn law_the_rest_of_the_descriptor_is_kept(
    v: CompositeView,
    interface_id: InterfaceId,
    source: Seq<u8>,
    at: int,
    k: int,
)
    requires
        v.wf(),
        v.refusal(interface_id, source) is None,
        is_item(source, 0, at),
        source[at] != 0x85,
        at <= k < at + item_len(source, at)->0,
    ensures
        ({
            let after = v.with_interface(interface_id, source);
            let own = after.descriptor.skip(after.descriptor.len() - source.len());
            &&& after.descriptor.take(v.descriptor.len() as int) == v.descriptor
            &&& own[k] == source[k]
        }),
{
    let ids = report_ids(source, 0, seq![])->Ok_0;
    let after = v.with_interface(interface_id, source);
    let own = after.descriptor.skip(after.descriptor.len() - source.len());
    let base = v.next_id();
    lemma_remapped_at(source, 0, seq![], ids, base, at);
    assert(after.descriptor.take(v.descriptor.len() as int) =~= v.descriptor);
    if ids.len() == 0 {
        assert(own =~= source);
    } else {
        let written = remapped(source, 0, ids, base);
        assert(own =~= written);
        assert(written[k - 0] == source[k]);
    }
}

} // verus!
