//! Firmware updates of one chip or both.

use vstd::prelude::*;

use crate::bytes::same_bytes;

verus! {

/// A chip that runs firmware.
#[derive(Clone, Copy, Debug, PartialEq, Eq, Structural)]
pub enum FirmwareNode {
    Host,
    Device,
}

/// Which chips an update is for.
#[derive(Clone, Copy, Debug, PartialEq, Eq, Structural)]
pub enum UpdateTarget {
    Host,
    Device,
    Both,
}

/// What is known of an image.
#[derive(Clone, Copy, Debug, PartialEq, Eq)]
pub struct ImageMetadata {
    pub node: FirmwareNode,
    pub size: u32,
    pub sha256: [u8; 32],
    pub version: [u8; 3],
}

/// How far an update has come.
#[derive(Clone, Copy, Debug, PartialEq, Eq, Structural)]
pub enum FirmwareUpdatePhase {
    Idle,
    Staging,
    Ready,
    RebootPending,
    HealthCheck,
    Committed,
    RolledBack,
}

/// Why a step of an update was refused.
#[derive(Clone, Copy, Debug, PartialEq, Eq, Structural)]
pub enum FirmwareUpdateError {
    InvalidPhase,
    WrongOffset,
    ImageTooLarge,
    HashMismatch,
    MissingNode,
    BundleMismatch,
}

/// An update of one chip or both.
#[derive(Clone, Debug, PartialEq, Eq)]
pub struct FirmwareUpdate {
    phase: FirmwareUpdatePhase,
    target: UpdateTarget,
    bundle_id: [u8; 16],
    host: Option<ImageMetadata>,
    device: Option<ImageMetadata>,
    host_received: u32,
    device_received: u32,
}

/// An update.
pub struct UpdateView {
    pub phase: FirmwareUpdatePhase,
    pub target: UpdateTarget,
    pub bundle_id: Seq<u8>,
    pub host: Option<ImageMetadata>,
    pub device: Option<ImageMetadata>,
    pub host_received: u32,
    pub device_received: u32,
}

impl View for FirmwareUpdate {
    type V = UpdateView;

    closed spec fn view(&self) -> UpdateView {
        UpdateView {
            phase: self.phase,
            target: self.target,
            bundle_id: self.bundle_id@,
            host: self.host,
            device: self.device,
            host_received: self.host_received,
            device_received: self.device_received,
        }
    }
}

/// Whether an image is larger than an update takes.
pub open spec fn too_large(image: Option<ImageMetadata>) -> bool {
    image is Some && image->0.size > FirmwareUpdate::MAX_IMAGE_SIZE
}

/// Whether an image is there in full and has the hash that was announced.
pub open spec fn is_intact(
    image: Option<ImageMetadata>,
    received: u32,
    hash: Option<[u8; 32]>,
) -> bool {
    image is Some ==> received == image->0.size && hash is Some && hash->0@ == image->0.sha256@
}

/// Whether no more than the image was received.
pub open spec fn in_size(image: Option<ImageMetadata>, received: u32) -> bool {
    image is Some ==> received <= image->0.size
}

/// Whether the image was received in full.
pub open spec fn is_whole(image: Option<ImageMetadata>, received: u32) -> bool {
    image is Some ==> received == image->0.size
}

impl UpdateView {
    /// No more than the announced images was received, which are not too
    /// large and for the chips that the update is for. After the check of the
    /// hashes they are there in full.
    pub open spec fn wf(self) -> bool {
        &&& self.phase != FirmwareUpdatePhase::Idle ==> (self.host is Some) == (self.target
            != UpdateTarget::Device) && (self.device is Some) == (self.target
            != UpdateTarget::Host)
        &&& !too_large(self.host) && !too_large(self.device)
        &&& in_size(self.host, self.host_received) && in_size(self.device, self.device_received)
        &&& (self.phase == FirmwareUpdatePhase::Ready || self.phase
            == FirmwareUpdatePhase::RebootPending || self.phase
            == FirmwareUpdatePhase::HealthCheck || self.phase == FirmwareUpdatePhase::Committed)
            ==> is_whole(self.host, self.host_received) && is_whole(
            self.device,
            self.device_received,
        )
    }

    /// Whether a new update may begin.
    pub open spec fn may_begin(self) -> bool {
        self.phase == FirmwareUpdatePhase::Idle || self.phase == FirmwareUpdatePhase::Committed
            || self.phase == FirmwareUpdatePhase::RolledBack
    }

    /// The image for a chip.
    pub open spec fn image(self, node: FirmwareNode) -> Option<ImageMetadata> {
        match node {
            FirmwareNode::Host => self.host,
            FirmwareNode::Device => self.device,
        }
    }

    /// How much of the image for a chip was received.
    pub open spec fn received(self, node: FirmwareNode) -> u32 {
        match node {
            FirmwareNode::Host => self.host_received,
            FirmwareNode::Device => self.device_received,
        }
    }

    /// With another amount received for a chip.
    pub open spec fn with_received(self, node: FirmwareNode, total: u32) -> UpdateView {
        match node {
            FirmwareNode::Host => UpdateView { host_received: total, ..self },
            FirmwareNode::Device => UpdateView { device_received: total, ..self },
        }
    }

    /// In another phase.
    pub open spec fn in_phase(self, phase: FirmwareUpdatePhase) -> UpdateView {
        UpdateView { phase, ..self }
    }

    /// Why an update is not begun, where it is not.
    pub open spec fn begin_error(
        self,
        target: UpdateTarget,
        host: Option<ImageMetadata>,
        device: Option<ImageMetadata>,
    ) -> Option<FirmwareUpdateError> {
        if !self.may_begin() {
            Some(FirmwareUpdateError::InvalidPhase)
        } else if (host is Some) != (target != UpdateTarget::Device) || (device is Some) != (target
            != UpdateTarget::Host) {
            Some(FirmwareUpdateError::MissingNode)
        } else if too_large(host) || too_large(device) {
            Some(FirmwareUpdateError::ImageTooLarge)
        } else {
            None
        }
    }

    /// Why a part of an image is not taken, where it is not.
    pub open spec fn chunk_error(
        self,
        node: FirmwareNode,
        offset: u32,
        length: u32,
    ) -> Option<FirmwareUpdateError> {
        if self.phase != FirmwareUpdatePhase::Staging {
            Some(FirmwareUpdateError::InvalidPhase)
        } else if self.image(node) is None {
            Some(FirmwareUpdateError::MissingNode)
        } else if offset != self.received(node) {
            Some(FirmwareUpdateError::WrongOffset)
        } else if offset + length > self.image(node)->0.size {
            Some(FirmwareUpdateError::ImageTooLarge)
        } else {
            None
        }
    }

    /// Why the images are not ready, where they are not.
    pub open spec fn verify_error(
        self,
        host_hash: Option<[u8; 32]>,
        device_hash: Option<[u8; 32]>,
    ) -> Option<FirmwareUpdateError> {
        if self.phase != FirmwareUpdatePhase::Staging {
            Some(FirmwareUpdateError::InvalidPhase)
        } else if !is_intact(self.host, self.host_received, host_hash) || !is_intact(
            self.device,
            self.device_received,
            device_hash,
        ) {
            Some(FirmwareUpdateError::HashMismatch)
        } else {
            None
        }
    }
}

fn is_too_large(image: &Option<ImageMetadata>) -> (r: bool)
    ensures
        r == too_large(*image),
{
    match image {
        Some(image) => image.size > FirmwareUpdate::MAX_IMAGE_SIZE,
        None => false,
    }
}

fn intact(image: &Option<ImageMetadata>, received: u32, hash: &Option<[u8; 32]>) -> (r: bool)
    ensures
        r == is_intact(*image, received, *hash),
{
    match image {
        None => true,
        Some(image) => match hash {
            None => false,
            Some(hash) => received == image.size && same_bytes(
                hash.as_slice(),
                image.sha256.as_slice(),
            ),
        },
    }
}

impl FirmwareUpdate {
    /// The largest image.
    pub const MAX_IMAGE_SIZE: u32 = 0x18_0000;

    /// No update.
    pub fn new() -> (r: Self)
        ensures
            r@.wf(),
            r@.phase == FirmwareUpdatePhase::Idle,
            r@.target == UpdateTarget::Host,
            r@.bundle_id == Seq::new(16, |i: int| 0u8),
            r@.host is None,
            r@.device is None,
            r@.host_received == 0,
            r@.device_received == 0,
    {
        let r = Self {
            phase: FirmwareUpdatePhase::Idle,
            target: UpdateTarget::Host,
            bundle_id: [0;16],
            host: None,
            device: None,
            host_received: 0,
            device_received: 0,
        };
        assert(r.bundle_id@ =~= Seq::new(16, |i: int| 0u8));
        r
    }

    /// How far the update has come.
    pub fn phase(&self) -> (r: FirmwareUpdatePhase)
        ensures
            r == self@.phase,
    {
        self.phase
    }

    /// How much of the image for a chip was received.
    pub fn received(&self, node: FirmwareNode) -> (r: u32)
        ensures
            r == self@.received(node),
    {
        match node {
            FirmwareNode::Host => self.host_received,
            FirmwareNode::Device => self.device_received,
        }
    }

    /// Begins an update, where none is under way.
    pub fn begin(
        &mut self,
        target: UpdateTarget,
        bundle_id: [u8; 16],
        host: Option<ImageMetadata>,
        device: Option<ImageMetadata>,
    ) -> (r: Result<(), FirmwareUpdateError>)
        ensures
            old(self)@.wf() ==> final(self)@.wf(),
            match old(self)@.begin_error(target, host, device) {
                Some(error) => r == Err::<(), FirmwareUpdateError>(error) && final(self)@
                    == old(self)@,
                None => r is Ok && final(self)@ == (UpdateView {
                    phase: FirmwareUpdatePhase::Staging,
                    target,
                    bundle_id: bundle_id@,
                    host,
                    device,
                    host_received: 0,
                    device_received: 0,
                }),
            },
    {
        match self.phase {
            FirmwareUpdatePhase::Idle
            | FirmwareUpdatePhase::Committed
            | FirmwareUpdatePhase::RolledBack => {},
            _ => {
                return Err(FirmwareUpdateError::InvalidPhase);
            },
        }
        let required_host = match target {
            UpdateTarget::Host | UpdateTarget::Both => true,
            UpdateTarget::Device => false,
        };
        let required_device = match target {
            UpdateTarget::Device | UpdateTarget::Both => true,
            UpdateTarget::Host => false,
        };
        if required_host != host.is_some() || required_device != device.is_some() {
            return Err(FirmwareUpdateError::MissingNode);
        }
        if is_too_large(&host) || is_too_large(&device) {
            return Err(FirmwareUpdateError::ImageTooLarge);
        }
        self.phase = FirmwareUpdatePhase::Staging;
        self.target = target;
        self.bundle_id = bundle_id;
        self.host = host;
        self.device = device;
        self.host_received = 0;
        self.device_received = 0;
        Ok(())
    }

    /// Takes the next part of an image.
    pub fn accept_chunk(&mut self, node: FirmwareNode, offset: u32, length: u32) -> (r: Result<
        (),
        FirmwareUpdateError,
    >)
        ensures
            old(self)@.wf() ==> final(self)@.wf(),
            match old(self)@.chunk_error(node, offset, length) {
                Some(error) => r == Err::<(), FirmwareUpdateError>(error) && final(self)@
                    == old(self)@,
                None => r is Ok && final(self)@ == old(self)@.with_received(
                    node,
                    (offset + length) as u32,
                ),
            },
    {
        if self.phase != FirmwareUpdatePhase::Staging {
            return Err(FirmwareUpdateError::InvalidPhase);
        }
        let (metadata, received) = match node {
            FirmwareNode::Host => (self.host, self.host_received),
            FirmwareNode::Device => (self.device, self.device_received),
        };
        let metadata = match metadata {
            Some(metadata) => metadata,
            None => {
                return Err(FirmwareUpdateError::MissingNode);
            },
        };
        if offset != received {
            return Err(FirmwareUpdateError::WrongOffset);
        }
        let total: u32 = match received.checked_add(length) {
            Some(total) => total,
            None => {
                return Err(FirmwareUpdateError::ImageTooLarge);
            },
        };
        if total > metadata.size {
            return Err(FirmwareUpdateError::ImageTooLarge);
        }
        match node {
            FirmwareNode::Host => {
                self.host_received = total;
            },
            FirmwareNode::Device => {
                self.device_received = total;
            },
        }
        Ok(())
    }

    /// Checks that all images are there and intact.
    pub fn verify(&mut self, host_hash: Option<[u8; 32]>, device_hash: Option<[u8; 32]>) -> (r:
        Result<(), FirmwareUpdateError>)
        ensures
            old(self)@.wf() ==> final(self)@.wf(),
            match old(self)@.verify_error(host_hash, device_hash) {
                Some(error) => r == Err::<(), FirmwareUpdateError>(error) && final(self)@
                    == old(self)@,
                None => r is Ok && final(self)@ == old(self)@.in_phase(
                    FirmwareUpdatePhase::Ready,
                ),
            },
    {
        if self.phase != FirmwareUpdatePhase::Staging {
            return Err(FirmwareUpdateError::InvalidPhase);
        }
        if !intact(&self.host, self.host_received, &host_hash) || !intact(
            &self.device,
            self.device_received,
            &device_hash,
        ) {
            return Err(FirmwareUpdateError::HashMismatch);
        }
        self.phase = FirmwareUpdatePhase::Ready;
        Ok(())
    }

    /// Asks for the reboot into the new images.
    pub fn request_reboot(&mut self) -> (r: Result<(), FirmwareUpdateError>)
        ensures
            old(self)@.wf() ==> final(self)@.wf(),
            old(self)@.phase == FirmwareUpdatePhase::Ready ==> r is Ok && final(self)@
                == old(self)@.in_phase(FirmwareUpdatePhase::RebootPending),
            old(self)@.phase != FirmwareUpdatePhase::Ready ==> r == Err::<(), FirmwareUpdateError>(
                FirmwareUpdateError::InvalidPhase,
            ) && final(self)@ == old(self)@,
    {
        if self.phase != FirmwareUpdatePhase::Ready {
            return Err(FirmwareUpdateError::InvalidPhase);
        }
        self.phase = FirmwareUpdatePhase::RebootPending;
        Ok(())
    }

    /// Starts the check of what was booted, or rolls back where that is
    /// another bundle.
    pub fn start_health_check(&mut self, bundle_id: [u8; 16]) -> (r: Result<
        (),
        FirmwareUpdateError,
    >)
        ensures
            old(self)@.wf() ==> final(self)@.wf(),
            old(self)@.phase != FirmwareUpdatePhase::RebootPending ==> r == Err::<
                (),
                FirmwareUpdateError,
            >(FirmwareUpdateError::InvalidPhase) && final(self)@ == old(self)@,
            old(self)@.phase == FirmwareUpdatePhase::RebootPending && bundle_id@
                != old(self)@.bundle_id ==> r == Err::<(), FirmwareUpdateError>(
                FirmwareUpdateError::BundleMismatch,
            ) && final(self)@ == old(self)@.in_phase(FirmwareUpdatePhase::RolledBack),
            old(self)@.phase == FirmwareUpdatePhase::RebootPending && bundle_id@
                == old(self)@.bundle_id ==> r is Ok && final(self)@ == old(self)@.in_phase(
                FirmwareUpdatePhase::HealthCheck,
            ),
    {
        if self.phase != FirmwareUpdatePhase::RebootPending {
            return Err(FirmwareUpdateError::InvalidPhase);
        }
        if !same_bytes(bundle_id.as_slice(), self.bundle_id.as_slice()) {
            self.phase = FirmwareUpdatePhase::RolledBack;
            return Err(FirmwareUpdateError::BundleMismatch);
        }
        self.phase = FirmwareUpdatePhase::HealthCheck;
        Ok(())
    }

    /// Ends the check of what was booted.
    pub fn finish_health_check(&mut self, healthy: bool) -> (r: Result<(), FirmwareUpdateError>)
        ensures
            old(self)@.wf() ==> final(self)@.wf(),
            old(self)@.phase == FirmwareUpdatePhase::HealthCheck ==> r is Ok && final(self)@
                == old(self)@.in_phase(
                if healthy {
                    FirmwareUpdatePhase::Committed
                } else {
                    FirmwareUpdatePhase::RolledBack
                },
            ),
            old(self)@.phase != FirmwareUpdatePhase::HealthCheck ==> r == Err::<
                (),
                FirmwareUpdateError,
            >(FirmwareUpdateError::InvalidPhase) && final(self)@ == old(self)@,
    {
        if self.phase != FirmwareUpdatePhase::HealthCheck {
            return Err(FirmwareUpdateError::InvalidPhase);
        }
        self.phase = if healthy {
            FirmwareUpdatePhase::Committed
        } else {
            FirmwareUpdatePhase::RolledBack
        };
        Ok(())
    }
}

impl Default for FirmwareUpdate {
    fn default() -> (r: Self)
        ensures
            r@.wf(),
            r@.phase == FirmwareUpdatePhase::Idle,
            r@.target == UpdateTarget::Host,
            r@.bundle_id == Seq::new(16, |i: int| 0u8),
            r@.host is None,
            r@.device is None,
            r@.host_received == 0,
            r@.device_received == 0,
    {
        Self::new()
    }
}

/// An update that is committed has every image that it was for, in full.
pub proof fn law_committed_is_complete(update: UpdateView, node: FirmwareNode)
    requires
        update.wf(),
        update.phase == FirmwareUpdatePhase::Committed,
        update.target == UpdateTarget::Both || (update.target == UpdateTarget::Host) == (node
            == FirmwareNode::Host),
    ensures
        update.image(node) is Some,
        update.received(node) == update.image(node)->0.size,
{
}

/// A part that starts anywhere but where the last one ended is refused, and the
/// offset to go on from is the amount received.
pub proof fn law_no_gaps(update: UpdateView, node: FirmwareNode, offset: u32, length: u32)
    requires
        update.phase == FirmwareUpdatePhase::Staging,
        update.image(node) is Some,
    ensures
        offset != update.received(node) ==> update.chunk_error(node, offset, length) == Some(
            FirmwareUpdateError::WrongOffset,
        ),
        offset == update.received(node) && offset + length <= update.image(node)->0.size
            ==> update.chunk_error(node, offset, length) is None,
{
}

/// An update begins exactly where none is under way, there is an image for every
/// chip that it is for and for no other, and none is larger than one and a half
/// mebibytes.
pub proof fn law_when_an_update_begins(
    update: UpdateView,
    target: UpdateTarget,
    host: Option<ImageMetadata>,
    device: Option<ImageMetadata>,
)
    ensures
        update.begin_error(target, host, device) is None <==> {
            &&& update.phase == FirmwareUpdatePhase::Idle || update.phase
                == FirmwareUpdatePhase::Committed || update.phase
                == FirmwareUpdatePhase::RolledBack
            &&& host is Some <==> target == UpdateTarget::Host || target == UpdateTarget::Both
            &&& device is Some <==> target == UpdateTarget::Device || target == UpdateTarget::Both
            &&& host is Some ==> host->0.size <= 1572864
            &&& device is Some ==> device->0.size <= 1572864
        },
{
}

/// A part of an image is taken exactly while images are received, where there is an
/// image for its chip, the part starts where the last one ended, and it does not go
/// beyond the image. It then counts for its chip and for no other.
pub proof fn law_when_a_part_is_taken(
    update: UpdateView,
    node: FirmwareNode,
    offset: u32,
    length: u32,
    total: u32,
)
    ensures
        update.chunk_error(node, offset, length) is None <==> {
            &&& update.phase == FirmwareUpdatePhase::Staging
            &&& node == FirmwareNode::Host ==> update.host is Some && offset
                == update.host_received && offset + length <= update.host->0.size
            &&& node == FirmwareNode::Device ==> update.device is Some && offset
                == update.device_received && offset + length <= update.device->0.size
        },
        node == FirmwareNode::Host ==> update.with_received(node, total).host_received == total
            && update.with_received(node, total).device_received == update.device_received,
        node == FirmwareNode::Device ==> update.with_received(node, total).device_received == total
            && update.with_received(node, total).host_received == update.host_received,
{
}

/// Images are found intact exactly where every image that was announced was
/// received in full and has the hash that was announced for its own chip.
pub proof fn law_when_images_are_intact(
    update: UpdateView,
    host_hash: Option<[u8; 32]>,
    device_hash: Option<[u8; 32]>,
)
    requires
        update.phase == FirmwareUpdatePhase::Staging,
    ensures
        update.verify_error(host_hash, device_hash) is None <==> {
            &&& update.host is Some ==> update.host_received == update.host->0.size && host_hash is Some
                && host_hash->0@ == update.host->0.sha256@
            &&& update.device is Some ==> update.device_received == update.device->0.size
                && device_hash is Some && device_hash->0@ == update.device->0.sha256@
        },
{
}

} // verus!
