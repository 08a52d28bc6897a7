//! Product-level concepts that firmware and management clients share.
//!
//! Connection slots, interface numbers, flash records and transport details
//! have no place here.

pub mod destination;
pub mod input_profile;
pub mod revision;
pub mod update;

pub use destination::{
    Destination, DestinationError, DestinationId, DestinationRegistry, SessionId,
    DESTINATION_CAPACITY, SESSION_CAPACITY,
};
pub use input_profile::{
    InputIdentity, InputProfile, InputProfileError, InputProfileId, InputProfileRegistry,
    INPUT_PROFILE_CAPACITY,
};
pub use revision::{ChangeSet, DomainRevision, Revisions};
pub use update::{
    FirmwareNode, FirmwareUpdate, FirmwareUpdateError, FirmwareUpdatePhase, ImageMetadata,
    UpdateTarget,
};
