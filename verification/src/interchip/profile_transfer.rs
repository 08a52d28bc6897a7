//! Transfer of a mirror profile in pieces.

use vstd::prelude::*;

use super::message::{
    ChunkView, ProfileBegin, ProfileChunk, ProfileChunkData, ProfileResult, ProfileResultStatus,
    PROFILE_CHUNK_MAX_DATA_LEN,
};
use crate::bytes::{part, same_bytes, splice, write_at};
use crate::checksum::{crc32, crc32_ieee};

verus! {

/// The longest mirror image.
pub const HSMI_MAX_SIZE: usize = 16_384;

/// Why a mirror image was refused.
#[derive(Clone, Copy, Debug, PartialEq, Eq, Structural)]
pub enum MirrorRejectReason {
    Accepted,
    MalformedImage,
    NonHidInterface,
    UnsupportedAlternateSetting,
    UnsupportedEndpointType,
    PacketTooLarge,
    UnsupportedUsbVersion,
    RemoteWakeUnsupported,
    EndpointResourceExhausted,
}

impl MirrorRejectReason {
    /// The byte that stands for the reason.
    pub open spec fn byte(self) -> u8 {
        match self {
            MirrorRejectReason::Accepted => 0,
            MirrorRejectReason::MalformedImage => 1,
            MirrorRejectReason::NonHidInterface => 2,
            MirrorRejectReason::UnsupportedAlternateSetting => 3,
            MirrorRejectReason::UnsupportedEndpointType => 4,
            MirrorRejectReason::PacketTooLarge => 5,
            MirrorRejectReason::UnsupportedUsbVersion => 6,
            MirrorRejectReason::RemoteWakeUnsupported => 7,
            MirrorRejectReason::EndpointResourceExhausted => 8,
        }
    }

    /// The answer to a transfer whose image is refused for the reason.
    pub open spec fn status(self) -> ProfileResultStatus {
        match self {
            MirrorRejectReason::EndpointResourceExhausted => ProfileResultStatus::ResourceExhausted,
            MirrorRejectReason::Accepted | MirrorRejectReason::MalformedImage =>
            ProfileResultStatus::InvalidImage,
            _ => ProfileResultStatus::Unsupported,
        }
    }

    fn to_byte(self) -> (r: u8)
        ensures
            r == self.byte(),
    {
        match self {
            Self::Accepted => 0,
            Self::MalformedImage => 1,
            Self::NonHidInterface => 2,
            Self::UnsupportedAlternateSetting => 3,
            Self::UnsupportedEndpointType => 4,
            Self::PacketTooLarge => 5,
            Self::UnsupportedUsbVersion => 6,
            Self::RemoteWakeUnsupported => 7,
            Self::EndpointResourceExhausted => 8,
        }
    }

    fn to_status(self) -> (r: ProfileResultStatus)
        ensures
            r == self.status(),
    {
        match self {
            Self::EndpointResourceExhausted => ProfileResultStatus::ResourceExhausted,
            Self::Accepted | Self::MalformedImage => ProfileResultStatus::InvalidImage,
            _ => ProfileResultStatus::Unsupported,
        }
    }
}

/// What a sender says to the receiver of a profile.
#[derive(Clone, Copy, Debug, PartialEq, Eq)]
pub enum ProfileTransferCommand {
    Begin(ProfileBegin),
    Chunk(ProfileChunkData),
    Commit { transfer_id: u32 },
}

/// What a command says.
pub enum CommandView {
    Begin(ProfileBegin),
    Chunk(ChunkView),
    Commit { transfer_id: u32 },
}

/// What an optional command says.
pub open spec fn command_view(command: Option<ProfileTransferCommand>) -> Option<CommandView> {
    match command {
        None => None,
        Some(ProfileTransferCommand::Begin(begin)) => Some(CommandView::Begin(begin)),
        Some(ProfileTransferCommand::Chunk(chunk)) => Some(CommandView::Chunk(chunk@)),
        Some(ProfileTransferCommand::Commit { transfer_id }) => Some(
            CommandView::Commit { transfer_id },
        ),
    }
}

/// Why a transfer was refused.
#[derive(Clone, Copy, Debug, PartialEq, Eq, Structural)]
pub enum ProfileTransferError {
    Busy,
    InvalidLength,
    WrongTransfer,
    OffsetGap,
    ConflictingRetry,
}

/// Cuts a profile into commands.
pub struct ProfileTransferEncoder<'a> {
    image: &'a [u8],
    begin: ProfileBegin,
    offset: usize,
    phase: u8,
}

/// What an encoder is to say yet.
pub struct TransferView {
    pub image: Seq<u8>,
    pub begin: ProfileBegin,
    pub offset: int,
    pub phase: u8,
}

impl<'a> View for ProfileTransferEncoder<'a> {
    type V = TransferView;

    closed spec fn view(&self) -> TransferView {
        TransferView {
            image: self.image@,
            begin: self.begin,
            offset: self.offset as int,
            phase: self.phase,
        }
    }
}

impl TransferView {
    /// Where the next piece ends.
    pub open spec fn piece_end(self) -> int {
        if self.offset + PROFILE_CHUNK_MAX_DATA_LEN < self.image.len() {
            self.offset + PROFILE_CHUNK_MAX_DATA_LEN
        } else {
            self.image.len() as int
        }
    }

    /// The next command: first the begin, then the pieces one after the other,
    /// then the commit.
    pub open spec fn command(self) -> Option<CommandView> {
        if self.phase == 0 {
            Some(CommandView::Begin(self.begin))
        } else if self.offset < self.image.len() {
            Some(
                CommandView::Chunk(
                    ChunkView {
                        transfer_id: self.begin.transfer_id,
                        offset: self.offset as u32,
                        data: self.image.subrange(self.offset, self.piece_end()),
                    },
                ),
            )
        } else if self.phase == 1 {
            Some(CommandView::Commit { transfer_id: self.begin.transfer_id })
        } else {
            None
        }
    }

    /// The encoder after that command.
    pub open spec fn after(self) -> TransferView {
        if self.phase == 0 {
            TransferView { phase: 1, ..self }
        } else if self.offset < self.image.len() {
            TransferView { offset: self.piece_end(), ..self }
        } else if self.phase == 1 {
            TransferView { phase: 2, ..self }
        } else {
            self
        }
    }
}

impl<'a> ProfileTransferEncoder<'a> {
    /// The image is within limits, and the encoder within the image.
    pub open spec fn wf(&self) -> bool {
        &&& 0 < self@.image.len() <= HSMI_MAX_SIZE
        &&& 0 <= self@.offset <= self@.image.len()
    }

    /// An encoder for an image that is neither empty nor too long.
    pub fn new(transfer_id: u32, profile_hash: u32, image: &'a [u8]) -> (r: Result<
        Self,
        ProfileTransferError,
    >)
        ensures
            0 < image@.len() <= HSMI_MAX_SIZE ==> r is Ok && r->Ok_0.wf() && r->Ok_0@
                == (TransferView {
                image: image@,
                begin: ProfileBegin {
                    transfer_id,
                    total_length: image@.len() as u32,
                    crc32: crc32(image@),
                    profile_hash,
                },
                offset: 0,
                phase: 0,
            }),
            image@.len() == 0 || image@.len() > HSMI_MAX_SIZE ==> r is Err && r->Err_0
                == ProfileTransferError::InvalidLength,
    {
        if image.len() == 0 || image.len() > HSMI_MAX_SIZE {
            return Err(ProfileTransferError::InvalidLength);
        }
        Ok(
            Self {
                image,
                begin: ProfileBegin {
                    transfer_id,
                    total_length: image.len() as u32,
                    crc32: crc32_ieee(image),
                    profile_hash,
                },
                offset: 0,
                phase: 0,
            },
        )
    }

    /// The next command, if one is left.
    pub fn next(&mut self) -> (r: Option<ProfileTransferCommand>)
        requires
            old(self).wf(),
        ensures
            final(self).wf(),
            command_view(r) == old(self)@.command(),
            final(self)@ == old(self)@.after(),
            r matches Some(ProfileTransferCommand::Chunk(chunk)) ==> chunk.wf(),
    {
        if self.phase == 0 {
            self.phase = 1;
            return Some(ProfileTransferCommand::Begin(self.begin));
        }
        if self.offset < self.image.len() {
            let end: usize = if self.offset + PROFILE_CHUNK_MAX_DATA_LEN < self.image.len() {
                self.offset + PROFILE_CHUNK_MAX_DATA_LEN
            } else {
                self.image.len()
            };
            let chunk = ProfileChunkData::from_borrowed(
                ProfileChunk {
                    transfer_id: self.begin.transfer_id,
                    offset: self.offset as u32,
                    data: part(self.image, self.offset, end),
                },
            );
            self.offset = end;
            return match chunk {
                Ok(chunk) => Some(ProfileTransferCommand::Chunk(chunk)),
                Err(_) => None,
            };
        }
        if self.phase == 1 {
            self.phase = 2;
            return Some(ProfileTransferCommand::Commit { transfer_id: self.begin.transfer_id });
        }
        None
    }
}

/// A transfer that is under way.
#[derive(Clone, Copy, Debug, PartialEq, Eq, Structural)]
pub struct TransferState {
    pub begin: ProfileBegin,
    pub next_offset: usize,
}

/// A profile that was received whole.
#[derive(Clone, Copy, Debug, PartialEq, Eq, Structural)]
pub struct CommittedProfile {
    pub transfer_id: u32,
    pub profile_hash: u32,
    pub length: usize,
}

/// What became of a piece.
#[derive(Clone, Copy, Debug, PartialEq, Eq, Structural)]
pub enum ProfileChunkDisposition {
    Appended,
    Duplicate,
}

/// Receives a profile into a buffer.
pub struct ProfileTransferReceiver<'a> {
    staging: &'a mut [u8],
    active: Option<TransferState>,
    committed: Option<CommittedProfile>,
}

/// What a receiver has.
pub struct StagingView {
    pub staging: Seq<u8>,
    pub active: Option<TransferState>,
    pub committed: Option<CommittedProfile>,
}

impl<'a> View for ProfileTransferReceiver<'a> {
    type V = StagingView;

    closed spec fn view(&self) -> StagingView {
        StagingView {
            staging: self.staging@,
            active: self.active,
            committed: self.committed,
        }
    }
}

impl StagingView {
    /// A transfer under way, and a profile that was received, are within the
    /// buffer.
    pub open spec fn wf(self) -> bool {
        &&& self.active matches Some(state) ==> state.next_offset <= state.begin.total_length
            && 0 < state.begin.total_length <= HSMI_MAX_SIZE && state.begin.total_length
            <= self.staging.len()
        &&& self.committed matches Some(committed) ==> committed.length <= self.staging.len()
    }

    /// Why a transfer cannot begin, where it cannot.
    pub open spec fn begin_error(self, begin: ProfileBegin) -> Option<ProfileTransferError> {
        if self.active is Some || self.committed is Some {
            Some(ProfileTransferError::Busy)
        } else if begin.total_length == 0 || begin.total_length > HSMI_MAX_SIZE
            || begin.total_length > self.staging.len() {
            Some(ProfileTransferError::InvalidLength)
        } else {
            None
        }
    }

    /// The receiver after a piece, and what became of the piece. A piece that
    /// continues the transfer is appended, one that repeats what is there is a
    /// duplicate. Any other piece of the transfer ends it.
    pub open spec fn with_chunk(self, chunk: ChunkView) -> (
        StagingView,
        Result<ProfileChunkDisposition, ProfileTransferError>,
    ) {
        match self.active {
            None => (self, Err(ProfileTransferError::WrongTransfer)),
            Some(state) => {
                let ended = StagingView { active: None, ..self };
                let end = chunk.offset + chunk.data.len();
                if chunk.transfer_id != state.begin.transfer_id {
                    (self, Err(ProfileTransferError::WrongTransfer))
                } else if chunk.data.len() == 0 || end > state.begin.total_length {
                    (ended, Err(ProfileTransferError::InvalidLength))
                } else if chunk.offset > state.next_offset {
                    (ended, Err(ProfileTransferError::OffsetGap))
                } else if chunk.offset < state.next_offset {
                    if end <= state.next_offset && self.staging.subrange(chunk.offset as int, end)
                        == chunk.data {
                        (self, Ok(ProfileChunkDisposition::Duplicate))
                    } else {
                        (ended, Err(ProfileTransferError::ConflictingRetry))
                    }
                } else {
                    (
                        StagingView {
                            staging: splice(self.staging, chunk.offset as int, chunk.data),
                            active: Some(
                                TransferState { begin: state.begin, next_offset: end as usize },
                            ),
                            ..self
                        },
                        Ok(ProfileChunkDisposition::Appended),
                    )
                }
            },
        }
    }

    /// Whether a commit reaches the check of the image: the transfer is under
    /// way, all of it is there, and its checksum is right.
    pub open spec fn complete(self, transfer_id: u32) -> bool {
        self.active matches Some(state) && state.begin.transfer_id == transfer_id
            && state.next_offset == state.begin.total_length && crc32(
            self.staging.take(state.begin.total_length as int),
        ) == state.begin.crc32
    }

    /// The answer to a commit, where `verdict` is what the check of the image
    /// says.
    pub open spec fn commit_answer(
        self,
        transfer_id: u32,
        verdict: Result<(), MirrorRejectReason>,
    ) -> ProfileResult {
        match self.active {
            None => failure(
                transfer_id,
                0,
                ProfileResultStatus::InvalidImage,
                MirrorRejectReason::MalformedImage,
            ),
            Some(state) => if state.begin.transfer_id != transfer_id {
                failure(
                    transfer_id,
                    state.begin.profile_hash,
                    ProfileResultStatus::Busy,
                    MirrorRejectReason::MalformedImage,
                )
            } else if !self.complete(transfer_id) {
                failure(
                    transfer_id,
                    state.begin.profile_hash,
                    ProfileResultStatus::InvalidImage,
                    MirrorRejectReason::MalformedImage,
                )
            } else {
                match verdict {
                    Err(reason) => failure(
                        transfer_id,
                        state.begin.profile_hash,
                        reason.status(),
                        reason,
                    ),
                    Ok(_) => failure(
                        transfer_id,
                        state.begin.profile_hash,
                        ProfileResultStatus::Accepted,
                        MirrorRejectReason::Accepted,
                    ),
                }
            },
        }
    }

    /// The receiver after the commit: the transfer is over, and the profile is
    /// there if it was accepted.
    pub open spec fn after_commit(
        self,
        transfer_id: u32,
        verdict: Result<(), MirrorRejectReason>,
    ) -> StagingView {
        StagingView {
            active: None,
            committed: if self.complete(transfer_id) && verdict is Ok {
                Some(
                    CommittedProfile {
                        transfer_id,
                        profile_hash: self.active->0.begin.profile_hash,
                        length: self.active->0.begin.total_length as usize,
                    },
                )
            } else {
                self.committed
            },
            ..self
        }
    }
}

/// A result without detail.
pub open spec fn failure(
    transfer_id: u32,
    profile_hash: u32,
    status: ProfileResultStatus,
    reason: MirrorRejectReason,
) -> ProfileResult {
    ProfileResult {
        transfer_id,
        profile_hash,
        status,
        reject_reason: reason.byte(),
        detail: 0,
    }
}

fn failure_result(
    transfer_id: u32,
    profile_hash: u32,
    status: ProfileResultStatus,
    reason: MirrorRejectReason,
) -> (r: ProfileResult)
    ensures
        r == failure(transfer_id, profile_hash, status, reason),
{
    ProfileResult { transfer_id, profile_hash, status, reject_reason: reason.to_byte(), detail: 0 }
}

impl<'a> ProfileTransferReceiver<'a> {
    /// See `StagingView::wf`.
    pub open spec fn wf(&self) -> bool {
        self@.wf()
    }

    /// A receiver into `staging`.
    pub fn new(staging: &'a mut [u8]) -> (r: Self)
        ensures
            r.wf(),
            r@ == (StagingView { staging: old(staging)@, active: None, committed: None }),
    {
        Self { staging, active: None, committed: None }
    }

    /// Begins a transfer.
    pub fn begin(&mut self, begin: ProfileBegin) -> (r: Result<(), ProfileTransferError>)
        requires
            old(self).wf(),
        ensures
            final(self).wf(),
            old(self)@.begin_error(begin) is Some ==> r == Err::<(), ProfileTransferError>(
                old(self)@.begin_error(begin)->0,
            ) && final(self)@ == old(self)@,
            old(self)@.begin_error(begin) is None ==> r is Ok && final(self)@ == (StagingView {
                active: Some(TransferState { begin, next_offset: 0 }),
                ..old(self)@
            }),
    {
        if self.active.is_some() || self.committed.is_some() {
            return Err(ProfileTransferError::Busy);
        }
        let total_length: u32 = begin.total_length;
        if total_length == 0 || total_length as usize > HSMI_MAX_SIZE || total_length as usize
            > self.staging.len() {
            return Err(ProfileTransferError::InvalidLength);
        }
        self.active = Some(TransferState { begin, next_offset: 0 });
        Ok(())
    }

    /// Takes in a piece.
    pub fn chunk(&mut self, chunk: ProfileChunk<'_>) -> (r: Result<
        ProfileChunkDisposition,
        ProfileTransferError,
    >)
        requires
            old(self).wf(),
        ensures
            final(self).wf(),
            (final(self)@, r) == old(self)@.with_chunk(chunk@),
    {
        let state = match self.active {
            Some(state) => state,
            None => {
                return Err(ProfileTransferError::WrongTransfer);
            },
        };
        if chunk.transfer_id != state.begin.transfer_id {
            return Err(ProfileTransferError::WrongTransfer);
        }
        let offset: usize = chunk.offset as usize;
        let total_length: usize = state.begin.total_length as usize;
        if chunk.data.len() == 0 || offset > total_length || chunk.data.len() > total_length
            - offset {
            self.active = None;
            return Err(ProfileTransferError::InvalidLength);
        }
        let end: usize = offset + chunk.data.len();
        if offset > state.next_offset {
            self.active = None;
            return Err(ProfileTransferError::OffsetGap);
        }
        if offset < state.next_offset {
            if end <= state.next_offset && same_bytes(part(self.staging, offset, end), chunk.data) {
                return Ok(ProfileChunkDisposition::Duplicate);
            }
            self.active = None;
            return Err(ProfileTransferError::ConflictingRetry);
        }
        write_at(self.staging, offset, chunk.data);
        self.active = Some(TransferState { begin: state.begin, next_offset: end });
        Ok(ProfileChunkDisposition::Appended)
    }

    /// Ends a transfer. The profile is there from then on if all of it came,
    /// its checksum is right and `validate` accepts the image.
    pub fn commit<V: Fn(&[u8]) -> Result<(), MirrorRejectReason>>(
        &mut self,
        transfer_id: u32,
        validate: V,
    ) -> (r: ProfileResult)
        requires
            old(self).wf(),
            forall|image: &[u8]| #[trigger] call_requires(validate, (image,)),
        ensures
            final(self).wf(),
            exists|verdict: Result<(), MirrorRejectReason>|
                {
                    &&& r == #[trigger] old(self)@.commit_answer(transfer_id, verdict)
                    &&& final(self)@ == old(self)@.after_commit(transfer_id, verdict)
                    &&& old(self)@.complete(transfer_id) ==> exists|image: &[u8]|
                        image@ == old(self)@.staging.take(
                            old(self)@.active->0.begin.total_length as int,
                        ) && #[trigger] call_ensures(validate, (image,), verdict)
                },
    {
        let ghost before = self@;
        let ghost any = Ok::<(), MirrorRejectReason>(());
        let state = match self.active {
            Some(state) => state,
            None => {
                let r = failure_result(
                    transfer_id,
                    0,
                    ProfileResultStatus::InvalidImage,
                    MirrorRejectReason::MalformedImage,
                );
                assert(r == before.commit_answer(transfer_id, any));
                return r;
            },
        };
        self.active = None;
        if state.begin.transfer_id != transfer_id {
            let r = failure_result(
                transfer_id,
                state.begin.profile_hash,
                ProfileResultStatus::Busy,
                MirrorRejectReason::MalformedImage,
            );
            assert(r == before.commit_answer(transfer_id, any));
            return r;
        }
        let length: usize = state.begin.total_length as usize;
        let image = part(self.staging, 0, length);
        assert(image@ =~= before.staging.take(length as int));
        if state.next_offset != length || crc32_ieee(image) != state.begin.crc32 {
            let r = failure_result(
                transfer_id,
                state.begin.profile_hash,
                ProfileResultStatus::InvalidImage,
                MirrorRejectReason::MalformedImage,
            );
            assert(r == before.commit_answer(transfer_id, any));
            return r;
        }
        let verdict = validate(image);
        assert(call_ensures(validate, (image,), verdict));
        match verdict {
            Err(reason) => {
                let r = failure_result(
                    transfer_id,
                    state.begin.profile_hash,
                    reason.to_status(),
                    reason,
                );
                assert(r == before.commit_answer(transfer_id, verdict));
                r
            },
            Ok(_) => {
                self.committed =
                Some(
                    CommittedProfile {
                        transfer_id,
                        profile_hash: state.begin.profile_hash,
                        length,
                    },
                );
                let r = failure_result(
                    transfer_id,
                    state.begin.profile_hash,
                    ProfileResultStatus::Accepted,
                    MirrorRejectReason::Accepted,
                );
                assert(r == before.commit_answer(transfer_id, verdict));
                r
            },
        }
    }

    /// The profile that was received, and its image.
    pub fn committed(&self) -> (r: Option<(CommittedProfile, &[u8])>)
        requires
            self.wf(),
        ensures
            r is Some <==> self@.committed is Some,
            r is Some ==> (r->0).0 == self@.committed->0 && (r->0).1@ == self@.staging.take(
                self@.committed->0.length as int,
            ),
    {
        match self.committed {
            None => None,
            Some(committed) => {
                let image = part(self.staging, 0, committed.length);
                assert(image@ =~= self@.staging.take(committed.length as int));
                Some((committed, image))
            },
        }
    }

    /// Forgets the profile that was received.
    pub fn clear_committed(&mut self)
        requires
            old(self).wf(),
        ensures
            final(self).wf(),
            final(self)@ == (StagingView { committed: None, ..old(self)@ }),
    {
        self.committed = None;
    }

    /// Forgets the transfer that is under way.
    pub fn cancel(&mut self)
        requires
            old(self).wf(),
        ensures
            final(self).wf(),
            final(self)@ == (StagingView { active: None, ..old(self)@ }),
    {
        self.active = None;
    }
}

/// Whether the transfer under way is that of `image`, and the first
/// `next_offset` bytes of it are there.
pub open spec fn receiving(v: StagingView, begin: ProfileBegin, image: Seq<u8>) -> bool {
    &&& v.wf()
    &&& v.active is Some
    &&& v.active->0.begin == begin
    &&& begin.total_length == image.len()
    &&& begin.crc32 == crc32(image)
    &&& v.staging.take(v.active->0.next_offset as int) == image.take(
        v.active->0.next_offset as int,
    )
}

/// What the encoder says the receiver understands: each piece brings the
/// receiver as far as the encoder, a piece that comes twice changes nothing,
/// and once the encoder says the commit the image is there to the last byte.
pub proof fn law_profile_arrives_whole(t: TransferView, v: StagingView)
    requires
        0 <= t.offset,
        t.phase == 1,
        t.image.len() <= HSMI_MAX_SIZE,
        receiving(v, t.begin, t.image),
        v.active->0.next_offset == t.offset,
    ensures
        t.command() matches Some(CommandView::Chunk(chunk)) ==> {
            let after = v.with_chunk(chunk);
            &&& after.1 == Ok::<ProfileChunkDisposition, ProfileTransferError>(
                ProfileChunkDisposition::Appended,
            )
            &&& receiving(after.0, t.begin, t.image)
            &&& after.0.active->0.next_offset == t.after().offset
            &&& after.0.with_chunk(chunk) == (
                after.0,
                Ok::<ProfileChunkDisposition, ProfileTransferError>(
                    ProfileChunkDisposition::Duplicate,
                ),
            )
        },
        t.command() matches Some(CommandView::Commit { transfer_id }) ==> v.complete(transfer_id)
            && v.staging.take(t.image.len() as int) == t.image,
        t.command() is Some,
{
    if t.offset < t.image.len() {
        let end = t.piece_end();
        let data = t.image.subrange(t.offset, end);
        let next = splice(v.staging, t.offset, data);
        assert(next.take(end) =~= t.image.take(end)) by {
            assert forall|i: int| 0 <= i < end implies next[i] == t.image[i] by {
                if i < t.offset {
                    assert(v.staging.take(t.offset)[i] == t.image.take(t.offset)[i]);
                }
            }
        }
        assert(next.subrange(t.offset, end) =~= data);
    } else {
        assert(t.image.take(t.offset) =~= t.image);
    }
}

/// A profile is there only after a commit that was answered with acceptance,
/// and then all of it came and its checksum is right.
pub proof fn law_profile_is_published_only_by_commit(
    v: StagingView,
    transfer_id: u32,
    verdict: Result<(), MirrorRejectReason>,
    chunk: ChunkView,
)
    requires
        v.committed is None,
    ensures
        v.with_chunk(chunk).0.committed is None,
        v.after_commit(transfer_id, verdict).committed is Some ==> v.complete(transfer_id)
            && verdict is Ok && v.commit_answer(transfer_id, verdict).status
            == ProfileResultStatus::Accepted,
{
}

/// A commit is accepted exactly when it is for the transfer under way, all of the
/// image came, its checksum is right and the check of the image passes. The
/// profile is then the one that was announced, and either way the transfer is over.
pub proof fn law_when_a_commit_is_accepted(
    v: StagingView,
    transfer_id: u32,
    verdict: Result<(), MirrorRejectReason>,
)
    requires
        verdict matches Err(reason) ==> !(reason is Accepted),
    ensures
        ({
            let answer = v.commit_answer(transfer_id, verdict);
            let after = v.after_commit(transfer_id, verdict);
            let begin = v.active->0.begin;
            let all = v.active is Some && begin.transfer_id == transfer_id
                && v.active->0.next_offset == begin.total_length && crc32(
                v.staging.take(begin.total_length as int),
            ) == begin.crc32;
            &&& answer.status is Accepted <==> all && verdict is Ok
            &&& answer.status is Accepted <==> answer.reject_reason == 0
            &&& answer.transfer_id == transfer_id
            &&& v.active is Some ==> answer.profile_hash == begin.profile_hash
            &&& after.active is None && after.staging == v.staging
            &&& all && verdict is Ok ==> after.committed == Some(
                CommittedProfile {
                    transfer_id,
                    profile_hash: begin.profile_hash,
                    length: begin.total_length as usize,
                },
            )
            &&& !(all && verdict is Ok) ==> after.committed == v.committed
            &&& all && verdict is Err ==> answer.reject_reason == (verdict->Err_0).byte()
        }),
{
}

/// A piece of the transfer that leaves a gap, goes past the end, is empty or
/// contradicts what is there ends the transfer. A piece of another transfer
/// changes nothing.
pub proof fn law_when_a_piece_is_refused(v: StagingView, chunk: ChunkView)
    requires
        v.wf(),
        v.active is Some,
    ensures
        ({
            let (after, r) = v.with_chunk(chunk);
            let state = v.active->0;
            let end = chunk.offset + chunk.data.len();
            let ours = chunk.transfer_id == state.begin.transfer_id;
            &&& !ours ==> after == v && r == Err::<ProfileChunkDisposition, ProfileTransferError>(
                ProfileTransferError::WrongTransfer,
            )
            &&& ours ==> (r is Err <==> after.active is None)
            &&& ours && (chunk.data.len() == 0 || end > state.begin.total_length) ==> r is Err
            &&& ours && chunk.offset > state.next_offset ==> r is Err
            &&& r is Ok && r->Ok_0 is Duplicate ==> after == v && forall|i: int|
                0 <= i < chunk.data.len() ==> v.staging[chunk.offset + i] == #[trigger] chunk.data[i]
            &&& r is Ok && r->Ok_0 is Appended ==> {
                &&& chunk.offset == state.next_offset
                &&& after.active->0.next_offset == end
                &&& after.active->0.begin == state.begin
                &&& after.staging.len() == v.staging.len()
                &&& forall|i: int|
                    0 <= i < after.staging.len() ==> #[trigger] after.staging[i] == (if chunk.offset
                        <= i < end {
                        chunk.data[i - chunk.offset]
                    } else {
                        v.staging[i]
                    })
            }
            &&& after.committed == v.committed
        }),
{
    let end = chunk.offset + chunk.data.len();
    let (after, r) = v.with_chunk(chunk);
    if r is Ok && r->Ok_0 is Duplicate {
        let there = v.staging.subrange(chunk.offset as int, end);
        assert forall|i: int| 0 <= i < chunk.data.len() implies v.staging[chunk.offset + i]
            == #[trigger] chunk.data[i] by {
            assert(there[i] == chunk.data[i]);
        }
    }
}

/// The image goes out whole and in order: the begin first, with the length of the
/// image, then pieces that each continue where the last one ended and are not
/// empty, and the commit once all of it went out, after which nothing follows.
pub proof fn law_an_image_is_sent_in_order(t: TransferView)
    requires
        0 <= t.offset <= t.image.len() <= HSMI_MAX_SIZE,
        t.phase <= 2,
        t.phase == 2 ==> t.offset == t.image.len(),
    ensures
        t.command() is None <==> t.phase == 2,
        t.after().image == t.image && t.after().begin == t.begin,
        t.phase == 0 ==> t.command() == Some(CommandView::Begin(t.begin)) && t.after().phase == 1
            && t.after().offset == t.offset,
        t.command() matches Some(CommandView::Chunk(chunk)) ==> {
            &&& chunk.transfer_id == t.begin.transfer_id
            &&& chunk.offset == t.offset
            &&& 0 < chunk.data.len() <= PROFILE_CHUNK_MAX_DATA_LEN
            &&& t.image.take(t.after().offset) == t.image.take(t.offset) + chunk.data
            &&& t.after().offset < t.image.len() ==> chunk.data.len() == PROFILE_CHUNK_MAX_DATA_LEN
            &&& t.after().phase == 1
        },
        t.command() matches Some(CommandView::Commit { transfer_id }) ==> {
            &&& transfer_id == t.begin.transfer_id
            &&& t.offset == t.image.len()
            &&& t.after().command() is None
        },
{
    if let Some(CommandView::Chunk(chunk)) = t.command() {
        assert(t.image.take(t.after().offset) =~= t.image.take(t.offset) + chunk.data);
    }
}

} // verus!
