//! The request protocol between the host and the storage process: typed
//! commands, a bounded queue of pending requests whose ids are never reused,
//! the execution of a request against the storage state, and the checked
//! completion of a pending request by its response.
use crate::origin::{origin_text, Origin, OriginModel};
use crate::process::StorageProcessId;
use crate::storage::{StorageErrorKind, StorageLimits, StorageProcessState};
use crate::text::{copy_bytes, decimal, push_decimal, push_decimal_u64, push_str, size_message, utf8_byte_len, utf8_len};
use vstd::prelude::*;

verus! {

pub const DEFAULT_MAX_STORAGE_REQUEST_BYTES: usize = 1048576;

pub const DEFAULT_MAX_PENDING_STORAGE_REQUESTS: usize = 256;

pub const DEFAULT_MAX_PENDING_STORAGE_BYTES: usize = 4194304;

/// Bounds on one request and on the requests pending at once.
#[derive(Clone, Copy, Debug, PartialEq, Eq, Structural)]
pub struct StorageRequestLimits {
    pub max_request_bytes: usize,
    pub max_pending_requests: usize,
    pub max_pending_bytes: usize,
}

impl StorageRequestLimits {
    pub open spec fn spec_is_valid(self) -> bool {
        &&& self.max_request_bytes > 0
        &&& self.max_pending_requests > 0
        &&& self.max_pending_bytes > 0
    }

    /// Every bound is non-zero.
    pub fn is_valid(self) -> (r: bool)
        ensures
            r == self.spec_is_valid(),
    {
        self.max_request_bytes > 0 && self.max_pending_requests > 0 && self.max_pending_bytes > 0
    }
}

impl Default for StorageRequestLimits {
    fn default() -> (r: Self)
        ensures
            r == (StorageRequestLimits {
                max_request_bytes: DEFAULT_MAX_STORAGE_REQUEST_BYTES,
                max_pending_requests: DEFAULT_MAX_PENDING_STORAGE_REQUESTS,
                max_pending_bytes: DEFAULT_MAX_PENDING_STORAGE_BYTES,
            }),
    {
        StorageRequestLimits {
            max_request_bytes: DEFAULT_MAX_STORAGE_REQUEST_BYTES,
            max_pending_requests: DEFAULT_MAX_PENDING_STORAGE_REQUESTS,
            max_pending_bytes: DEFAULT_MAX_PENDING_STORAGE_BYTES,
        }
    }
}

#[derive(Clone, Copy, Debug, PartialEq, Eq, Structural)]
pub enum StorageProtocolErrorKind {
    InvalidLimits,
    InvalidRequestId,
    RequestIdentitySpaceExhausted,
    OpaqueOrigin,
    KeyTooLarge,
    ValueTooLarge,
    RequestTooLarge,
    PendingRequestLimitExceeded,
    PendingByteLimitExceeded,
    UnknownRequest,
    WrongProcess,
    ResponseMismatch,
    AccountingOverflow,
    AllocationFailed,
    Storage(StorageErrorKind),
}

#[derive(Clone, Debug, PartialEq, Eq)]
pub struct StorageProtocolError {
    pub kind: StorageProtocolErrorKind,
    pub message: String,
}

impl StorageProtocolError {
    fn new(kind: StorageProtocolErrorKind, message: String) -> (r: Self)
        ensures
            r.kind == kind,
            r.message@ == message@,
    {
        StorageProtocolError { kind, message }
    }

    /// The error that a refusal of the storage state becomes.
    pub fn from_storage(error: crate::storage::StorageError) -> (r: Self)
        ensures
            r.kind == StorageProtocolErrorKind::Storage(error.kind),
            r.message@ == error.message@,
    {
        StorageProtocolError { kind: StorageProtocolErrorKind::Storage(error.kind), message: error.message }
    }

    /// The error's message.
    pub fn to_string(&self) -> (r: String)
        ensures
            r@ == self.message@,
    {
        self.message.clone()
    }
}

fn protocol_error(kind: StorageProtocolErrorKind, message: &str) -> (r: StorageProtocolError)
    ensures
        r.kind == kind,
        r.message@ == message@,
{
    StorageProtocolError::new(kind, message.to_owned())
}

/// The identity of a storage request; never zero.
#[derive(Clone, Copy, Debug, PartialEq, Eq, Hash, Structural)]
pub struct StorageRequestId {
    value: u64,
}

impl StorageRequestId {
    pub closed spec fn spec_get(self) -> u64 {
        self.value
    }

    /// The identity written as `storage-request:<value>`.
    pub fn to_string(&self) -> (r: String)
        ensures
            r@ == "storage-request:"@ + decimal(self.spec_get() as nat),
    {
        let mut out = "storage-request:".to_owned();
        push_decimal_u64(&mut out, self.value);
        out
    }

    /// The id with the given value; refused with `InvalidRequestId` for
    /// zero.
    pub fn try_new(raw: u64) -> (r: Result<Self, StorageProtocolError>)
        ensures
            raw != 0 <==> r is Ok,
            r matches Ok(id) ==> id.spec_get() == raw,
            r matches Err(e) ==> e.kind == StorageProtocolErrorKind::InvalidRequestId,
    {
        if raw == 0 {
            Err(protocol_error(StorageProtocolErrorKind::InvalidRequestId, "storage request identity must be non-zero"))
        } else {
            Ok(StorageRequestId { value: raw })
        }
    }

    pub fn get(self) -> (r: u64)
        ensures
            r == self.spec_get(),
    {
        self.value
    }
}

#[derive(Clone, Copy, Debug, PartialEq, Eq, Structural)]
pub enum StorageOperationKind {
    Get,
    Put,
    Remove,
    Clear,
}

/// What a request asks of the storage of its origin.
#[derive(Clone, Debug, PartialEq, Eq)]
pub enum StorageCommand {
    Get { key: String },
    Put { key: String, value: Vec<u8> },
    Remove { key: String },
    Clear,
}

/// A command as values.
pub enum CommandModel {
    Get(Seq<char>),
    Put(Seq<char>, Seq<u8>),
    Remove(Seq<char>),
    Clear,
}

impl View for StorageCommand {
    type V = CommandModel;

    open spec fn view(&self) -> CommandModel {
        match self {
            StorageCommand::Get { key } => CommandModel::Get(key@),
            StorageCommand::Put { key, value } => CommandModel::Put(key@, value@),
            StorageCommand::Remove { key } => CommandModel::Remove(key@),
            StorageCommand::Clear => CommandModel::Clear,
        }
    }
}

/// The kind of operation a command is.
pub open spec fn command_kind(c: CommandModel) -> StorageOperationKind {
    match c {
        CommandModel::Get(_) => StorageOperationKind::Get,
        CommandModel::Put(_, _) => StorageOperationKind::Put,
        CommandModel::Remove(_) => StorageOperationKind::Remove,
        CommandModel::Clear => StorageOperationKind::Clear,
    }
}

/// The UTF-8 bytes of a command's key; zero for `Clear`.
pub open spec fn command_key_bytes(c: CommandModel) -> nat {
    match c {
        CommandModel::Get(k) => utf8_len(k),
        CommandModel::Put(k, _) => utf8_len(k),
        CommandModel::Remove(k) => utf8_len(k),
        CommandModel::Clear => 0,
    }
}

/// The bytes of a command's value; zero but for `Put`.
pub open spec fn command_value_bytes(c: CommandModel) -> nat {
    match c {
        CommandModel::Put(_, v) => v.len(),
        _ => 0,
    }
}

/// The bytes a request is charged: its origin's serialization, key and
/// value.
pub open spec fn request_bytes(origin: OriginModel, c: CommandModel) -> nat {
    utf8_len(origin_text(origin)) + command_key_bytes(c) + command_value_bytes(c)
}

impl StorageCommand {
    pub fn kind(&self) -> (r: StorageOperationKind)
        ensures
            r == command_kind(self@),
    {
        match self {
            StorageCommand::Get { .. } => StorageOperationKind::Get,
            StorageCommand::Put { .. } => StorageOperationKind::Put,
            StorageCommand::Remove { .. } => StorageOperationKind::Remove,
            StorageCommand::Clear => StorageOperationKind::Clear,
        }
    }

    fn key_len(&self) -> (r: usize)
        ensures
            r == command_key_bytes(self@),
    {
        match self {
            StorageCommand::Get { key } => utf8_byte_len(key.as_str()),
            StorageCommand::Put { key, .. } => utf8_byte_len(key.as_str()),
            StorageCommand::Remove { key } => utf8_byte_len(key.as_str()),
            StorageCommand::Clear => 0,
        }
    }

    fn value_len(&self) -> (r: usize)
        ensures
            r == command_value_bytes(self@),
    {
        match self {
            StorageCommand::Put { value, .. } => value.len(),
            _ => 0,
        }
    }
}

/// A request of the host to the storage process.
#[derive(Clone, Debug, PartialEq, Eq)]
pub struct StorageRequest {
    id: StorageRequestId,
    process: StorageProcessId,
    origin: Origin,
    command: StorageCommand,
    accounted_bytes: usize,
}

impl StorageRequest {
    pub closed spec fn spec_id(&self) -> StorageRequestId {
        self.id
    }

    pub closed spec fn spec_process(&self) -> StorageProcessId {
        self.process
    }

    pub closed spec fn spec_origin(&self) -> OriginModel {
        self.origin@
    }

    pub closed spec fn spec_command(&self) -> CommandModel {
        self.command@
    }

    pub closed spec fn spec_accounted_bytes(&self) -> nat {
        self.accounted_bytes as nat
    }

    pub fn id(&self) -> (r: StorageRequestId)
        ensures
            r == self.spec_id(),
    {
        self.id
    }

    pub fn process(&self) -> (r: StorageProcessId)
        ensures
            r == self.spec_process(),
    {
        self.process
    }

    pub fn origin(&self) -> (r: &Origin)
        ensures
            r@ == self.spec_origin(),
    {
        &self.origin
    }

    pub fn command(&self) -> (r: &StorageCommand)
        ensures
            r@ == self.spec_command(),
    {
        &self.command
    }

    pub fn kind(&self) -> (r: StorageOperationKind)
        ensures
            r == command_kind(self.spec_command()),
    {
        self.command.kind()
    }

    pub fn accounted_bytes(&self) -> (r: usize)
        ensures
            r == self.spec_accounted_bytes(),
    {
        self.accounted_bytes
    }
}

/// What the storage process answers.
#[derive(Clone, Debug, PartialEq, Eq)]
pub enum StorageResponsePayload {
    Value(Option<Vec<u8>>),
    Written,
    Removed(bool),
    Cleared(bool),
}

/// A payload as values.
pub enum PayloadModel {
    Value(Option<Seq<u8>>),
    Written,
    Removed(bool),
    Cleared(bool),
}

impl View for StorageResponsePayload {
    type V = PayloadModel;

    open spec fn view(&self) -> PayloadModel {
        match self {
            StorageResponsePayload::Value(v) => PayloadModel::Value(
                match v {
                    Some(b) => Some(b@),
                    None => None,
                },
            ),
            StorageResponsePayload::Written => PayloadModel::Written,
            StorageResponsePayload::Removed(b) => PayloadModel::Removed(*b),
            StorageResponsePayload::Cleared(b) => PayloadModel::Cleared(*b),
        }
    }
}

/// Whether a payload is the answer to an operation of the given kind.
pub open spec fn payload_fits(p: PayloadModel, kind: StorageOperationKind) -> bool {
    match (p, kind) {
        (PayloadModel::Value(_), StorageOperationKind::Get) => true,
        (PayloadModel::Written, StorageOperationKind::Put) => true,
        (PayloadModel::Removed(_), StorageOperationKind::Remove) => true,
        (PayloadModel::Cleared(_), StorageOperationKind::Clear) => true,
        _ => false,
    }
}

/// The storage process's answer to a request.
#[derive(Clone, Debug, PartialEq, Eq)]
pub struct StorageResponse {
    pub request: StorageRequestId,
    pub process: StorageProcessId,
    pub kind: StorageOperationKind,
    pub payload: StorageResponsePayload,
}

impl StorageResponse {
    pub fn request(&self) -> (r: StorageRequestId)
        ensures
            r == self.request,
    {
        self.request
    }

    pub fn process(&self) -> (r: StorageProcessId)
        ensures
            r == self.process,
    {
        self.process
    }

    pub fn kind(&self) -> (r: StorageOperationKind)
        ensures
            r == self.kind,
    {
        self.kind
    }

    pub fn payload(&self) -> (r: &StorageResponsePayload)
        ensures
            r@ == self.payload@,
    {
        &self.payload
    }

    pub fn into_payload(self) -> (r: StorageResponsePayload)
        ensures
            r@ == self.payload@,
    {
        self.payload
    }
}

/// The authority a pending request keeps until it is completed or
/// cancelled.
#[derive(Clone, Copy, Debug)]
pub struct PendingRequest {
    pub id: StorageRequestId,
    pub process: StorageProcessId,
    pub kind: StorageOperationKind,
    pub accounted_bytes: usize,
}

/// The bytes of the pending requests.
pub open spec fn pending_bytes(p: Seq<PendingRequest>) -> nat
    decreases p.len(),
{
    if p.len() == 0 {
        0
    } else {
        pending_bytes(p.drop_last()) + p.last().accounted_bytes as nat
    }
}

/// The position of the pending request with the given id, if there is one.
pub open spec fn pending_index(p: Seq<PendingRequest>, id: u64) -> Option<int> {
    if exists|i: int| 0 <= i < p.len() && (#[trigger] p[i]).id.spec_get() == id {
        Some(choose|i: int| 0 <= i < p.len() && (#[trigger] p[i]).id.spec_get() == id)
    } else {
        None
    }
}

/// The pending requests without the one at position `i`.
pub open spec fn without(p: Seq<PendingRequest>, i: int) -> Seq<PendingRequest> {
    p.take(i) + p.skip(i + 1)
}

/// The queued requests without the first one with the given id.
pub open spec fn without_first_queued(q: Seq<StorageRequest>, id: u64) -> Seq<StorageRequest>
    decreases q.len(),
{
    if q.len() == 0 {
        q
    } else if q[0].spec_id().spec_get() == id {
        q.drop_first()
    } else {
        seq![q[0]] + without_first_queued(q.drop_first(), id)
    }
}

proof fn lemma_pending_bytes_push(p: Seq<PendingRequest>, e: PendingRequest)
    ensures
        pending_bytes(p.push(e)) == pending_bytes(p) + e.accounted_bytes,
{
    assert(p.push(e).drop_last() =~= p);
}

proof fn lemma_pending_bytes_without(p: Seq<PendingRequest>, i: int)
    requires
        0 <= i < p.len(),
    ensures
        pending_bytes(without(p, i)) + p[i].accounted_bytes == pending_bytes(p),
    decreases p.len(),
{
    if i == p.len() - 1 {
        assert(without(p, i) =~= p.drop_last());
    } else {
        lemma_pending_bytes_without(p.drop_last(), i);
        assert(without(p, i).drop_last() =~= without(p.drop_last(), i));
        assert(without(p, i).last() == p.last());
    }
}

/// The queue of storage requests the host has sent and not yet seen
/// answered: ids are handed out in increasing order and never reused, and
/// the pending requests and their bytes stay within the limits.
#[derive(Debug)]
pub struct StorageRequestQueue {
    process: StorageProcessId,
    storage_limits: StorageLimits,
    limits: StorageRequestLimits,
    next_request: u64,
    pending: Vec<PendingRequest>,
    queued: Vec<StorageRequest>,
    tracked_bytes: usize,
}

impl StorageRequestQueue {
    /// The queue is well formed: valid limits; pending ids non-zero,
    /// increasing and below the next id (all of them once the ids are
    /// spent, shown by a next id of zero); pending requests of this process;
    /// tracked bytes that are their sum and within the limits.
    pub closed spec fn wf(&self) -> bool {
        &&& self.limits.spec_is_valid()
        &&& self.storage_limits.spec_is_valid()
        &&& forall|i: int, j: int|
            0 <= i < j < self.pending@.len() ==> (#[trigger] self.pending@[i]).id.spec_get()
                < (#[trigger] self.pending@[j]).id.spec_get()
        &&& forall|i: int|
            0 <= i < self.pending@.len() ==> {
                &&& (#[trigger] self.pending@[i]).id.spec_get() != 0
                &&& self.next_request != 0 ==> self.pending@[i].id.spec_get() < self.next_request
                &&& self.pending@[i].process == self.process
            }
        &&& self.tracked_bytes == pending_bytes(self.pending@)
        &&& self.tracked_bytes <= self.limits.max_pending_bytes
        &&& self.pending@.len() <= self.limits.max_pending_requests
    }

    pub closed spec fn spec_process(&self) -> StorageProcessId {
        self.process
    }

    pub closed spec fn spec_storage_limits(&self) -> StorageLimits {
        self.storage_limits
    }

    pub closed spec fn spec_limits(&self) -> StorageRequestLimits {
        self.limits
    }

    /// The id the next request gets; zero once the ids are spent.
    pub closed spec fn spec_next(&self) -> u64 {
        self.next_request
    }

    pub closed spec fn spec_pending(&self) -> Seq<PendingRequest> {
        self.pending@
    }

    pub closed spec fn spec_queued(&self) -> Seq<StorageRequest> {
        self.queued@
    }

    pub closed spec fn spec_tracked_bytes(&self) -> nat {
        self.tracked_bytes as nat
    }

    /// Why a request is refused before it is tracked, checked in this
    /// order; `None` when it is accepted.
    pub open spec fn enqueue_refusal(&self, origin: OriginModel, c: CommandModel) -> Option<
        StorageProtocolErrorKind,
    > {
        let storage_limits = self.spec_storage_limits();
        let limits = self.spec_limits();
        let bytes = request_bytes(origin, c);
        if origin is Opaque {
            Some(StorageProtocolErrorKind::OpaqueOrigin)
        } else if command_key_bytes(c) > storage_limits.max_key_bytes {
            Some(StorageProtocolErrorKind::KeyTooLarge)
        } else if command_value_bytes(c) > storage_limits.max_value_bytes {
            Some(StorageProtocolErrorKind::ValueTooLarge)
        } else if bytes > usize::MAX {
            Some(StorageProtocolErrorKind::AccountingOverflow)
        } else if bytes > limits.max_request_bytes {
            Some(StorageProtocolErrorKind::RequestTooLarge)
        } else if self.spec_pending().len() >= limits.max_pending_requests {
            Some(StorageProtocolErrorKind::PendingRequestLimitExceeded)
        } else if self.spec_tracked_bytes() + bytes > usize::MAX {
            Some(StorageProtocolErrorKind::AccountingOverflow)
        } else if self.spec_tracked_bytes() + bytes > limits.max_pending_bytes {
            Some(StorageProtocolErrorKind::PendingByteLimitExceeded)
        } else if self.spec_next() == 0 {
            Some(StorageProtocolErrorKind::RequestIdentitySpaceExhausted)
        } else {
            None
        }
    }

    /// An empty queue with the first id `1`; refused with `InvalidLimits`
    /// unless both sets of limits are valid.
    pub fn try_new(
        process: StorageProcessId,
        storage_limits: StorageLimits,
        limits: StorageRequestLimits,
    ) -> (r: Result<Self, StorageProtocolError>)
        ensures
            r is Ok <==> storage_limits.spec_is_valid() && limits.spec_is_valid(),
            r matches Err(e) ==> e.kind == StorageProtocolErrorKind::InvalidLimits,
            r matches Ok(q) ==> {
                &&& q.wf()
                &&& q.spec_process() == process
                &&& q.spec_storage_limits() == storage_limits
                &&& q.spec_limits() == limits
                &&& q.spec_next() == 1
                &&& q.spec_pending().len() == 0
                &&& q.spec_queued().len() == 0
                &&& q.spec_tracked_bytes() == 0
            },
    {
        if !storage_limits.is_valid() || !limits.is_valid() {
            return Err(
                protocol_error(
                    StorageProtocolErrorKind::InvalidLimits,
                    "storage request and storage-state limits must be valid",
                ),
            );
        }
        Ok(
            StorageRequestQueue {
                process,
                storage_limits,
                limits,
                next_request: 1,
                pending: Vec::new(),
                queued: Vec::new(),
                tracked_bytes: 0,
            },
        )
    }

    pub fn process(&self) -> (r: StorageProcessId)
        ensures
            r == self.spec_process(),
    {
        self.process
    }

    pub fn pending_requests(&self) -> (r: usize)
        ensures
            r == self.spec_pending().len(),
    {
        self.pending.len()
    }

    pub fn queued_requests(&self) -> (r: usize)
        ensures
            r == self.spec_queued().len(),
    {
        self.queued.len()
    }

    pub fn tracked_bytes(&self) -> (r: usize)
        ensures
            r == self.spec_tracked_bytes(),
    {
        self.tracked_bytes
    }

    fn validate_and_measure(&self, origin: &Origin, command: &StorageCommand) -> (r: Result<
        usize,
        StorageProtocolError,
    >)
        requires
            self.wf(),
        ensures
            (match r {
                Ok(bytes) => bytes == request_bytes(origin@, command@) && !(origin@ is Opaque)
                    && command_key_bytes(command@) <= self.storage_limits.max_key_bytes
                    && command_value_bytes(command@) <= self.storage_limits.max_value_bytes
                    && bytes <= self.limits.max_request_bytes,
                Err(e) => self.enqueue_refusal(origin@, command@) == Some(e.kind) && (e.kind
                    != StorageProtocolErrorKind::PendingRequestLimitExceeded) && e.kind
                    != StorageProtocolErrorKind::PendingByteLimitExceeded && e.kind
                    != StorageProtocolErrorKind::RequestIdentitySpaceExhausted,
            }),
    {
        if origin.is_opaque() {
            return Err(
                protocol_error(
                    StorageProtocolErrorKind::OpaqueOrigin,
                    "opaque origins do not receive persistent Storage-process requests",
                ),
            );
        }
        let key_len = command.key_len();
        let value_len = command.value_len();
        if key_len > self.storage_limits.max_key_bytes {
            return Err(
                StorageProtocolError::new(
                    StorageProtocolErrorKind::KeyTooLarge,
                    size_message("storage request key", key_len, self.storage_limits.max_key_bytes),
                ),
            );
        }
        if value_len > self.storage_limits.max_value_bytes {
            return Err(
                StorageProtocolError::new(
                    StorageProtocolErrorKind::ValueTooLarge,
                    size_message(
                        "storage request value",
                        value_len,
                        self.storage_limits.max_value_bytes,
                    ),
                ),
            );
        }
        let serialized = origin.ascii_serialization();
        let origin_len = utf8_byte_len(serialized.as_str());
        let bytes = match origin_len.checked_add(key_len) {
            Some(b) => b.checked_add(value_len),
            None => None,
        };
        let bytes = match bytes {
            Some(b) => b,
            None => {
                return Err(
                    protocol_error(
                        StorageProtocolErrorKind::AccountingOverflow,
                        "storage request payload accounting overflow",
                    ),
                );
            },
        };
        if bytes > self.limits.max_request_bytes {
            return Err(
                StorageProtocolError::new(
                    StorageProtocolErrorKind::RequestTooLarge,
                    size_message("storage request", bytes, self.limits.max_request_bytes),
                ),
            );
        }
        Ok(bytes)
    }

    /// Tracks a request and queues it for the storage process. Refused,
    /// with nothing changed, for the first reason `enqueue_refusal` gives;
    /// otherwise the request gets the next id and is both pending and queued
    /// last.
    pub fn enqueue(&mut self, origin: Origin, command: StorageCommand) -> (r: Result<
        StorageRequestId,
        StorageProtocolError,
    >)
        requires
            old(self).wf(),
        ensures
            final(self).wf(),
            r is Ok <==> old(self).enqueue_refusal(origin@, command@) is None,
            r matches Err(e) ==> old(self).enqueue_refusal(origin@, command@) == Some(e.kind)
                && *final(self) == *old(self),
            r matches Ok(id) ==> {
                let bytes = request_bytes(origin@, command@);
                &&& id.spec_get() == old(self).spec_next()
                &&& final(self).spec_next() == (if id.spec_get() == u64::MAX {
                    0
                } else {
                    (id.spec_get() + 1) as u64
                })
                &&& final(self).spec_pending() == old(self).spec_pending().push(
                    PendingRequest {
                        id,
                        process: old(self).spec_process(),
                        kind: command_kind(command@),
                        accounted_bytes: bytes as usize,
                    },
                )
                &&& final(self).spec_queued().len() == old(self).spec_queued().len() + 1
                &&& final(self).spec_queued().drop_last() == old(self).spec_queued()
                &&& final(self).spec_queued().last().spec_id() == id
                &&& final(self).spec_queued().last().spec_process() == old(self).spec_process()
                &&& final(self).spec_queued().last().spec_origin() == origin@
                &&& final(self).spec_queued().last().spec_command() == command@
                &&& final(self).spec_queued().last().spec_accounted_bytes() == bytes
                &&& final(self).spec_tracked_bytes() == old(self).spec_tracked_bytes() + bytes
                &&& final(self).spec_process() == old(self).spec_process()
                &&& final(self).spec_limits() == old(self).spec_limits()
                &&& final(self).spec_storage_limits() == old(self).spec_storage_limits()
            },
    {
        let accounted_bytes = match self.validate_and_measure(&origin, &command) {
            Ok(b) => b,
            Err(e) => return Err(e),
        };
        if self.pending.len() >= self.limits.max_pending_requests {
            let mut message = String::new();
            push_str(&mut message, "storage pending-request limit ");
            push_decimal(&mut message, self.limits.max_pending_requests);
            push_str(&mut message, " reached");
            return Err(
                StorageProtocolError::new(
                    StorageProtocolErrorKind::PendingRequestLimitExceeded,
                    message,
                ),
            );
        }
        let next_bytes = match self.tracked_bytes.checked_add(accounted_bytes) {
            Some(b) => b,
            None => {
                return Err(
                    protocol_error(
                        StorageProtocolErrorKind::AccountingOverflow,
                        "storage pending-byte accounting overflow",
                    ),
                );
            },
        };
        if next_bytes > self.limits.max_pending_bytes {
            return Err(
                StorageProtocolError::new(
                    StorageProtocolErrorKind::PendingByteLimitExceeded,
                    size_message("storage pending requests", next_bytes, self.limits.max_pending_bytes),
                ),
            );
        }
        if self.next_request == 0 {
            return Err(
                protocol_error(
                    StorageProtocolErrorKind::RequestIdentitySpaceExhausted,
                    "storage request identity space is exhausted",
                ),
            );
        }
        let raw = self.next_request;
        let id = StorageRequestId { value: raw };
        self.next_request = if raw == u64::MAX {
            0
        } else {
            raw + 1
        };
        let kind = command.kind();
        let pending = PendingRequest { id, process: self.process, kind, accounted_bytes };
        let ghost old_pending = self.pending@;
        let request = StorageRequest {
            id,
            process: self.process,
            origin,
            command,
            accounted_bytes,
        };
        self.pending.push(pending);
        self.queued.push(request);
        self.tracked_bytes = next_bytes;
        proof {
            lemma_pending_bytes_push(old_pending, pending);
            assert(self.queued@.drop_last() =~= old(self).queued@);
        }
        Ok(id)
    }

    /// Hands the oldest queued request to the storage process.
    pub fn take_next(&mut self) -> (r: Option<StorageRequest>)
        requires
            old(self).wf(),
        ensures
            final(self).wf(),
            old(self).spec_queued().len() == 0 ==> r is None && *final(self) == *old(self),
            old(self).spec_queued().len() > 0 ==> r == Some(old(self).spec_queued()[0])
                && final(self).spec_queued() == old(self).spec_queued().drop_first(),
            final(self).spec_pending() == old(self).spec_pending(),
            final(self).spec_tracked_bytes() == old(self).spec_tracked_bytes(),
            final(self).spec_next() == old(self).spec_next(),
            final(self).spec_process() == old(self).spec_process(),
            final(self).spec_limits() == old(self).spec_limits(),
            final(self).spec_storage_limits() == old(self).spec_storage_limits(),
    {
        if self.queued.len() == 0 {
            None
        } else {
            let request = self.queued.remove(0);
            proof {
                assert(self.queued@ =~= old(self).queued@.drop_first());
            }
            Some(request)
        }
    }

    fn find_pending(&self, id: StorageRequestId) -> (r: Option<usize>)
        requires
            self.wf(),
        ensures
            (match r {
                Some(i) => pending_index(self.pending@, id.spec_get()) == Some(i as int)
                    && i < self.pending@.len(),
                None => pending_index(self.pending@, id.spec_get()) is None,
            }),
    {
        let mut i: usize = 0;
        while i < self.pending.len()
            invariant
                self.wf(),
                i <= self.pending@.len(),
                forall|k: int| 0 <= k < i ==> (#[trigger] self.pending@[k]).id.spec_get() != id.spec_get(),
            decreases self.pending@.len() - i,
        {
            if self.pending[i].id.value == id.value {
                proof {
                    assert(self.pending@[i as int].id.spec_get() == id.spec_get());
                    let j = choose|j: int|
                        0 <= j < self.pending@.len() && (#[trigger] self.pending@[j]).id.spec_get()
                            == id.spec_get();
                    if j < i {
                        assert(self.pending@[j].id.spec_get() < self.pending@[i as int].id.spec_get());
                    } else if j > i {
                        assert(self.pending@[i as int].id.spec_get() < self.pending@[j].id.spec_get());
                    }
                }
                return Some(i);
            }
            i = i + 1;
        }
        None
    }

    fn remove_pending(&mut self, i: usize)
        requires
            old(self).wf(),
            i < old(self).pending@.len(),
        ensures
            final(self).wf(),
            final(self).pending@ == without(old(self).pending@, i as int),
            final(self).tracked_bytes == old(self).tracked_bytes - old(self).pending@[i as int].accounted_bytes,
            final(self).queued == old(self).queued,
            final(self).next_request == old(self).next_request,
            final(self).process == old(self).process,
            final(self).limits == old(self).limits,
            final(self).storage_limits == old(self).storage_limits,
    {
        proof {
            lemma_pending_bytes_without(self.pending@, i as int);
        }
        let removed = self.pending.remove(i);
        self.tracked_bytes = self.tracked_bytes - removed.accounted_bytes;
        proof {
            assert(self.pending@ =~= without(old(self).pending@, i as int));
            assert forall|a: int, b: int|
                0 <= a < b < self.pending@.len() implies (#[trigger] self.pending@[a]).id.spec_get()
                < (#[trigger] self.pending@[b]).id.spec_get() by {
                let a2 = if a < i { a } else { a + 1 };
                let b2 = if b < i { b } else { b + 1 };
                assert(self.pending@[a] == old(self).pending@[a2]);
                assert(self.pending@[b] == old(self).pending@[b2]);
            }
            assert forall|a: int| 0 <= a < self.pending@.len() implies {
                &&& (#[trigger] self.pending@[a]).id.spec_get() != 0
                &&& self.next_request != 0 ==> self.pending@[a].id.spec_get() < self.next_request
                &&& self.pending@[a].process == self.process
            } by {
                let a2 = if a < i { a } else { a + 1 };
                assert(self.pending@[a] == old(self).pending@[a2]);
            }
        }
    }

    fn remove_queued(&mut self, id: StorageRequestId)
        ensures
            final(self).queued@ == without_first_queued(old(self).queued@, id.spec_get()),
            final(self).pending == old(self).pending,
            final(self).tracked_bytes == old(self).tracked_bytes,
            final(self).next_request == old(self).next_request,
            final(self).process == old(self).process,
            final(self).limits == old(self).limits,
            final(self).storage_limits == old(self).storage_limits,
    {
        let mut i: usize = 0;
        proof {
            assert(self.queued@.skip(0) =~= self.queued@);
            assert(self.queued@.take(0) + self.queued@ =~= self.queued@);
        }
        while i < self.queued.len()
            invariant
                i <= self.queued@.len(),
                self.queued@ == old(self).queued@,
                self.pending == old(self).pending,
                self.tracked_bytes == old(self).tracked_bytes,
                self.next_request == old(self).next_request,
                self.process == old(self).process,
                self.limits == old(self).limits,
                self.storage_limits == old(self).storage_limits,
                forall|k: int| 0 <= k < i ==> (#[trigger] self.queued@[k]).spec_id().spec_get() != id.spec_get(),
                without_first_queued(self.queued@, id.spec_get()) == self.queued@.take(i as int)
                    + without_first_queued(self.queued@.skip(i as int), id.spec_get()),
            decreases self.queued@.len() - i,
        {
            let ghost q = self.queued@;
            proof {
                let rest = q.skip(i as int);
                assert(rest[0] == q[i as int]);
                assert(rest.drop_first() =~= q.skip(i + 1));
            }
            if self.queued[i].id.value == id.value {
                let ghost before = self.queued@;
                self.queued.remove(i);
                proof {
                    assert(self.queued@ =~= before.take(i as int) + before.skip(i as int).drop_first());
                }
                return;
            }
            proof {
                assert(q.take(i + 1) =~= q.take(i as int) + seq![q[i as int]]);
            }
            i = i + 1;
        }
        proof {
            assert(self.queued@.skip(i as int) =~= Seq::<StorageRequest>::empty());
            assert(self.queued@.take(i as int) =~= self.queued@);
        }
    }

    /// Withdraws a pending request: `Ok(true)` and its authority, bytes and
    /// queued copy gone when it was pending; `Ok(false)` and nothing changed
    /// otherwise.
    pub fn cancel(&mut self, id: StorageRequestId) -> (r: Result<bool, StorageProtocolError>)
        requires
            old(self).wf(),
        ensures
            final(self).wf(),
            (match pending_index(old(self).spec_pending(), id.spec_get()) {
                None => r == Ok::<bool, StorageProtocolError>(false) && *final(self) == *old(self),
                Some(i) => {
                    &&& r == Ok::<bool, StorageProtocolError>(true)
                    &&& final(self).spec_pending() == without(old(self).spec_pending(), i)
                    &&& final(self).spec_queued() == without_first_queued(
                        old(self).spec_queued(),
                        id.spec_get(),
                    )
                    &&& final(self).spec_tracked_bytes() == old(self).spec_tracked_bytes()
                        - old(self).spec_pending()[i].accounted_bytes
                    &&& final(self).spec_next() == old(self).spec_next()
                    &&& final(self).spec_process() == old(self).spec_process()
                },
            }),
    {
        match self.find_pending(id) {
            None => Ok(false),
            Some(i) => {
                self.remove_pending(i);
                self.remove_queued(id);
                Ok(true)
            },
        }
    }

    /// Checks a response against its pending request and hands its payload
    /// back. Refused, with nothing changed, when the request is not pending
    /// (`UnknownRequest`), when the response's process is not this queue's
    /// and the request's (`WrongProcess`), or when its kind or payload is
    /// not the request's (`ResponseMismatch`); otherwise the request's
    /// authority and bytes are released.
    pub fn complete(&mut self, response: StorageResponse) -> (r: Result<
        StorageResponsePayload,
        StorageProtocolError,
    >)
        requires
            old(self).wf(),
        ensures
            final(self).wf(),
            (match pending_index(old(self).spec_pending(), response.request.spec_get()) {
                None => r matches Err(e) && e.kind == StorageProtocolErrorKind::UnknownRequest
                    && *final(self) == *old(self),
                Some(i) => {
                    let p = old(self).spec_pending()[i];
                    if response.process != old(self).spec_process() || response.process
                        != p.process {
                        r matches Err(e) && e.kind == StorageProtocolErrorKind::WrongProcess
                            && *final(self) == *old(self)
                    } else if response.kind != p.kind || !payload_fits(
                        response.payload@,
                        p.kind,
                    ) {
                        r matches Err(e) && e.kind == StorageProtocolErrorKind::ResponseMismatch
                            && *final(self) == *old(self)
                    } else {
                        &&& r matches Ok(payload) && payload@ == response.payload@
                        &&& final(self).spec_pending() == without(old(self).spec_pending(), i)
                        &&& final(self).spec_queued() == old(self).spec_queued()
                        &&& final(self).spec_tracked_bytes() == old(self).spec_tracked_bytes()
                            - p.accounted_bytes
                        &&& final(self).spec_next() == old(self).spec_next()
                        &&& final(self).spec_process() == old(self).spec_process()
                    }
                },
            }),
    {
        let i = match self.find_pending(response.request) {
            None => {
                return Err(
                    protocol_error(
                        StorageProtocolErrorKind::UnknownRequest,
                        "unknown, cancelled or completed storage request",
                    ),
                );
            },
            Some(i) => i,
        };
        let pending = self.pending[i];
        if response.process != self.process || response.process != pending.process {
            return Err(
                protocol_error(
                    StorageProtocolErrorKind::WrongProcess,
                    "storage response process identity does not match Host request authority",
                ),
            );
        }
        if response.kind != pending.kind || !payload_matches_kind(&response.payload, pending.kind) {
            return Err(
                protocol_error(
                    StorageProtocolErrorKind::ResponseMismatch,
                    "storage response operation does not match the pending request",
                ),
            );
        }
        self.remove_pending(i);
        Ok(response.payload)
    }
}

fn payload_matches_kind(payload: &StorageResponsePayload, kind: StorageOperationKind) -> (r: bool)
    ensures
        r == payload_fits(payload@, kind),
{
    match (payload, kind) {
        (StorageResponsePayload::Value(_), StorageOperationKind::Get) => true,
        (StorageResponsePayload::Written, StorageOperationKind::Put) => true,
        (StorageResponsePayload::Removed(_), StorageOperationKind::Remove) => true,
        (StorageResponsePayload::Cleared(_), StorageOperationKind::Clear) => true,
        _ => false,
    }
}

/// Whatever happened to a request queue: its pending requests carry
/// distinct, non-zero identities in the order they were issued, all below
/// the next identity it hands out (once identities are spent, none is
/// handed out again), all belong to its storage process, and the pending
/// count and tracked bytes stay within its limits.
pub proof fn lemma_queue_within_limits(queue: &StorageRequestQueue)
    requires
        queue.wf(),
    ensures
        queue.spec_pending().len() <= queue.spec_limits().max_pending_requests,
        queue.spec_tracked_bytes() == pending_bytes(queue.spec_pending()),
        queue.spec_tracked_bytes() <= queue.spec_limits().max_pending_bytes,
        forall|i: int, j: int|
            0 <= i < j < queue.spec_pending().len() ==> (#[trigger] queue.spec_pending()[i]).id.spec_get()
                < (#[trigger] queue.spec_pending()[j]).id.spec_get(),
        forall|i: int|
            0 <= i < queue.spec_pending().len() ==> {
                &&& (#[trigger] queue.spec_pending()[i]).id.spec_get() != 0
                &&& queue.spec_next() != 0 ==> queue.spec_pending()[i].id.spec_get() < queue.spec_next()
                &&& queue.spec_pending()[i].process == queue.spec_process()
            },
{
}

/// Runs a request against the storage state. Refused with `WrongProcess`
/// when the request is for another storage process and with `OpaqueOrigin`
/// for an opaque origin, the state untouched; a refusal of the state comes
/// back as `Storage` with its kind. The response names the request, its
/// process and kind, and carries what the state gave.
pub fn execute_storage_request(storage: &mut StorageProcessState, request: &StorageRequest) -> (r:
    Result<StorageResponse, StorageProtocolError>)
    requires
        old(storage).wf(),
    ensures
        final(storage).wf(),
        request.spec_process() != old(storage).spec_process() ==> (r matches Err(e) && e.kind
            == StorageProtocolErrorKind::WrongProcess && *final(storage) == *old(storage)),
        request.spec_process() == old(storage).spec_process() && request.spec_origin() is Opaque
            ==> (r matches Err(e) && e.kind == StorageProtocolErrorKind::OpaqueOrigin
            && *final(storage) == *old(storage)),
        request.spec_process() == old(storage).spec_process() && !(request.spec_origin() is Opaque)
            ==> match request.spec_command() {
            CommandModel::Get(key) => *final(storage) == *old(storage) && (r matches Ok(resp)
                && resp.payload@ == PayloadModel::Value(
                old(storage).spec_get(request.spec_origin(), key),
            )),
            CommandModel::Put(key, value) => match old(storage).put_refusal(
                request.spec_origin(),
                key,
                value,
            ) {
                Some(k) => r matches Err(e) && e.kind == StorageProtocolErrorKind::Storage(k)
                    && *final(storage) == *old(storage),
                None => r matches Ok(resp) && resp.payload@ == PayloadModel::Written
                    && final(storage).is_put_of(*old(storage), request.spec_origin(), key, value),
            },
            CommandModel::Remove(key) => {
                &&& r matches Ok(resp) && resp.payload@ == PayloadModel::Removed(
                    old(storage).spec_get(request.spec_origin(), key) is Some,
                )
                &&& old(storage).spec_get(request.spec_origin(), key) is None ==> *final(storage)
                    == *old(storage)
                &&& old(storage).spec_get(request.spec_origin(), key) is Some
                    ==> final(storage).is_remove_of(*old(storage), request.spec_origin(), key)
            },
            CommandModel::Clear => {
                &&& r matches Ok(resp) && resp.payload@ == PayloadModel::Cleared(
                    old(storage).spec_entries().contains_key(request.spec_origin()),
                )
                &&& final(storage).spec_entries() == old(storage).spec_entries().remove(
                    request.spec_origin(),
                )
                &&& final(storage).spec_process() == old(storage).spec_process()
            },
        },
        r matches Ok(resp) ==> resp.request == request.spec_id() && resp.process
            == request.spec_process() && resp.kind == command_kind(request.spec_command()),
{
    if request.process != storage.process() {
        return Err(
            protocol_error(
                StorageProtocolErrorKind::WrongProcess,
                "storage request targets a different Storage-process identity",
            ),
        );
    }
    if request.origin.is_opaque() {
        return Err(
            protocol_error(
                StorageProtocolErrorKind::OpaqueOrigin,
                "opaque origins cannot execute persistent storage requests",
            ),
        );
    }
    let payload = match &request.command {
        StorageCommand::Get { key } => {
            let value = match storage.get(&request.origin, key.as_str()) {
                Some(v) => Some(copy_bytes(v)),
                None => None,
            };
            StorageResponsePayload::Value(value)
        },
        StorageCommand::Put { key, value } => {
            match storage.put(&request.origin, key.as_str(), value.as_slice()) {
                Ok(()) => StorageResponsePayload::Written,
                Err(e) => return Err(StorageProtocolError::from_storage(e)),
            }
        },
        StorageCommand::Remove { key } => {
            match storage.remove(&request.origin, key.as_str()) {
                Ok(b) => StorageResponsePayload::Removed(b),
                Err(e) => return Err(StorageProtocolError::from_storage(e)),
            }
        },
        StorageCommand::Clear => {
            match storage.clear_origin(&request.origin) {
                Ok(b) => StorageResponsePayload::Cleared(b),
                Err(e) => return Err(StorageProtocolError::from_storage(e)),
            }
        },
    };
    Ok(
        StorageResponse {
            request: request.id,
            process: request.process,
            kind: request.command.kind(),
            payload,
        },
    )
}

} // verus!
