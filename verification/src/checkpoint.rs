//! Storage checkpoints: a byte image of the storage state that a storage
//! process can restore.
//!
//! The image is `RAROGST1`, a big-endian `u16` version (1), a big-endian
//! `u32` origin count, then per origin in canonical order: the scheme as
//! length-prefixed UTF-8, a host tag (0 domain, 1 IPv4, 2 IPv6) followed by
//! the length-prefixed domain or the octets, a big-endian `u16` port, a `u32`
//! entry count and the entries in key byte order as length-prefixed key and
//! value. Lengths and counts are big-endian `u32`.
use crate::origin::{
    compare_origins, lemma_origin_order_equal, lemma_origin_order_flip, lemma_origin_order_trans,
    origin_order, HostModel,
    Origin, OriginModel, UrlHost,
};
use crate::keyed::{
    less_is_transitive, lemma_sorted_insert, lemma_weight_sum_insert, lemma_weight_sum_map,
    lemma_keyed_map_congruent, lemma_sorted_distinct, lemma_sorted_same_map, lemma_weight_sum_prefix,
    lemma_weight_sum_take, sorted_by, weight_sum,
};
use crate::order::{bytes_order, compare_bytes, lemma_bytes_order_equal, lemma_bytes_order_flip, Order};
use crate::storage::{
    entry_key, entry_order, entry_pair, entry_value, entry_weight, lemma_entry_order_laws,
    lemma_storage_order_laws, listing_item, origin_storage_wf, storage_count, storage_entries,
    storage_order, storage_origin, storage_weight, persistent_identity_fits,
    validate_persistent_origin_identity, OriginStorage, StorageEntry, StorageError, StorageErrorKind,
    StorageLimits, StorageProcessState, MAX_PERSISTENT_ORIGIN_IDENTITY_BYTES,
};
use crate::text::{
    copy_bytes, decimal, lemma_encode_injective, push_decimal, push_str, size_message, string_from_utf8,
    utf8_byte_len, utf8_len,
};
use vstd::prelude::*;
use vstd::utf8::{encode_utf8, encode_utf8_valid_utf8};

verus! {

pub const STORAGE_CHECKPOINT_VERSION: u16 = 1;

pub const DEFAULT_MAX_STORAGE_CHECKPOINT_BYTES: usize = 335544320;

/// The bytes of a checkpoint's magic, `RAROGST1`.
pub open spec fn checkpoint_magic() -> Seq<u8> {
    seq![82u8, 65u8, 82u8, 79u8, 71u8, 83u8, 84u8, 49u8]
}

/// A `u16` in big-endian order.
pub open spec fn be16(v: u16) -> Seq<u8> {
    seq![(v / 256) as u8, (v % 256) as u8]
}

/// A `u32` in big-endian order.
pub open spec fn be32(v: u32) -> Seq<u8> {
    seq![(v / 16777216) as u8, ((v / 65536) % 256) as u8, ((v / 256) % 256) as u8, (v % 256) as u8]
}

/// The value of two big-endian bytes.
pub open spec fn u16_of(b0: u8, b1: u8) -> u16 {
    (b0 * 256 + b1) as u16
}

/// The value of four big-endian bytes.
pub open spec fn u32_of(b0: u8, b1: u8, b2: u8, b3: u8) -> u32 {
    (b0 * 16777216 + b1 * 65536 + b2 * 256 + b3) as u32
}

/// Bytes preceded by their length.
pub open spec fn prefixed(b: Seq<u8>) -> Seq<u8> {
    be32(b.len() as u32) + b
}

pub open spec fn host_encoding(h: HostModel) -> Seq<u8> {
    match h {
        HostModel::Domain(d) => seq![0u8] + prefixed(encode_utf8(d)),
        HostModel::Ipv4(a) => seq![1u8] + a,
        HostModel::Ipv6(a) => seq![2u8] + a,
    }
}

pub open spec fn origin_encoding(o: OriginModel) -> Seq<u8> {
    match o {
        OriginModel::Tuple { scheme, host, port } => prefixed(encode_utf8(scheme)) + host_encoding(
            host,
        ) + be16(port),
        OriginModel::Opaque(_) => Seq::empty(),
    }
}

#[verifier::opaque]
pub open spec fn entry_encoding(e: (Seq<char>, Seq<u8>)) -> Seq<u8> {
    prefixed(encode_utf8(e.0)) + prefixed(e.1)
}

pub open spec fn entries_encoding(es: Seq<(Seq<char>, Seq<u8>)>) -> Seq<u8>
    decreases es.len(),
{
    if es.len() == 0 {
        Seq::empty()
    } else {
        entry_encoding(es[0]) + entries_encoding(es.drop_first())
    }
}

#[verifier::opaque]
pub open spec fn origin_block(o: (OriginModel, Seq<(Seq<char>, Seq<u8>)>)) -> Seq<u8> {
    origin_encoding(o.0) + be32(o.1.len() as u32) + entries_encoding(o.1)
}

pub open spec fn blocks_encoding(l: Seq<(OriginModel, Seq<(Seq<char>, Seq<u8>)>)>) -> Seq<u8>
    decreases l.len(),
{
    if l.len() == 0 {
        Seq::empty()
    } else {
        origin_block(l[0]) + blocks_encoding(l.drop_first())
    }
}

/// The checkpoint of a listing of origins and their entries.
pub open spec fn checkpoint_encoding(l: Seq<(OriginModel, Seq<(Seq<char>, Seq<u8>)>)>) -> Seq<u8> {
    checkpoint_magic() + be16(STORAGE_CHECKPOINT_VERSION) + be32(l.len() as u32) + blocks_encoding(l)
}

proof fn lemma_entries_push(es: Seq<(Seq<char>, Seq<u8>)>, e: (Seq<char>, Seq<u8>))
    ensures
        entries_encoding(es.push(e)) == entries_encoding(es) + entry_encoding(e),
    decreases es.len(),
{
    let t = es.push(e);
    if es.len() == 0 {
        assert(t[0] == e);
        assert(t.drop_first() =~= es);
        assert(entries_encoding(t) == entry_encoding(e) + entries_encoding(es));
        assert(entries_encoding(t) =~= entries_encoding(es) + entry_encoding(e));
    } else {
        assert(es.push(e).drop_first() =~= es.drop_first().push(e));
        lemma_entries_push(es.drop_first(), e);
        assert(entries_encoding(es.push(e)) =~= entry_encoding(es[0]) + (entries_encoding(
            es.drop_first(),
        ) + entry_encoding(e)));
    }
}

proof fn lemma_blocks_push(
    l: Seq<(OriginModel, Seq<(Seq<char>, Seq<u8>)>)>,
    o: (OriginModel, Seq<(Seq<char>, Seq<u8>)>),
)
    ensures
        blocks_encoding(l.push(o)) == blocks_encoding(l) + origin_block(o),
    decreases l.len(),
{
    let t = l.push(o);
    if l.len() == 0 {
        assert(t[0] == o);
        assert(t.drop_first() =~= l);
        assert(blocks_encoding(t) == origin_block(o) + blocks_encoding(l));
        assert(blocks_encoding(t) =~= blocks_encoding(l) + origin_block(o));
    } else {
        assert(l.push(o).drop_first() =~= l.drop_first().push(o));
        lemma_blocks_push(l.drop_first(), o);
        assert(blocks_encoding(l.push(o)) =~= origin_block(l[0]) + (blocks_encoding(l.drop_first())
            + origin_block(o)));
    }
}

proof fn lemma_be16_roundtrip(v: u16, b0: u8, b1: u8)
    ensures
        be16(v) == seq![b0, b1] <==> u16_of(b0, b1) == v,
{
    assert(b0 * 256 + b1 < 65536) by (nonlinear_arith)
        requires
            b0 < 256,
            b1 < 256,
    ;
    if u16_of(b0, b1) == v {
        assert(v / 256 == b0 && v % 256 == b1) by (nonlinear_arith)
            requires
                v == b0 * 256 + b1,
                b1 < 256,
        ;
        assert(be16(v) =~= seq![b0, b1]);
    }
    if be16(v) == seq![b0, b1] {
        assert(be16(v)[0] == b0 && be16(v)[1] == b1);
        assert(v == (v / 256) * 256 + v % 256) by (nonlinear_arith);
    }
}

proof fn lemma_be32_roundtrip(v: u32, b0: u8, b1: u8, b2: u8, b3: u8)
    ensures
        be32(v) == seq![b0, b1, b2, b3] <==> u32_of(b0, b1, b2, b3) == v,
{
    assert(b0 * 16777216 + b1 * 65536 + b2 * 256 + b3 < 4294967296) by (nonlinear_arith)
        requires
            b0 < 256,
            b1 < 256,
            b2 < 256,
            b3 < 256,
    ;
    if u32_of(b0, b1, b2, b3) == v {
        assert(v / 16777216 == b0 && (v / 65536) % 256 == b1 && (v / 256) % 256 == b2 && v % 256
            == b3) by (nonlinear_arith)
            requires
                v == b0 * 16777216 + b1 * 65536 + b2 * 256 + b3,
                b0 < 256,
                b1 < 256,
                b2 < 256,
                b3 < 256,
        ;
        assert(be32(v) =~= seq![b0, b1, b2, b3]);
    }
    if be32(v) == seq![b0, b1, b2, b3] {
        assert(be32(v)[0] == b0 && be32(v)[1] == b1 && be32(v)[2] == b2 && be32(v)[3] == b3);
        assert(v == (v / 16777216) * 16777216 + ((v / 65536) % 256) * 65536 + ((v / 256) % 256)
            * 256 + v % 256) by (nonlinear_arith)
            requires
                v < 4294967296,
        ;
    }
}


/// The largest checkpoint that may be written or read.
#[derive(Clone, Copy, Debug, PartialEq, Eq, Structural)]
pub struct StorageCheckpointLimits {
    pub max_checkpoint_bytes: usize,
}

impl StorageCheckpointLimits {
    /// The limit leaves room for the magic, version and origin count.
    pub open spec fn spec_is_valid(self) -> bool {
        self.max_checkpoint_bytes >= 14
    }

    pub fn is_valid(self) -> (r: bool)
        ensures
            r == self.spec_is_valid(),
    {
        self.max_checkpoint_bytes >= 14
    }
}

impl Default for StorageCheckpointLimits {
    fn default() -> (r: Self)
        ensures
            r.max_checkpoint_bytes == DEFAULT_MAX_STORAGE_CHECKPOINT_BYTES,
    {
        StorageCheckpointLimits { max_checkpoint_bytes: DEFAULT_MAX_STORAGE_CHECKPOINT_BYTES }
    }
}

#[derive(Clone, Copy, Debug, PartialEq, Eq, Structural)]
pub enum StorageCheckpointErrorKind {
    InvalidLimits,
    CheckpointTooLarge,
    InvalidMagic,
    UnsupportedVersion,
    Truncated,
    InvalidUtf8,
    InvalidHostTag,
    NonCanonicalOrder,
    TrailingData,
    LengthOverflow,
    AllocationFailed,
    Storage(StorageErrorKind),
}

#[derive(Clone, Debug, PartialEq, Eq)]
pub struct StorageCheckpointError {
    pub kind: StorageCheckpointErrorKind,
    pub message: String,
}

impl StorageCheckpointError {
    fn new(kind: StorageCheckpointErrorKind, message: &str) -> (r: Self)
        ensures
            r.kind == kind,
            r.message@ == message@,
    {
        StorageCheckpointError { kind, message: message.to_owned() }
    }

    /// A storage error carried over into a checkpoint error.
    pub fn from_storage(error: StorageError) -> (r: Self)
        ensures
            r.kind == StorageCheckpointErrorKind::Storage(error.kind),
            r.message@ == error.message@,
    {
        StorageCheckpointError { kind: StorageCheckpointErrorKind::Storage(error.kind), message: error.message }
    }

    /// The error's message.
    pub fn to_string(&self) -> (r: String)
        ensures
            r@ == self.message@,
    {
        self.message.clone()
    }
}

fn length_overflow() -> (r: StorageCheckpointError)
    ensures
        r.kind == StorageCheckpointErrorKind::LengthOverflow,
        r.message@ == "storage checkpoint length does not fit its field"@,
{
    StorageCheckpointError::new(
        StorageCheckpointErrorKind::LengthOverflow,
        "storage checkpoint length does not fit its field",
    )
}

/// Every count and length of the listing fits a `u32` field.
pub open spec fn entry_fits(e: (Seq<char>, Seq<u8>)) -> bool {
    encode_utf8(e.0).len() <= u32::MAX && e.1.len() <= u32::MAX
}

pub open spec fn block_fits(o: (OriginModel, Seq<(Seq<char>, Seq<u8>)>)) -> bool {
    &&& persistent_identity_fits(o.0)
    &&& o.1.len() <= u32::MAX
    &&& forall|j: int| 0 <= j < o.1.len() ==> entry_fits(#[trigger] o.1[j])
}

/// Every origin of the listing may be persisted.
pub open spec fn listing_identities_fit(l: Seq<(OriginModel, Seq<(Seq<char>, Seq<u8>)>)>) -> bool {
    forall|i: int| 0 <= i < l.len() ==> persistent_identity_fits((#[trigger] l[i]).0)
}

pub open spec fn listing_fits(l: Seq<(OriginModel, Seq<(Seq<char>, Seq<u8>)>)>) -> bool {
    &&& l.len() <= u32::MAX
    &&& forall|i: int| 0 <= i < l.len() ==> block_fits(#[trigger] l[i])
}

/// The limit leaves room for any one field past it without the running
/// length overflowing a `usize`, so passing the limit is always reported as
/// `CheckpointTooLarge`.
pub open spec fn roomy(limits: StorageCheckpointLimits) -> bool {
    limits.max_checkpoint_bytes + 4294967300 <= usize::MAX
}

/// The message that refuses an image of `needed` bytes.
pub open spec fn too_large_text(needed: nat, limit: nat) -> Seq<char> {
    "storage checkpoint would require "@ + decimal(needed) + " bytes; limit is "@ + decimal(limit)
}

/// The failure that appending or writing past the limit reports.
pub open spec fn is_size_failure(kind: StorageCheckpointErrorKind) -> bool {
    kind is CheckpointTooLarge || kind is LengthOverflow
}

/// One step of writing a checkpoint: a length or count that must fit its
/// `u32` field, or bytes to append.
pub enum WriteStep {
    Check(nat),
    Put(Seq<u8>),
}

/// The outcome of writing `steps` from position `pos` under the byte limit
/// `max`: the position reached, or the first failure with the length that
/// the image would have needed. A field that does not fit, or a length past
/// `usize::MAX`, is a `LengthOverflow`; passing the limit is
/// `CheckpointTooLarge`.
pub open spec fn write_run(steps: Seq<WriteStep>, pos: nat, max: nat) -> Result<
    nat,
    (StorageCheckpointErrorKind, nat),
>
    decreases steps.len(),
{
    if steps.len() == 0 {
        Ok(pos)
    } else {
        match steps[0] {
            WriteStep::Check(n) => if n > u32::MAX {
                Err((StorageCheckpointErrorKind::LengthOverflow, pos))
            } else {
                write_run(steps.drop_first(), pos, max)
            },
            WriteStep::Put(b) => if pos + b.len() > usize::MAX {
                Err((StorageCheckpointErrorKind::LengthOverflow, pos))
            } else if pos + b.len() > max {
                Err((StorageCheckpointErrorKind::CheckpointTooLarge, (pos + b.len()) as nat))
            } else {
                write_run(steps.drop_first(), (pos + b.len()) as nat, max)
            },
        }
    }
}

/// The error that reports the failure `f` under the limit `max`.
pub open spec fn reports(e: StorageCheckpointError, f: (StorageCheckpointErrorKind, nat), max: nat) -> bool {
    &&& e.kind == f.0
    &&& f.0 is CheckpointTooLarge ==> e.message@ == too_large_text(f.1, max)
    &&& f.0 is LengthOverflow ==> e.message@ == "storage checkpoint length does not fit its field"@
}

/// A write that ended in `r` with the output `len` long did what `run` says.
pub open spec fn written_as(
    r: Result<(), StorageCheckpointError>,
    run: Result<nat, (StorageCheckpointErrorKind, nat)>,
    len: nat,
    max: nat,
) -> bool {
    match run {
        Ok(q) => r is Ok && len == q,
        Err(f) => r matches Err(e) && reports(e, f, max),
    }
}

pub open spec fn prefixed_steps(b: Seq<u8>) -> Seq<WriteStep> {
    seq![WriteStep::Check(b.len()), WriteStep::Put(be32(b.len() as u32)), WriteStep::Put(b)]
}

pub open spec fn host_steps(h: HostModel) -> Seq<WriteStep> {
    match h {
        HostModel::Domain(d) => seq![WriteStep::Put(seq![0u8])] + prefixed_steps(encode_utf8(d)),
        HostModel::Ipv4(a) => seq![WriteStep::Put(seq![1u8]), WriteStep::Put(a)],
        HostModel::Ipv6(a) => seq![WriteStep::Put(seq![2u8]), WriteStep::Put(a)],
    }
}

pub open spec fn origin_steps(o: OriginModel) -> Seq<WriteStep> {
    match o {
        OriginModel::Tuple { scheme, host, port } => prefixed_steps(encode_utf8(scheme)) + host_steps(host)
            + seq![WriteStep::Put(be16(port))],
        OriginModel::Opaque(_) => Seq::empty(),
    }
}

pub open spec fn entry_steps(e: (Seq<char>, Seq<u8>)) -> Seq<WriteStep> {
    prefixed_steps(encode_utf8(e.0)) + prefixed_steps(e.1)
}

pub open spec fn entries_steps(es: Seq<(Seq<char>, Seq<u8>)>) -> Seq<WriteStep>
    decreases es.len(),
{
    if es.len() == 0 {
        Seq::empty()
    } else {
        entry_steps(es[0]) + entries_steps(es.drop_first())
    }
}

pub open spec fn count_steps(n: nat) -> Seq<WriteStep> {
    seq![WriteStep::Check(n), WriteStep::Put(be32(n as u32))]
}

pub open spec fn block_steps(o: (OriginModel, Seq<(Seq<char>, Seq<u8>)>)) -> Seq<WriteStep> {
    origin_steps(o.0) + count_steps(o.1.len()) + entries_steps(o.1)
}

pub open spec fn blocks_steps(l: Seq<(OriginModel, Seq<(Seq<char>, Seq<u8>)>)>) -> Seq<WriteStep>
    decreases l.len(),
{
    if l.len() == 0 {
        Seq::empty()
    } else {
        block_steps(l[0]) + blocks_steps(l.drop_first())
    }
}

/// The steps of writing a checkpoint, in the order the writer takes them:
/// the origin count is checked first, then the header and the blocks are
/// appended.
pub open spec fn checkpoint_steps(l: Seq<(OriginModel, Seq<(Seq<char>, Seq<u8>)>)>) -> Seq<WriteStep> {
    seq![
        WriteStep::Check(l.len()),
        WriteStep::Put(checkpoint_magic()),
        WriteStep::Put(be16(STORAGE_CHECKPOINT_VERSION)),
        WriteStep::Put(be32(l.len() as u32)),
    ] + blocks_steps(l)
}

/// Writing `a` then `b` runs `b` from where `a` stopped, unless `a` failed.
proof fn lemma_write_run_concat(a: Seq<WriteStep>, b: Seq<WriteStep>, pos: nat, max: nat)
    ensures
        write_run(a + b, pos, max) == match write_run(a, pos, max) {
            Ok(q) => write_run(b, q, max),
            Err(f) => Err(f),
        },
    decreases a.len(),
{
    if a.len() == 0 {
        assert(a + b =~= b);
    } else {
        assert((a + b).drop_first() =~= a.drop_first() + b);
        assert((a + b)[0] == a[0]);
        match a[0] {
            WriteStep::Check(n) => {
                lemma_write_run_concat(a.drop_first(), b, pos, max);
            },
            WriteStep::Put(x) => {
                if pos + x.len() <= usize::MAX && pos + x.len() <= max {
                    lemma_write_run_concat(a.drop_first(), b, (pos + x.len()) as nat, max);
                }
            },
        }
    }
}

fn be16_bytes(v: u16) -> (r: Vec<u8>)
    ensures
        r@ == be16(v),
{
    let r = vec![(v / 256) as u8, (v % 256) as u8];
    assert(r@ =~= be16(v));
    r
}

fn be32_bytes(v: u32) -> (r: Vec<u8>)
    ensures
        r@ == be32(v),
{
    let r = vec![(v / 16777216) as u8, ((v / 65536) % 256) as u8, ((v / 256) % 256) as u8, (v % 256) as u8];
    assert(r@ =~= be32(v));
    r
}

/// Appends bytes unless the output would pass the limit.
fn append(out: &mut Vec<u8>, bytes: &[u8], limits: StorageCheckpointLimits) -> (r: Result<
    (),
    StorageCheckpointError,
>)
    ensures
        r is Ok <==> old(out)@.len() + bytes@.len() <= limits.max_checkpoint_bytes,
        r is Ok ==> final(out)@ == old(out)@ + bytes@,
        r matches Err(e) ==> is_size_failure(e.kind) && final(out)@ == old(out)@,
        r matches Err(e) ==> (old(out)@.len() + bytes@.len() <= usize::MAX ==> e.kind
            == StorageCheckpointErrorKind::CheckpointTooLarge && e.message@ == too_large_text(
            (old(out)@.len() + bytes@.len()) as nat,
            limits.max_checkpoint_bytes as nat,
        )),
        written_as(
            r,
            write_run(seq![WriteStep::Put(bytes@)], old(out)@.len() as nat, limits.max_checkpoint_bytes as nat),
            final(out)@.len() as nat,
            limits.max_checkpoint_bytes as nat,
        ),
{
    let ghost steps = seq![WriteStep::Put(bytes@)];
    let ghost pos = old(out)@.len() as nat;
    let ghost max = limits.max_checkpoint_bytes as nat;
    proof {
        assert(steps.drop_first() =~= Seq::<WriteStep>::empty());
        assert(steps[0] == WriteStep::Put(bytes@));
        assert(write_run(Seq::<WriteStep>::empty(), (pos + bytes@.len()) as nat, max) == Ok::<nat, (StorageCheckpointErrorKind, nat)>((pos + bytes@.len()) as nat));
        assert(write_run(steps, pos, max) == if pos + bytes@.len() > usize::MAX {
            Err((StorageCheckpointErrorKind::LengthOverflow, pos))
        } else if pos + bytes@.len() > max {
            Err((StorageCheckpointErrorKind::CheckpointTooLarge, (pos + bytes@.len()) as nat))
        } else {
            Ok((pos + bytes@.len()) as nat)
        });
    }
    let next = match out.len().checked_add(bytes.len()) {
        Some(n) => n,
        None => {
            return Err(length_overflow());
        },
    };
    if next > limits.max_checkpoint_bytes {
        let mut message = String::new();
        push_str(&mut message, "storage checkpoint would require ");
        push_decimal(&mut message, next);
        push_str(&mut message, " bytes; limit is ");
        push_decimal(&mut message, limits.max_checkpoint_bytes);
        proof {
            assert(message@ =~= too_large_text(next as nat, limits.max_checkpoint_bytes as nat));
        }
        return Err(StorageCheckpointError::new(StorageCheckpointErrorKind::CheckpointTooLarge, message.as_str()));
    }
    let mut copy = copy_bytes(bytes);
    out.append(&mut copy);
    Ok(())
}

/// Appends bytes preceded by their length.
fn append_prefixed(out: &mut Vec<u8>, bytes: &[u8], limits: StorageCheckpointLimits) -> (r: Result<
    (),
    StorageCheckpointError,
>)
    ensures
        r is Ok <==> bytes@.len() <= u32::MAX && old(out)@.len() + 4 + bytes@.len()
            <= limits.max_checkpoint_bytes,
        r is Ok ==> final(out)@ == old(out)@ + prefixed(bytes@),
        r matches Err(e) ==> is_size_failure(e.kind),
        roomy(limits) && old(out)@.len() <= limits.max_checkpoint_bytes && bytes@.len() <= u32::MAX ==> (
        r matches Err(e) ==> e.kind == StorageCheckpointErrorKind::CheckpointTooLarge),
        written_as(
            r,
            write_run(prefixed_steps(bytes@), old(out)@.len() as nat, limits.max_checkpoint_bytes as nat),
            final(out)@.len() as nat,
            limits.max_checkpoint_bytes as nat,
        ),
{
    let ghost max = limits.max_checkpoint_bytes as nat;
    let ghost pos = old(out)@.len() as nat;
    proof {
        let steps = prefixed_steps(bytes@);
        assert(steps.drop_first() =~= seq![WriteStep::Put(be32(bytes@.len() as u32))] + seq![WriteStep::Put(bytes@)]);
        lemma_write_run_concat(seq![WriteStep::Put(be32(bytes@.len() as u32))], seq![WriteStep::Put(bytes@)], pos, max);
    }
    if bytes.len() > 4294967295 {
        return Err(length_overflow());
    }
    let length = be32_bytes(bytes.len() as u32);
    append(out, length.as_slice(), limits)?;
    append(out, bytes, limits)?;
    assert(out@ =~= old(out)@ + prefixed(bytes@));
    Ok(())
}


/// Appends the encoding of a persistent origin.
fn append_origin(out: &mut Vec<u8>, origin: &Origin, limits: StorageCheckpointLimits) -> (r: Result<
    (),
    StorageCheckpointError,
>)
    requires
        persistent_identity_fits(origin@),
    ensures
        r is Ok <==> old(out)@.len() + origin_encoding(origin@).len() <= limits.max_checkpoint_bytes,
        r is Ok ==> final(out)@ == old(out)@ + origin_encoding(origin@),
        r matches Err(e) ==> is_size_failure(e.kind),
        roomy(limits) && old(out)@.len() <= limits.max_checkpoint_bytes ==> (r matches Err(e) ==> e.kind
            == StorageCheckpointErrorKind::CheckpointTooLarge),
        written_as(
            r,
            write_run(origin_steps(origin@), old(out)@.len() as nat, limits.max_checkpoint_bytes as nat),
            final(out)@.len() as nat,
            limits.max_checkpoint_bytes as nat,
        ),
{
    let ghost max = limits.max_checkpoint_bytes as nat;
    let ghost whole = write_run(origin_steps(origin@), old(out)@.len() as nat, max);
    match origin {
        Origin::Tuple { scheme, host, port } => {
            let ghost port_steps = seq![WriteStep::Put(be16(*port))];
            proof {
                assert(origin_steps(origin@) =~= prefixed_steps(encode_utf8(scheme@)) + (host_steps(
                    host@,
                ) + port_steps));
                lemma_write_run_concat(
                    prefixed_steps(encode_utf8(scheme@)),
                    host_steps(host@) + port_steps,
                    old(out)@.len() as nat,
                    max,
                );
            }
            append_prefixed(out, scheme.as_str().as_bytes(), limits)?;
            let ghost after_scheme = out@;
            assert(whole == write_run(host_steps(host@) + port_steps, out@.len() as nat, max));
            match host {
                UrlHost::Domain(domain) => {
                    let ghost d = encode_utf8(domain@);
                    proof {
                        assert(host_steps(host@) + port_steps =~= seq![WriteStep::Put(seq![0u8])] + (
                        prefixed_steps(d) + port_steps));
                        lemma_write_run_concat(seq![WriteStep::Put(seq![0u8])], prefixed_steps(d) + port_steps, out@.len() as nat, max);
                    }
                    let tag: Vec<u8> = vec![0u8];
                    assert(tag@ =~= seq![0u8]);
                    append(out, tag.as_slice(), limits)?;
                    proof {
                        lemma_write_run_concat(prefixed_steps(d), port_steps, out@.len() as nat, max);
                    }
                    append_prefixed(out, domain.as_str().as_bytes(), limits)?;
                    assert(out@ =~= after_scheme + host_encoding(host@));
                },
                UrlHost::Ipv4(octets) => {
                    proof {
                        assert(host_steps(host@) + port_steps =~= seq![WriteStep::Put(seq![1u8])] + (
                        seq![WriteStep::Put(octets@)] + port_steps));
                        lemma_write_run_concat(seq![WriteStep::Put(seq![1u8])], seq![WriteStep::Put(octets@)] + port_steps, out@.len() as nat, max);
                    }
                    let tag: Vec<u8> = vec![1u8];
                    assert(tag@ =~= seq![1u8]);
                    append(out, tag.as_slice(), limits)?;
                    proof {
                        lemma_write_run_concat(seq![WriteStep::Put(octets@)], port_steps, out@.len() as nat, max);
                    }
                    append(out, octets.as_slice(), limits)?;
                    assert(out@ =~= after_scheme + host_encoding(host@));
                },
                UrlHost::Ipv6(octets) => {
                    proof {
                        assert(host_steps(host@) + port_steps =~= seq![WriteStep::Put(seq![2u8])] + (
                        seq![WriteStep::Put(octets@)] + port_steps));
                        lemma_write_run_concat(seq![WriteStep::Put(seq![2u8])], seq![WriteStep::Put(octets@)] + port_steps, out@.len() as nat, max);
                    }
                    let tag: Vec<u8> = vec![2u8];
                    assert(tag@ =~= seq![2u8]);
                    append(out, tag.as_slice(), limits)?;
                    proof {
                        lemma_write_run_concat(seq![WriteStep::Put(octets@)], port_steps, out@.len() as nat, max);
                    }
                    append(out, octets.as_slice(), limits)?;
                    assert(out@ =~= after_scheme + host_encoding(host@));
                },
            }
            assert(whole == write_run(port_steps, out@.len() as nat, max));
            let port_bytes = be16_bytes(*port);
            append(out, port_bytes.as_slice(), limits)?;
            assert(out@ =~= old(out)@ + origin_encoding(origin@));
            Ok(())
        },
        Origin::Opaque(_) => {
            assert(false);
            Ok(())
        },
    }
}


/// Appends one entry: its key and its value, each preceded by its length.
fn append_entry(out: &mut Vec<u8>, entry: &StorageEntry, limits: StorageCheckpointLimits) -> (r: Result<
    (),
    StorageCheckpointError,
>)
    ensures
        r is Ok <==> entry_fits(entry_pair()(*entry)) && old(out)@.len() + entry_encoding(
            entry_pair()(*entry),
        ).len() <= limits.max_checkpoint_bytes,
        r is Ok ==> final(out)@ == old(out)@ + entry_encoding(entry_pair()(*entry)),
        r matches Err(e) ==> is_size_failure(e.kind),
        roomy(limits) && old(out)@.len() <= limits.max_checkpoint_bytes && entry_fits(entry_pair()(*entry))
            ==> (r matches Err(e) ==> e.kind == StorageCheckpointErrorKind::CheckpointTooLarge),
        written_as(
            r,
            write_run(entry_steps(entry_pair()(*entry)), old(out)@.len() as nat, limits.max_checkpoint_bytes as nat),
            final(out)@.len() as nat,
            limits.max_checkpoint_bytes as nat,
        ),
{
    proof {
        reveal(entry_encoding);
    }
    let ghost pair = entry_pair()(*entry);
    let ghost start = out@;
    let ghost max = limits.max_checkpoint_bytes as nat;
    proof {
        lemma_write_run_concat(prefixed_steps(encode_utf8(pair.0)), prefixed_steps(pair.1), start.len() as nat, max);
    }
    append_prefixed(out, entry.key.as_str().as_bytes(), limits)?;
    append_prefixed(out, entry.value.as_slice(), limits)?;
    assert(out@ =~= start + entry_encoding(pair));
    Ok(())
}

/// Appends the block of one origin's storage: the origin, the entry count
/// and the entries in key order.
fn append_origin_block(out: &mut Vec<u8>, storage: &OriginStorage, limits: StorageCheckpointLimits) -> (r:
    Result<(), StorageCheckpointError>)
    requires
        persistent_identity_fits(storage.origin@),
    ensures
        r is Ok <==> block_fits(listing_item()(*storage)) && old(out)@.len() + origin_block(
            listing_item()(*storage),
        ).len() <= limits.max_checkpoint_bytes,
        r is Ok ==> final(out)@ == old(out)@ + origin_block(listing_item()(*storage)),
        r matches Err(e) ==> is_size_failure(e.kind),
        roomy(limits) && old(out)@.len() <= limits.max_checkpoint_bytes && block_fits(
            listing_item()(*storage),
        ) ==> (r matches Err(e) ==> e.kind == StorageCheckpointErrorKind::CheckpointTooLarge),
        written_as(
            r,
            write_run(block_steps(listing_item()(*storage)), old(out)@.len() as nat, limits.max_checkpoint_bytes as nat),
            final(out)@.len() as nat,
            limits.max_checkpoint_bytes as nat,
        ),
{
    let ghost item = listing_item()(*storage);
    let ghost pairs = item.1;
    let ghost start = out@;
    let ghost max = limits.max_checkpoint_bytes as nat;
    let ghost whole = write_run(block_steps(item), start.len() as nat, max);
    proof {
        reveal(origin_block);
        assert(origin_block(item) == origin_encoding(item.0) + be32(item.1.len() as u32)
            + entries_encoding(pairs));
        assert(block_steps(item) =~= origin_steps(item.0) + (count_steps(pairs.len()) + entries_steps(pairs)));
        lemma_write_run_concat(origin_steps(item.0), count_steps(pairs.len()) + entries_steps(pairs), start.len() as nat, max);
        assert(item.0 == storage.origin@);
    }
    append_origin(out, &storage.origin, limits)?;
    let count = storage.entries.len();
    proof {
        let cs = count_steps(pairs.len());
        assert(cs[0] == WriteStep::Check(pairs.len()));
        assert(cs.drop_first() =~= seq![WriteStep::Put(be32(pairs.len() as u32))]);
        lemma_write_run_concat(cs, entries_steps(pairs), out@.len() as nat, max);
        lemma_write_run_concat(cs.drop_first(), entries_steps(pairs), out@.len() as nat, max);
    }
    if count > 4294967295 {
        return Err(length_overflow());
    }
    let count_bytes = be32_bytes(count as u32);
    append(out, count_bytes.as_slice(), limits)?;
    let mut j: usize = 0;
    assert(pairs.skip(0) =~= pairs);
    assert(start + origin_block(item) =~= out@ + entries_encoding(pairs.skip(0)));
    while j < count
        invariant
            0 <= j <= count,
            count == storage.entries@.len(),
            count <= u32::MAX,
            pairs == storage.entries@.map_values(entry_pair()),
            item == listing_item()(*storage),
            start + origin_block(item) == out@ + entries_encoding(pairs.skip(j as int)),
            out@.len() <= limits.max_checkpoint_bytes,
            start == old(out)@,
            persistent_identity_fits(storage.origin@),
            forall|i: int| 0 <= i < j ==> entry_fits(#[trigger] pairs[i]),
            max == limits.max_checkpoint_bytes,
            whole == write_run(block_steps(item), start.len() as nat, max),
            whole == write_run(entries_steps(pairs.skip(j as int)), out@.len() as nat, max),
        decreases count - j,
    {
        proof {
            let rest = pairs.skip(j as int);
            assert(rest[0] == pairs[j as int]);
            assert(rest.drop_first() =~= pairs.skip(j + 1));
            assert(pairs[j as int] == entry_pair()(storage.entries@[j as int]));
            assert(entries_steps(rest) == entry_steps(rest[0]) + entries_steps(rest.drop_first()));
            lemma_write_run_concat(entry_steps(pairs[j as int]), entries_steps(pairs.skip(j + 1)), out@.len() as nat, max);
        }
        let ghost before = out@;
        let step = append_entry(out, &storage.entries[j], limits);
        if step.is_err() {
            proof {
                assert(start + origin_block(item) =~= before + entry_encoding(pairs[j as int])
                    + entries_encoding(pairs.skip(j + 1)));
                if !entry_fits(pairs[j as int]) {
                    assert(!block_fits(item));
                } else {
                    assert(start.len() + origin_block(item).len() >= before.len() + entry_encoding(
                        pairs[j as int],
                    ).len());
                    assert(entry_encoding(pairs[j as int]) == entry_encoding(entry_pair()(storage.entries@[j as int])));
                }
            }
            return step;
        }
        proof {
            assert(start + origin_block(item) =~= out@ + entries_encoding(pairs.skip(j + 1)));
        }
        j = j + 1;
    }
    proof {
        assert(pairs.skip(count as int) =~= Seq::<(Seq<char>, Seq<u8>)>::empty());
        assert(out@ =~= start + origin_block(item));
        assert(entries_steps(pairs.skip(count as int)) =~= Seq::<WriteStep>::empty());
    }
    Ok(())
}

/// Writes the checkpoint of a storage state: the origins in canonical order,
/// each with its entries in key byte order. Refused with `InvalidLimits` for
/// invalid limits; then with the storage error of the first origin that may
/// not be persisted; otherwise written exactly when every count and length
/// fits its field and the image fits the limit. The checks are taken in
/// writing order (`checkpoint_steps`), and the first that fails is reported:
/// a count or length that does not fit its field as `LengthOverflow`, an
/// image that would pass the limit as `CheckpointTooLarge` with the length
/// it would have needed.
pub fn encode_storage_checkpoint(storage: &StorageProcessState, limits: StorageCheckpointLimits) -> (r:
    Result<Vec<u8>, StorageCheckpointError>)
    requires
        storage.wf(),
    ensures
        !limits.spec_is_valid() ==> (r matches Err(e) && e.kind == StorageCheckpointErrorKind::InvalidLimits
            && e.message@ == "storage checkpoint byte limit is too small for the checkpoint header"@),
        limits.spec_is_valid() ==> ((r is Ok) <==> (listing_fits(storage.spec_listing())
            && checkpoint_encoding(storage.spec_listing()).len() <= limits.max_checkpoint_bytes)),
        r matches Ok(b) ==> b@ == checkpoint_encoding(storage.spec_listing()),
        limits.spec_is_valid() && !listing_identities_fit(storage.spec_listing()) ==> (r matches Err(e)
            && e.kind == StorageCheckpointErrorKind::Storage(StorageErrorKind::OriginIdentityTooLarge)),
        limits.spec_is_valid() && listing_identities_fit(storage.spec_listing()) ==> (r matches Err(e)
            ==> is_size_failure(e.kind)),
        limits.spec_is_valid() && roomy(limits) && listing_identities_fit(storage.spec_listing())
            && listing_fits(storage.spec_listing()) && checkpoint_encoding(storage.spec_listing()).len()
            > limits.max_checkpoint_bytes ==> (r matches Err(e) && e.kind
            == StorageCheckpointErrorKind::CheckpointTooLarge),
        limits.spec_is_valid() && listing_identities_fit(storage.spec_listing()) ==> match write_run(
            checkpoint_steps(storage.spec_listing()),
            0,
            limits.max_checkpoint_bytes as nat,
        ) {
            Ok(_) => r matches Ok(b) && b@ == checkpoint_encoding(storage.spec_listing()),
            Err(f) => r matches Err(e) && reports(e, f, limits.max_checkpoint_bytes as nat),
        },
{
    if !limits.is_valid() {
        return Err(
            StorageCheckpointError::new(
                StorageCheckpointErrorKind::InvalidLimits,
                "storage checkpoint byte limit is too small for the checkpoint header",
            ),
        );
    }
    proof {
        storage.lemma_parts();
    }
    let ghost l = storage.spec_listing();
    let n = storage.origins.len();
    let mut v: usize = 0;
    while v < n
        invariant
            0 <= v <= n,
            n == storage.origins@.len(),
            storage.wf(),
            limits.spec_is_valid(),
            l == storage.origins@.map_values(listing_item()),
            forall|i: int| 0 <= i < v ==> persistent_identity_fits(#[trigger] l[i].0),
        decreases n - v,
    {
        proof {
            storage.lemma_parts();
            assert(origin_storage_wf(storage.origins@[v as int], storage.limits));
            assert(l[v as int] == listing_item()(storage.origins@[v as int]));
        }
        match validate_persistent_origin_identity(&storage.origins[v].origin) {
            Err(e) => {
                proof {
                    assert(!persistent_identity_fits(l[v as int].0));
                    assert(!listing_identities_fit(l));
                }
                return Err(StorageCheckpointError::from_storage(e));
            },
            Ok(()) => {},
        }
        v = v + 1;
    }
    let ghost max = limits.max_checkpoint_bytes as nat;
    let ghost whole = write_run(checkpoint_steps(l), 0, max);
    let ghost put_magic = seq![WriteStep::Put(checkpoint_magic())];
    let ghost put_version = seq![WriteStep::Put(be16(STORAGE_CHECKPOINT_VERSION))];
    let ghost put_count = seq![WriteStep::Put(be32(l.len() as u32))];
    proof {
        let h = checkpoint_steps(l);
        assert(h[0] == WriteStep::Check(l.len()));
        assert(h.drop_first() =~= put_magic + (put_version + (put_count + blocks_steps(l))));
        lemma_write_run_concat(put_magic, put_version + (put_count + blocks_steps(l)), 0, max);
    }
    if n > 4294967295 {
        return Err(length_overflow());
    }
    let mut out: Vec<u8> = Vec::new();
    let magic: Vec<u8> = vec![82u8, 65u8, 82u8, 79u8, 71u8, 83u8, 84u8, 49u8];
    assert(magic@ =~= checkpoint_magic());
    append(&mut out, magic.as_slice(), limits)?;
    proof {
        lemma_write_run_concat(put_version, put_count + blocks_steps(l), out@.len() as nat, max);
    }
    let version = be16_bytes(STORAGE_CHECKPOINT_VERSION);
    append(&mut out, version.as_slice(), limits)?;
    proof {
        lemma_write_run_concat(put_count, blocks_steps(l), out@.len() as nat, max);
    }
    let count = be32_bytes(n as u32);
    append(&mut out, count.as_slice(), limits)?;
    assert(l.skip(0) =~= l);
    assert(checkpoint_encoding(l) =~= out@ + blocks_encoding(l.skip(0)));
    let mut k: usize = 0;
    while k < n
        invariant
            0 <= k <= n,
            n == storage.origins@.len(),
            n <= u32::MAX,
            limits.spec_is_valid(),
            storage.wf(),
            l == storage.origins@.map_values(listing_item()),
            forall|i: int| 0 <= i < n ==> persistent_identity_fits(#[trigger] l[i].0),
            checkpoint_encoding(l) == out@ + blocks_encoding(l.skip(k as int)),
            out@.len() <= limits.max_checkpoint_bytes,
            forall|i: int| 0 <= i < k ==> block_fits(#[trigger] l[i]),
            max == limits.max_checkpoint_bytes,
            whole == write_run(checkpoint_steps(l), 0, max),
            whole == write_run(blocks_steps(l.skip(k as int)), out@.len() as nat, max),
        decreases n - k,
    {
        let origin_storage = &storage.origins[k];
        proof {
            storage.lemma_parts();
            assert(origin_storage_wf(storage.origins@[k as int], storage.limits));
            let rest = l.skip(k as int);
            assert(rest[0] == l[k as int]);
            assert(rest.drop_first() =~= l.skip(k + 1));
            assert(l[k as int] == listing_item()(storage.origins@[k as int]));
            assert(persistent_identity_fits(l[k as int].0));
            assert(blocks_steps(rest) == block_steps(rest[0]) + blocks_steps(rest.drop_first()));
            lemma_write_run_concat(block_steps(l[k as int]), blocks_steps(l.skip(k + 1)), out@.len() as nat, max);
        }
        let ghost before = out@;
        let step = append_origin_block(&mut out, origin_storage, limits);
        if step.is_err() {
            proof {
                assert(checkpoint_encoding(l) =~= before + origin_block(l[k as int]) + blocks_encoding(l.skip(k + 1)));
                if !block_fits(l[k as int]) {
                    assert(!listing_fits(l));
                }
            }
            return Err(step.unwrap_err());
        }
        proof {
            assert(checkpoint_encoding(l) =~= out@ + blocks_encoding(l.skip(k + 1)));
        }
        k = k + 1;
    }
    proof {
        assert(l.skip(n as int) =~= Seq::<(OriginModel, Seq<(Seq<char>, Seq<u8>)>)>::empty());
        assert(out@ =~= checkpoint_encoding(l));
        assert(blocks_steps(l.skip(n as int)) =~= Seq::<WriteStep>::empty());
    }
    Ok(out)
}


/// `bytes` holds `seg` at `pos`.
pub open spec fn holds_at(bytes: Seq<u8>, pos: int, seg: Seq<u8>) -> bool {
    0 <= pos && pos + seg.len() <= bytes.len() && bytes.subrange(pos, pos + seg.len()) == seg
}

proof fn lemma_holds_at_concat(bytes: Seq<u8>, pos: int, a: Seq<u8>, b: Seq<u8>)
    ensures
        holds_at(bytes, pos, a + b) <==> (holds_at(bytes, pos, a) && holds_at(bytes, pos + a.len(), b)),
{
    if holds_at(bytes, pos, a + b) {
        let whole = bytes.subrange(pos, pos + a.len() + b.len());
        assert(whole == a + b);
        assert forall|i: int| 0 <= i < a.len() implies bytes.subrange(pos, pos + a.len())[i] == a[i] by {
            assert(whole[i] == (a + b)[i]);
        }
        assert(bytes.subrange(pos, pos + a.len()) =~= a);
        assert forall|i: int| 0 <= i < b.len() implies bytes.subrange(pos + a.len(), pos + a.len() + b.len())[i] == b[i] by {
            assert(whole[a.len() + i] == (a + b)[a.len() + i]);
        }
        assert(bytes.subrange(pos + a.len(), pos + a.len() + b.len()) =~= b);
    }
    if holds_at(bytes, pos, a) && holds_at(bytes, pos + a.len(), b) {
        assert forall|i: int| 0 <= i < a.len() + b.len() implies bytes.subrange(pos, pos + a.len() + b.len())[i] == (a + b)[i] by {
            if i < a.len() {
                assert(bytes.subrange(pos, pos + a.len())[i] == a[i]);
            } else {
                assert(bytes.subrange(pos + a.len(), pos + a.len() + b.len())[i - a.len()] == b[i - a.len()]);
            }
        }
        assert(bytes.subrange(pos, pos + (a + b).len()) =~= a + b);
    }
}

proof fn lemma_be32_injective(a: u32, b: u32)
    ensures
        be32(a) == be32(b) ==> a == b,
{
    let s = be32(a);
    lemma_be32_roundtrip(a, s[0], s[1], s[2], s[3]);
    lemma_be32_roundtrip(b, s[0], s[1], s[2], s[3]);
    assert(s =~= seq![s[0], s[1], s[2], s[3]]);
}

proof fn lemma_be16_injective(a: u16, b: u16)
    ensures
        be16(a) == be16(b) ==> a == b,
{
    let s = be16(a);
    lemma_be16_roundtrip(a, s[0], s[1]);
    lemma_be16_roundtrip(b, s[0], s[1]);
    assert(s =~= seq![s[0], s[1]]);
}


/// A failure to read a field that runs past the end of the checkpoint.
pub open spec fn is_read_failure(kind: StorageCheckpointErrorKind) -> bool {
    kind is Truncated || kind is LengthOverflow
}

fn truncated() -> (r: StorageCheckpointError)
    ensures
        r.kind == StorageCheckpointErrorKind::Truncated,
        r.message@ == "storage checkpoint ended before the declared field length"@,
{
    StorageCheckpointError::new(
        StorageCheckpointErrorKind::Truncated,
        "storage checkpoint ended before the declared field length",
    )
}

/// Advances past `n` bytes.
fn take(bytes: &[u8], pos: usize, n: usize) -> (r: Result<usize, StorageCheckpointError>)
    requires
        pos <= bytes@.len(),
    ensures
        r is Ok <==> pos + n <= bytes@.len(),
        r matches Ok(p) ==> p == pos + n,
        r matches Err(e) ==> is_read_failure(e.kind),
{
    let length = bytes.len();
    let end = match pos.checked_add(n) {
        Some(e) => e,
        None => {
            return Err(length_overflow());
        },
    };
    if end > length {
        return Err(truncated());
    }
    Ok(end)
}

fn read_u8(bytes: &[u8], pos: usize) -> (r: Result<(u8, usize), StorageCheckpointError>)
    requires
        pos <= bytes@.len(),
    ensures
        r is Ok <==> pos + 1 <= bytes@.len(),
        r matches Ok((v, p)) ==> p == pos + 1 && holds_at(bytes@, pos as int, seq![v]),
        r matches Err(e) ==> is_read_failure(e.kind),
{
    let p = take(bytes, pos, 1)?;
    let v = bytes[pos];
    assert(bytes@.subrange(pos as int, pos + 1) =~= seq![v]);
    Ok((v, p))
}

fn read_u16(bytes: &[u8], pos: usize) -> (r: Result<(u16, usize), StorageCheckpointError>)
    requires
        pos <= bytes@.len(),
    ensures
        r is Ok <==> pos + 2 <= bytes@.len(),
        r matches Ok((v, p)) ==> p == pos + 2 && holds_at(bytes@, pos as int, be16(v)),
        r matches Err(e) ==> is_read_failure(e.kind),
{
    let p = take(bytes, pos, 2)?;
    let (b0, b1) = (bytes[pos], bytes[pos + 1]);
    proof {
        assert(b0 * 256 + b1 < 65536) by (nonlinear_arith)
            requires
                b0 < 256,
                b1 < 256,
        ;
    }
    let v = (b0 as u16) * 256 + (b1 as u16);
    proof {
        lemma_be16_roundtrip(v, b0, b1);
        assert(bytes@.subrange(pos as int, pos + 2) =~= seq![b0, b1]);
    }
    Ok((v, p))
}

fn read_u32(bytes: &[u8], pos: usize) -> (r: Result<(u32, usize), StorageCheckpointError>)
    requires
        pos <= bytes@.len(),
    ensures
        r is Ok <==> pos + 4 <= bytes@.len(),
        r matches Ok((v, p)) ==> p == pos + 4 && holds_at(bytes@, pos as int, be32(v)),
        r matches Err(e) ==> is_read_failure(e.kind),
{
    let p = take(bytes, pos, 4)?;
    let (b0, b1, b2, b3) = (bytes[pos], bytes[pos + 1], bytes[pos + 2], bytes[pos + 3]);
    proof {
        assert(b0 * 16777216 + b1 * 65536 + b2 * 256 + b3 < 4294967296) by (nonlinear_arith)
            requires
                b0 < 256,
                b1 < 256,
                b2 < 256,
                b3 < 256,
        ;
    }
    let v = (b0 as u32) * 16777216 + (b1 as u32) * 65536 + (b2 as u32) * 256 + (b3 as u32);
    proof {
        lemma_be32_roundtrip(v, b0, b1, b2, b3);
        assert(bytes@.subrange(pos as int, pos + 4) =~= seq![b0, b1, b2, b3]);
    }
    Ok((v, p))
}

/// Reads a length-prefixed field of at most `limit` bytes; a longer one is
/// refused with the storage error `kind`.
fn read_bounded_bytes(bytes: &[u8], pos: usize, limit: usize, kind: StorageErrorKind) -> (r: Result<
    (Vec<u8>, usize),
    StorageCheckpointError,
>)
    requires
        pos <= bytes@.len(),
    ensures
        r matches Ok((v, p)) ==> p == pos + 4 + v@.len() && v@.len() <= limit && holds_at(
            bytes@,
            pos as int,
            prefixed(v@),
        ),
        forall|x: Seq<u8>|
            x.len() <= limit && x.len() <= u32::MAX && #[trigger] holds_at(bytes@, pos as int, prefixed(x))
                ==> (r matches Ok((v, p)) && v@ == x),
        r matches Err(e) ==> (is_read_failure(e.kind) || e.kind == StorageCheckpointErrorKind::Storage(
            kind,
        )),
{
    let (length, p1) = read_u32(bytes, pos)?;
    let length = length as usize;
    if length > limit {
        let message = size_message("storage checkpoint field", length, limit);
        proof {
            assert forall|x: Seq<u8>|
                x.len() <= limit && x.len() <= u32::MAX && #[trigger] holds_at(bytes@, pos as int, prefixed(x))
                    implies false by {
                lemma_holds_at_concat(bytes@, pos as int, be32(x.len() as u32), x);
                lemma_be32_injective(x.len() as u32, length as u32);
            }
        }
        return Err(StorageCheckpointError::from_storage(StorageError::new(kind, message.as_str())));
    }
    let p2 = match take(bytes, p1, length) {
        Ok(p) => p,
        Err(e) => {
            proof {
                assert forall|x: Seq<u8>|
                    x.len() <= limit && x.len() <= u32::MAX && #[trigger] holds_at(bytes@, pos as int, prefixed(x))
                        implies false by {
                    lemma_holds_at_concat(bytes@, pos as int, be32(x.len() as u32), x);
                    lemma_be32_injective(x.len() as u32, length as u32);
                }
            }
            return Err(e);
        },
    };
    let v = copy_bytes(vstd::slice::slice_subrange(bytes, p1, p2));
    proof {
        lemma_holds_at_concat(bytes@, pos as int, be32(length as u32), v@);
        assert forall|x: Seq<u8>|
            x.len() <= limit && x.len() <= u32::MAX && #[trigger] holds_at(bytes@, pos as int, prefixed(x))
                implies v@ == x by {
            lemma_holds_at_concat(bytes@, pos as int, be32(x.len() as u32), x);
            lemma_be32_injective(x.len() as u32, length as u32);
        }
    }
    Ok((v, p2))
}

/// Reads a length-prefixed UTF-8 field of at most `limit` bytes.
fn read_bounded_string(bytes: &[u8], pos: usize, limit: usize, kind: StorageErrorKind) -> (r: Result<
    (String, usize),
    StorageCheckpointError,
>)
    requires
        pos <= bytes@.len(),
    ensures
        r matches Ok((s, p)) ==> p == pos + 4 + utf8_len(s@) && utf8_len(s@) <= limit && holds_at(
            bytes@,
            pos as int,
            prefixed(encode_utf8(s@)),
        ),
        forall|x: Seq<char>|
            utf8_len(x) <= limit && utf8_len(x) <= u32::MAX && #[trigger] holds_at(
                bytes@,
                pos as int,
                prefixed(encode_utf8(x)),
            ) ==> (r matches Ok((s, p)) && s@ == x),
        r matches Err(e) ==> (is_read_failure(e.kind) || e.kind == StorageCheckpointErrorKind::Storage(
            kind,
        ) || e.kind == StorageCheckpointErrorKind::InvalidUtf8),
{
    let (raw, p) = read_bounded_bytes(bytes, pos, limit, kind)?;
    let ghost raw_view = raw@;
    match string_from_utf8(raw) {
        Some(s) => {
            proof {
                assert forall|x: Seq<char>|
                    utf8_len(x) <= limit && utf8_len(x) <= u32::MAX && #[trigger] holds_at(
                        bytes@,
                        pos as int,
                        prefixed(encode_utf8(x)),
                    ) implies s@ == x by {
                    lemma_encode_injective(s@, x);
                }
            }
            Ok((s, p))
        },
        None => {
            proof {
                assert forall|x: Seq<char>|
                    utf8_len(x) <= limit && utf8_len(x) <= u32::MAX && #[trigger] holds_at(
                        bytes@,
                        pos as int,
                        prefixed(encode_utf8(x)),
                    ) implies false by {
                    encode_utf8_valid_utf8(x);
                }
            }
            Err(
                StorageCheckpointError::new(
                    StorageCheckpointErrorKind::InvalidUtf8,
                    "storage checkpoint string field is not valid UTF-8",
                ),
            )
        },
    }
}


/// The parts of a persisted origin's encoding, each at its position.
proof fn lemma_origin_parts(bytes: Seq<u8>, pos: int, m: OriginModel)
    requires
        persistent_identity_fits(m),
        holds_at(bytes, pos, origin_encoding(m)),
    ensures
        holds_at(bytes, pos, prefixed(encode_utf8(m->scheme))),
        utf8_len(m->scheme) <= MAX_PERSISTENT_ORIGIN_IDENTITY_BYTES,
        holds_at(bytes, pos + 4 + utf8_len(m->scheme), host_encoding(m->host)),
        holds_at(
            bytes,
            pos + 4 + utf8_len(m->scheme) + host_encoding(m->host).len(),
            be16(m->port),
        ),
{
    let a = prefixed(encode_utf8(m->scheme));
    let h = host_encoding(m->host);
    assert(origin_encoding(m) =~= a + (h + be16(m->port)));
    lemma_holds_at_concat(bytes, pos, a, h + be16(m->port));
    lemma_holds_at_concat(bytes, pos + a.len(), h, be16(m->port));
}

/// The parts of a host's encoding: its tag, then its domain or octets.
proof fn lemma_host_parts(bytes: Seq<u8>, pos: int, h: HostModel)
    requires
        holds_at(bytes, pos, host_encoding(h)),
    ensures
        pos < bytes.len(),
        bytes[pos] == host_encoding(h)[0],
        holds_at(bytes, pos + 1, host_encoding(h).drop_first()),
{
    let e = host_encoding(h);
    assert(e =~= seq![e[0]] + e.drop_first());
    lemma_holds_at_concat(bytes, pos, seq![e[0]], e.drop_first());
    assert(bytes.subrange(pos, pos + 1)[0] == bytes[pos]);
}

/// Reads a persisted origin: scheme, host and port.
fn decode_origin(bytes: &[u8], pos: usize) -> (r: Result<(Origin, usize), StorageCheckpointError>)
    requires
        pos <= bytes@.len(),
    ensures
        r matches Ok((o, p)) ==> o@ is Tuple && p == pos + origin_encoding(o@).len() && holds_at(
            bytes@,
            pos as int,
            origin_encoding(o@),
        ),
        forall|m: OriginModel|
            persistent_identity_fits(m) && #[trigger] holds_at(bytes@, pos as int, origin_encoding(m))
                ==> (r matches Ok((o, p)) && o@ == m),
{
    let ghost b = bytes@;
    let (scheme, p1) = match read_bounded_string(
        bytes,
        pos,
        MAX_PERSISTENT_ORIGIN_IDENTITY_BYTES,
        StorageErrorKind::OriginIdentityTooLarge,
    ) {
        Ok(v) => v,
        Err(e) => {
            proof {
                assert forall|m: OriginModel|
                    persistent_identity_fits(m) && #[trigger] holds_at(b, pos as int, origin_encoding(m))
                        implies false by {
                    lemma_origin_parts(b, pos as int, m);
                }
            }
            return Err(e);
        },
    };
    proof {
        assert forall|m: OriginModel|
            persistent_identity_fits(m) && #[trigger] holds_at(b, pos as int, origin_encoding(m))
                implies m->scheme == scheme@ && holds_at(b, p1 as int, host_encoding(m->host)) by {
            lemma_origin_parts(b, pos as int, m);
        }
    }
    let (tag, p2) = match read_u8(bytes, p1) {
        Ok(v) => v,
        Err(e) => {
            proof {
                assert forall|m: OriginModel|
                    persistent_identity_fits(m) && #[trigger] holds_at(b, pos as int, origin_encoding(m))
                        implies false by {
                    lemma_host_parts(b, p1 as int, m->host);
                }
            }
            return Err(e);
        },
    };
    proof {
        assert(b.subrange(p1 as int, p1 + 1)[0] == b[p1 as int]);
        assert forall|m: OriginModel|
            persistent_identity_fits(m) && #[trigger] holds_at(b, pos as int, origin_encoding(m))
                implies host_encoding(m->host)[0] == tag && holds_at(
                b,
                p2 as int,
                host_encoding(m->host).drop_first(),
            ) by {
            lemma_host_parts(b, p1 as int, m->host);
        }
    }
    let host_result: Result<(UrlHost, usize), StorageCheckpointError> = if tag == 0 {
        match read_bounded_string(
            bytes,
            p2,
            MAX_PERSISTENT_ORIGIN_IDENTITY_BYTES,
            StorageErrorKind::OriginIdentityTooLarge,
        ) {
            Ok((domain, p)) => Ok((UrlHost::Domain(domain), p)),
            Err(e) => Err(e),
        }
    } else if tag == 1 {
        match take(bytes, p2, 4) {
            Ok(p) => {
                let octets = [bytes[p2], bytes[p2 + 1], bytes[p2 + 2], bytes[p2 + 3]];
                assert(octets@ =~= b.subrange(p2 as int, p as int));
                Ok((UrlHost::Ipv4(octets), p))
            },
            Err(e) => Err(e),
        }
    } else if tag == 2 {
        match take(bytes, p2, 16) {
            Ok(p) => {
                let octets = [
                    bytes[p2],
                    bytes[p2 + 1],
                    bytes[p2 + 2],
                    bytes[p2 + 3],
                    bytes[p2 + 4],
                    bytes[p2 + 5],
                    bytes[p2 + 6],
                    bytes[p2 + 7],
                    bytes[p2 + 8],
                    bytes[p2 + 9],
                    bytes[p2 + 10],
                    bytes[p2 + 11],
                    bytes[p2 + 12],
                    bytes[p2 + 13],
                    bytes[p2 + 14],
                    bytes[p2 + 15],
                ];
                assert(octets@ =~= b.subrange(p2 as int, p as int));
                Ok((UrlHost::Ipv6(octets), p))
            },
            Err(e) => Err(e),
        }
    } else {
        Err(
            StorageCheckpointError::new(
                StorageCheckpointErrorKind::InvalidHostTag,
                "invalid storage checkpoint host tag",
            ),
        )
    };
    proof {
        assert forall|m: OriginModel|
            persistent_identity_fits(m) && #[trigger] holds_at(b, pos as int, origin_encoding(m))
                implies (host_result matches Ok((h, p)) && h@ == m->host && p == p2
                + host_encoding(m->host).drop_first().len()) by {
            let rest = host_encoding(m->host).drop_first();
            match m->host {
                HostModel::Domain(d) => {
                    assert(rest =~= prefixed(encode_utf8(d)));
                },
                HostModel::Ipv4(a) => {
                    assert(rest =~= a);
                },
                HostModel::Ipv6(a) => {
                    assert(rest =~= a);
                },
            }
        }
    }
    let (host, p3) = match host_result {
        Ok(v) => v,
        Err(e) => {
            return Err(e);
        },
    };
    proof {
        assert(host_encoding(host@) =~= seq![tag] + b.subrange(p2 as int, p3 as int));
        lemma_holds_at_concat(b, p1 as int, seq![tag], b.subrange(p2 as int, p3 as int));
        assert forall|m: OriginModel|
            persistent_identity_fits(m) && #[trigger] holds_at(b, pos as int, origin_encoding(m))
                implies holds_at(b, p3 as int, be16(m->port)) by {
            lemma_origin_parts(b, pos as int, m);
        }
    }
    let (port, p4) = match read_u16(bytes, p3) {
        Ok(v) => v,
        Err(e) => {
            return Err(e);
        },
    };
    let origin = Origin::Tuple { scheme, host, port };
    proof {
        assert forall|m: OriginModel|
            persistent_identity_fits(m) && #[trigger] holds_at(b, pos as int, origin_encoding(m))
                implies origin@ == m by {
            lemma_be16_injective(port, m->port);
        }
        lemma_holds_at_concat(b, pos as int, prefixed(encode_utf8(scheme@)), host_encoding(host@));
        lemma_holds_at_concat(
            b,
            pos as int,
            prefixed(encode_utf8(scheme@)) + host_encoding(host@),
            be16(port),
        );
        assert(origin_encoding(origin@) == prefixed(encode_utf8(scheme@)) + host_encoding(host@)
            + be16(port));
    }
    Ok((origin, p4))
}


/// The bytes an entry of a listing is charged.
pub open spec fn pair_weight() -> spec_fn((Seq<char>, Seq<u8>)) -> nat {
    |p: (Seq<char>, Seq<u8>)| utf8_len(p.0) + p.1.len()
}

/// The bytes an origin of a listing is charged.
pub open spec fn block_weight() -> spec_fn((OriginModel, Seq<(Seq<char>, Seq<u8>)>)) -> nat {
    |o: (OriginModel, Seq<(Seq<char>, Seq<u8>)>)| weight_sum(o.1, pair_weight())
}

/// Entries that a storage process with these limits accepts for one origin,
/// on top of `base` bytes already stored: keys in increasing byte order,
/// keys and values within their quotas, and bytes within the origin and
/// process quotas.
pub open spec fn entries_restorable(es: Seq<(Seq<char>, Seq<u8>)>, limits: StorageLimits, base: int) -> bool {
    &&& es.len() <= limits.max_entries_per_origin
    &&& forall|i: int, j: int|
        #![trigger es[i], es[j]]
        0 <= i && j == i + 1 && j < es.len() ==> bytes_order(encode_utf8(es[i].0), encode_utf8(es[j].0))
            == Order::Less
    &&& forall|j: int|
        0 <= j < es.len() ==> utf8_len((#[trigger] es[j]).0) <= limits.max_key_bytes && es[j].1.len()
            <= limits.max_value_bytes && entry_fits(es[j])
    &&& weight_sum(es, pair_weight()) <= limits.max_origin_bytes
    &&& base + weight_sum(es, pair_weight()) <= limits.max_total_bytes
}

/// A listing that a storage process with these limits restores from its
/// checkpoint: origins in increasing canonical order, each persistent and
/// with at least one entry, all counts and lengths fitting their fields, and
/// every quota respected.
pub open spec fn restorable(l: Seq<(OriginModel, Seq<(Seq<char>, Seq<u8>)>)>, limits: StorageLimits) -> bool {
    &&& listing_fits(l)
    &&& l.len() <= limits.max_origins
    &&& forall|i: int, j: int|
        #![trigger l[i], l[j]]
        0 <= i && j == i + 1 && j < l.len() ==> origin_order(l[i].0, l[j].0) == Order::Less
    &&& forall|i: int| 0 <= i < l.len() ==> (#[trigger] l[i]).1.len() > 0
    &&& forall|i: int|
        0 <= i < l.len() ==> entries_restorable(
            (#[trigger] l[i]).1,
            limits,
            weight_sum(l.take(i), block_weight()) as int,
        )
    &&& weight_sum(l, block_weight()) <= limits.max_total_bytes
}

fn storage_failure(kind: StorageErrorKind, message: &str) -> (r: StorageCheckpointError)
    ensures
        r.kind == StorageCheckpointErrorKind::Storage(kind),
{
    StorageCheckpointError::from_storage(StorageError::new(kind, message))
}

fn non_canonical(message: &str) -> (r: StorageCheckpointError)
    ensures
        r.kind == StorageCheckpointErrorKind::NonCanonicalOrder,
{
    StorageCheckpointError::new(StorageCheckpointErrorKind::NonCanonicalOrder, message)
}

/// The blocks of a listing that hold at least one entry, in order.
pub open spec fn nonempty_blocks(l: Seq<(OriginModel, Seq<(Seq<char>, Seq<u8>)>)>) -> Seq<
    (OriginModel, Seq<(Seq<char>, Seq<u8>)>),
>
    decreases l.len(),
{
    if l.len() == 0 {
        Seq::empty()
    } else if l.last().1.len() > 0 {
        nonempty_blocks(l.drop_last()).push(l.last())
    } else {
        nonempty_blocks(l.drop_last())
    }
}

/// Bytes that hold `a` at `pos` and `x` right after it hold `a + x` there.
proof fn lemma_holds_extend(b: Seq<u8>, pos: int, a: Seq<u8>, p1: int, x: Seq<u8>, p2: int)
    requires
        holds_at(b, pos, a),
        p1 == pos + a.len(),
        holds_at(b, p1, x),
        p2 == p1 + x.len(),
    ensures
        holds_at(b, pos, a + x),
        p2 == pos + (a + x).len(),
{
    lemma_holds_at_concat(b, pos, a, x);
}

/// Reading one more entry extends the entries read so far.
proof fn lemma_entries_extend(b: Seq<u8>, pos: int, es: Seq<StorageEntry>, e: StorageEntry, p1: int, p2: int)
    requires
        holds_at(b, pos, entries_encoding(es.map_values(entry_pair()))),
        p1 == pos + entries_encoding(es.map_values(entry_pair())).len(),
        holds_at(b, p1, entry_encoding(entry_pair()(e))),
        p2 == p1 + entry_encoding(entry_pair()(e)).len(),
    ensures
        holds_at(b, pos, entries_encoding(es.push(e).map_values(entry_pair()))),
        p2 == pos + entries_encoding(es.push(e).map_values(entry_pair())).len(),
{
    assert(es.push(e).map_values(entry_pair()) =~= es.map_values(entry_pair()).push(entry_pair()(e)));
    lemma_entries_push(es.map_values(entry_pair()), entry_pair()(e));
    lemma_holds_extend(b, pos, entries_encoding(es.map_values(entry_pair())), p1, entry_encoding(entry_pair()(e)), p2);
}

/// Reading one more block extends the blocks read so far.
proof fn lemma_blocks_extend(
    b: Seq<u8>,
    pos: int,
    seen: Seq<(OriginModel, Seq<(Seq<char>, Seq<u8>)>)>,
    blk: (OriginModel, Seq<(Seq<char>, Seq<u8>)>),
    p1: int,
    p2: int,
)
    requires
        holds_at(b, pos, blocks_encoding(seen)),
        p1 == pos + blocks_encoding(seen).len(),
        holds_at(b, p1, origin_block(blk)),
        p2 == p1 + origin_block(blk).len(),
    ensures
        holds_at(b, pos, blocks_encoding(seen.push(blk))),
        p2 == pos + blocks_encoding(seen.push(blk)).len(),
        nonempty_blocks(seen.push(blk)) == if blk.1.len() > 0 {
            nonempty_blocks(seen).push(blk)
        } else {
            nonempty_blocks(seen)
        },
{
    lemma_blocks_push(seen, blk);
    lemma_holds_extend(b, pos, blocks_encoding(seen), p1, origin_block(blk), p2);
    assert(seen.push(blk).drop_last() =~= seen);
}

/// Reads one entry; with a previous entry, the key must come after its key.
fn read_entry(
    bytes: &[u8],
    pos: usize,
    limits: StorageLimits,
    previous: Option<&StorageEntry>,
    expected: Ghost<(Seq<char>, Seq<u8>)>,
) -> (r: Result<(StorageEntry, usize), StorageCheckpointError>)
    requires
        pos <= bytes@.len(),
    ensures
        r matches Ok((e, p)) ==> {
            &&& pos <= p <= bytes@.len()
            &&& utf8_len(e.key@) <= limits.max_key_bytes
            &&& e.value@.len() <= limits.max_value_bytes
            &&& (previous matches Some(prev) ==> entry_order()(*prev, e) == Order::Less)
            &&& p == pos + utf8_len(e.key@) + e.value@.len() + 8
            &&& holds_at(bytes@, pos as int, entry_encoding(entry_pair()(e)))
            &&& p == pos + entry_encoding(entry_pair()(e)).len()
        },
        ({
            let x = expected@;
            &&& holds_at(bytes@, pos as int, entry_encoding(x))
            &&& utf8_len(x.0) <= limits.max_key_bytes
            &&& x.1.len() <= limits.max_value_bytes
            &&& entry_fits(x)
            &&& (previous matches Some(prev) ==> bytes_order(encode_utf8(prev.key@), encode_utf8(x.0))
                == Order::Less)
        }) ==> (r matches Ok((e, p)) && entry_pair()(e) == expected@ && p == pos + entry_encoding(
            expected@,
        ).len()),
{
    let ghost x = expected@;
    let ghost has = holds_at(bytes@, pos as int, entry_encoding(x)) && utf8_len(x.0)
        <= limits.max_key_bytes && x.1.len() <= limits.max_value_bytes && entry_fits(x) && (
    previous matches Some(prev) ==> bytes_order(encode_utf8(prev.key@), encode_utf8(x.0))
        == Order::Less);
    proof {
        reveal(entry_encoding);
        if has {
            lemma_holds_at_concat(bytes@, pos as int, prefixed(encode_utf8(x.0)), prefixed(x.1));
        }
    }
    let (key, p1) = match read_bounded_string(bytes, pos, limits.max_key_bytes, StorageErrorKind::KeyTooLarge) {
        Ok(v) => v,
        Err(e) => {
            return Err(e);
        },
    };
    match previous {
        Some(prev) => {
            let order = compare_bytes(prev.key.as_str().as_bytes(), key.as_str().as_bytes());
            match order {
                Order::Less => {},
                _ => {
                    return Err(non_canonical("storage checkpoint keys are duplicated or not in canonical order"));
                },
            }
        },
        None => {},
    }
    let (value, p2) = match read_bounded_bytes(bytes, p1, limits.max_value_bytes, StorageErrorKind::ValueTooLarge) {
        Ok(v) => v,
        Err(e) => {
            return Err(e);
        },
    };
    let entry = StorageEntry { key, value };
    proof {
        if has {
            assert(entry_pair()(entry) == x);
        }
        lemma_holds_extend(bytes@, pos as int, prefixed(encode_utf8(entry.key@)), p1 as int, prefixed(entry.value@), p2 as int);
    }
    Ok((entry, p2))
}

/// Reads `count` entries of one origin, each checked as storing it would
/// check it on top of `total` bytes already stored.
#[verifier::rlimit(100)]
fn parse_entries(
    bytes: &[u8],
    pos: usize,
    count: usize,
    limits: StorageLimits,
    total: usize,
    target: Ghost<Seq<(Seq<char>, Seq<u8>)>>,
) -> (r: Result<(Vec<StorageEntry>, usize, usize), StorageCheckpointError>)
    requires
        pos <= bytes@.len(),
        limits.spec_is_valid(),
        total <= limits.max_total_bytes,
        count <= limits.max_entries_per_origin,
    ensures
        r matches Ok((es, p, used)) ==> {
            &&& es@.len() == count
            &&& pos <= p <= bytes@.len()
            &&& holds_at(bytes@, pos as int, entries_encoding(es@.map_values(entry_pair())))
            &&& p == pos + entries_encoding(es@.map_values(entry_pair())).len()
            &&& sorted_by(es@, entry_order())
            &&& used == weight_sum(es@, entry_weight())
            &&& used <= limits.max_origin_bytes
            &&& total + used <= limits.max_total_bytes
            &&& forall|j: int|
                0 <= j < es@.len() ==> utf8_len((#[trigger] es@[j]).key@) <= limits.max_key_bytes
                    && es@[j].value@.len() <= limits.max_value_bytes
        },
        target@.len() == count && entries_restorable(target@, limits, total as int) && holds_at(
            bytes@,
            pos as int,
            entries_encoding(target@),
        ) ==> (r matches Ok((es, p, used)) && es@.map_values(entry_pair()) == target@ && p == pos
            + entries_encoding(target@).len() && used == weight_sum(target@, pair_weight())),
{
    let ghost t = target@;
    let ghost has = t.len() == count && entries_restorable(t, limits, total as int) && holds_at(
        bytes@,
        pos as int,
        entries_encoding(t),
    );
    let mut entries: Vec<StorageEntry> = Vec::new();
    let mut p = pos;
    let mut used: usize = 0;
    let mut j: usize = 0;
    proof {
        lemma_entry_order_laws();
        assert(t.skip(0) =~= t);
        assert(t.take(0) =~= Seq::<(Seq<char>, Seq<u8>)>::empty());
        assert(entries@.map_values(entry_pair()) =~= Seq::<(Seq<char>, Seq<u8>)>::empty());
        assert(bytes@.subrange(pos as int, pos as int) =~= Seq::<u8>::empty());
    }
    while j < count
        invariant
            t == target@,
            0 <= j <= count,
            entries@.len() == j,
            pos <= p <= bytes@.len(),
            holds_at(bytes@, pos as int, entries_encoding(entries@.map_values(entry_pair()))),
            p == pos + entries_encoding(entries@.map_values(entry_pair())).len(),
            limits.spec_is_valid(),
            total <= limits.max_total_bytes,
            sorted_by(entries@, entry_order()),
            less_is_transitive(entry_order()),
            used == weight_sum(entries@, entry_weight()),
            used <= limits.max_origin_bytes,
            total + used <= limits.max_total_bytes,
            forall|k: int|
                0 <= k < entries@.len() ==> utf8_len((#[trigger] entries@[k]).key@)
                    <= limits.max_key_bytes && entries@[k].value@.len() <= limits.max_value_bytes,
            has == (t.len() == count && entries_restorable(t, limits, total as int) && holds_at(
                bytes@,
                pos as int,
                entries_encoding(t),
            )),
            has ==> {
                &&& entries@.map_values(entry_pair()) == t.take(j as int)
                &&& holds_at(bytes@, p as int, entries_encoding(t.skip(j as int)))
                &&& p + entries_encoding(t.skip(j as int)).len() == pos + entries_encoding(t).len()
                &&& used == weight_sum(t.take(j as int), pair_weight())
            },
        decreases count - j,
    {
        proof {
            if has {
                let rest = t.skip(j as int);
                assert(rest[0] == t[j as int]);
                assert(rest.drop_first() =~= t.skip(j + 1));
                lemma_holds_at_concat(bytes@, p as int, entry_encoding(t[j as int]), entries_encoding(t.skip(j + 1)));
                if j > 0 {
                    assert(entries@.map_values(entry_pair())[j - 1] == t[j - 1]);
                    assert(t.take(j as int)[j - 1] == t[j - 1]);
                    assert(bytes_order(encode_utf8(t[j - 1].0), encode_utf8(t[j as int].0)) == Order::Less);
                }
                assert(utf8_len(t[j as int].0) <= limits.max_key_bytes);
                assert(t[j as int].1.len() <= limits.max_value_bytes);
                assert(entry_fits(t[j as int]));
            }
        }
        let previous = if j > 0 {
            Some(&entries[j - 1])
        } else {
            None
        };
        let (entry, p2) = read_entry(bytes, p, limits, previous, Ghost(t[j as int]))?;
        let new_bytes = match utf8_byte_len(entry.key.as_str()).checked_add(entry.value.len()) {
            Some(n) => n,
            None => {
                return Err(storage_failure(StorageErrorKind::AccountingOverflow, "storage entry byte accounting overflow"));
            },
        };
        proof {
            if has {
                lemma_weight_sum_take(t, pair_weight(), j as int);
                lemma_weight_sum_prefix(t, pair_weight(), j + 1);
                assert(new_bytes == pair_weight()(t[j as int]));
                assert(used + new_bytes <= weight_sum(t, pair_weight()));
                assert(total + weight_sum(t, pair_weight()) <= limits.max_total_bytes);
            }
        }
        let next = match used.checked_add(new_bytes) {
            Some(n) => n,
            None => {
                return Err(storage_failure(StorageErrorKind::AccountingOverflow, "storage quota byte accounting overflow"));
            },
        };
        if next > limits.max_origin_bytes {
            return Err(storage_failure(StorageErrorKind::OriginByteLimitExceeded, "storage origin byte limit exceeded"));
        }
        let next_total = match (total + used).checked_add(new_bytes) {
            Some(n) => n,
            None => {
                return Err(storage_failure(StorageErrorKind::AccountingOverflow, "storage quota byte accounting overflow"));
            },
        };
        if next_total > limits.max_total_bytes {
            return Err(storage_failure(StorageErrorKind::TotalByteLimitExceeded, "storage process byte limit exceeded"));
        }
        proof {
            let es = entries@;
            if j > 0 {
                assert forall|k: int| 0 <= k < es.len() implies #[trigger] entry_order()(es[k], entry)
                    == Order::Less by {
                    if k < j - 1 {
                        assert(entry_order()(es[k], es[j - 1]) == Order::Less);
                    }
                }
            }
            lemma_sorted_insert(es, entry_order(), j as int, entry);
            assert(es.insert(j as int, entry) =~= es.push(entry));
            lemma_weight_sum_insert(es, entry_weight(), j as int, entry);
            lemma_entries_extend(bytes@, pos as int, es, entry, p as int, p2 as int);
        }
        entries.push(entry);
        p = p2;
        used = next;
        proof {
            if has {
                assert(entries@.map_values(entry_pair()) =~= t.take(j + 1));
            }
        }
        j = j + 1;
    }
    proof {
        if has {
            assert(t.take(count as int) =~= t);
            assert(t.skip(count as int) =~= Seq::<(Seq<char>, Seq<u8>)>::empty());
        }
    }
    Ok((entries, p, used))
}


/// Reads one origin's block: the origin, which must come after the previous
/// one, its entry count and its entries.
#[verifier::rlimit(60)]
#[verifier::spinoff_prover]
fn parse_origin(
    bytes: &[u8],
    pos: usize,
    limits: StorageLimits,
    previous: Option<&Origin>,
    total: usize,
    expected: Ghost<(OriginModel, Seq<(Seq<char>, Seq<u8>)>)>,
) -> (r: Result<(Origin, Vec<StorageEntry>, usize, usize), StorageCheckpointError>)
    requires
        pos <= bytes@.len(),
        limits.spec_is_valid(),
        total <= limits.max_total_bytes,
    ensures
        r matches Ok((o, es, p, used)) ==> {
            &&& persistent_identity_fits(o@)
            &&& (previous matches Some(prev) ==> origin_order(prev@, o@) == Order::Less)
            &&& es@.len() <= limits.max_entries_per_origin
            &&& pos <= p <= bytes@.len()
            &&& holds_at(bytes@, pos as int, origin_block((o@, es@.map_values(entry_pair()))))
            &&& p == pos + origin_block((o@, es@.map_values(entry_pair()))).len()
            &&& sorted_by(es@, entry_order())
            &&& used == weight_sum(es@, entry_weight())
            &&& used <= limits.max_origin_bytes
            &&& total + used <= limits.max_total_bytes
            &&& forall|j: int|
                0 <= j < es@.len() ==> utf8_len((#[trigger] es@[j]).key@) <= limits.max_key_bytes
                    && es@[j].value@.len() <= limits.max_value_bytes
        },
        ({
            let x = expected@;
            &&& block_fits(x)
            &&& entries_restorable(x.1, limits, total as int)
            &&& (previous matches Some(prev) ==> origin_order(prev@, x.0) == Order::Less)
            &&& holds_at(bytes@, pos as int, origin_block(x))
        }) ==> (r matches Ok((o, es, p, used)) && o@ == expected@.0 && es@.map_values(entry_pair())
            == expected@.1 && p == pos + origin_block(expected@).len() && used == weight_sum(
            expected@.1,
            pair_weight(),
        )),
{
    let ghost x = expected@;
    let ghost has = block_fits(x) && entries_restorable(x.1, limits, total as int) && (
    previous matches Some(prev) ==> origin_order(prev@, x.0) == Order::Less) && holds_at(
        bytes@,
        pos as int,
        origin_block(x),
    );
    proof {
        reveal(origin_block);
        if has {
            lemma_holds_at_concat(
                bytes@,
                pos as int,
                origin_encoding(x.0),
                be32(x.1.len() as u32) + entries_encoding(x.1),
            );
            lemma_holds_at_concat(
                bytes@,
                pos + origin_encoding(x.0).len(),
                be32(x.1.len() as u32),
                entries_encoding(x.1),
            );
            assert(origin_block(x) =~= origin_encoding(x.0) + (be32(x.1.len() as u32)
                + entries_encoding(x.1)));
        }
    }
    let (origin, p1) = match decode_origin(bytes, pos) {
        Ok(v) => v,
        Err(e) => {
            return Err(e);
        },
    };
    match validate_persistent_origin_identity(&origin) {
        Ok(()) => {},
        Err(e) => {
            return Err(StorageCheckpointError::from_storage(e));
        },
    }
    match previous {
        Some(prev) => {
            match compare_origins(prev, &origin) {
                Order::Less => {},
                _ => {
                    return Err(non_canonical("storage checkpoint origins are duplicated or not in canonical order"));
                },
            }
        },
        None => {},
    }
    let (count, p2) = match read_u32(bytes, p1) {
        Ok(v) => v,
        Err(e) => {
            return Err(e);
        },
    };
    let count = count as usize;
    if count > limits.max_entries_per_origin {
        return Err(storage_failure(StorageErrorKind::EntryLimitExceeded, "storage checkpoint declares too many entries for one origin"));
    }
    proof {
        if has {
            lemma_be32_injective(count as u32, x.1.len() as u32);
        }
    }
    let (entries, p3, used) = match parse_entries(bytes, p2, count, limits, total, Ghost(x.1)) {
        Ok(v) => v,
        Err(e) => {
            return Err(e);
        },
    };
    proof {
        if has {
            assert(origin_block(x).len() == origin_encoding(x.0).len() + 4 + entries_encoding(x.1).len());
        }
        let pairs = entries@.map_values(entry_pair());
        assert(pairs.len() == count);
        lemma_holds_extend(bytes@, pos as int, origin_encoding(origin@), p1 as int, be32(count as u32), p2 as int);
        lemma_holds_extend(
            bytes@,
            pos as int,
            origin_encoding(origin@) + be32(count as u32),
            p2 as int,
            entries_encoding(pairs),
            p3 as int,
        );
        assert(origin_block((origin@, pairs)) == origin_encoding(origin@) + be32(pairs.len() as u32)
            + entries_encoding(pairs));
    }
    Ok((origin, entries, p3, used))
}


/// Two byte strings that start with pieces of one length split alike.
proof fn lemma_split_fixed(a: Seq<u8>, b: Seq<u8>, r1: Seq<u8>, r2: Seq<u8>)
    requires
        a.len() == b.len(),
        a + r1 == b + r2,
    ensures
        a == b,
        r1 == r2,
{
    assert(a =~= (a + r1).subrange(0, a.len() as int));
    assert(b =~= (b + r2).subrange(0, b.len() as int));
    assert(r1 =~= (a + r1).subrange(a.len() as int, (a + r1).len() as int));
    assert(r2 =~= (b + r2).subrange(b.len() as int, (b + r2).len() as int));
}

/// Length-prefixed pieces split alike.
proof fn lemma_split_prefixed(a: Seq<u8>, b: Seq<u8>, r1: Seq<u8>, r2: Seq<u8>)
    requires
        a.len() <= u32::MAX,
        b.len() <= u32::MAX,
        prefixed(a) + r1 == prefixed(b) + r2,
    ensures
        a == b,
        r1 == r2,
{
    assert(prefixed(a) + r1 =~= be32(a.len() as u32) + (a + r1));
    assert(prefixed(b) + r2 =~= be32(b.len() as u32) + (b + r2));
    lemma_split_fixed(be32(a.len() as u32), be32(b.len() as u32), a + r1, b + r2);
    lemma_be32_injective(a.len() as u32, b.len() as u32);
    lemma_split_fixed(a, b, r1, r2);
}

proof fn lemma_split_origin(x: OriginModel, y: OriginModel, r1: Seq<u8>, r2: Seq<u8>)
    requires
        persistent_identity_fits(x),
        persistent_identity_fits(y),
        origin_encoding(x) + r1 == origin_encoding(y) + r2,
    ensures
        x == y,
        r1 == r2,
{
    let (sx, hx, px) = (x->scheme, x->host, x->port);
    let (sy, hy, py) = (y->scheme, y->host, y->port);
    assert(origin_encoding(x) + r1 =~= prefixed(encode_utf8(sx)) + (host_encoding(hx) + (be16(px)
        + r1)));
    assert(origin_encoding(y) + r2 =~= prefixed(encode_utf8(sy)) + (host_encoding(hy) + (be16(py)
        + r2)));
    lemma_split_prefixed(encode_utf8(sx), encode_utf8(sy), host_encoding(hx) + (be16(px) + r1), host_encoding(hy) + (be16(py) + r2));
    lemma_encode_injective(sx, sy);
    let (t1, t2) = (be16(px) + r1, be16(py) + r2);
    assert(host_encoding(hx)[0] == (host_encoding(hx) + t1)[0]);
    assert(host_encoding(hy)[0] == (host_encoding(hy) + t2)[0]);
    match (hx, hy) {
        (HostModel::Domain(dx), HostModel::Domain(dy)) => {
            assert(host_encoding(hx) + t1 =~= seq![0u8] + (prefixed(encode_utf8(dx)) + t1));
            assert(host_encoding(hy) + t2 =~= seq![0u8] + (prefixed(encode_utf8(dy)) + t2));
            lemma_split_fixed(seq![0u8], seq![0u8], prefixed(encode_utf8(dx)) + t1, prefixed(encode_utf8(dy)) + t2);
            lemma_split_prefixed(encode_utf8(dx), encode_utf8(dy), t1, t2);
            lemma_encode_injective(dx, dy);
        },
        (HostModel::Ipv4(ax), HostModel::Ipv4(ay)) => {
            assert(host_encoding(hx) + t1 =~= seq![1u8] + (ax + t1));
            assert(host_encoding(hy) + t2 =~= seq![1u8] + (ay + t2));
            lemma_split_fixed(seq![1u8], seq![1u8], ax + t1, ay + t2);
            lemma_split_fixed(ax, ay, t1, t2);
        },
        (HostModel::Ipv6(ax), HostModel::Ipv6(ay)) => {
            assert(host_encoding(hx) + t1 =~= seq![2u8] + (ax + t1));
            assert(host_encoding(hy) + t2 =~= seq![2u8] + (ay + t2));
            lemma_split_fixed(seq![2u8], seq![2u8], ax + t1, ay + t2);
            lemma_split_fixed(ax, ay, t1, t2);
        },
        _ => {},
    }
    lemma_split_fixed(be16(px), be16(py), r1, r2);
    lemma_be16_injective(px, py);
}

proof fn lemma_split_entries(
    e1: Seq<(Seq<char>, Seq<u8>)>,
    e2: Seq<(Seq<char>, Seq<u8>)>,
    r1: Seq<u8>,
    r2: Seq<u8>,
)
    requires
        e1.len() == e2.len(),
        forall|j: int| 0 <= j < e1.len() ==> entry_fits(#[trigger] e1[j]),
        forall|j: int| 0 <= j < e2.len() ==> entry_fits(#[trigger] e2[j]),
        entries_encoding(e1) + r1 == entries_encoding(e2) + r2,
    ensures
        e1 == e2,
        r1 == r2,
    decreases e1.len(),
{
    if e1.len() == 0 {
        assert(e1 =~= e2);
    } else {
        reveal(entry_encoding);
        let (a, b) = (e1[0], e2[0]);
        let (t1, t2) = (entries_encoding(e1.drop_first()) + r1, entries_encoding(e2.drop_first()) + r2);
        assert(entries_encoding(e1) + r1 =~= prefixed(encode_utf8(a.0)) + (prefixed(a.1) + t1));
        assert(entries_encoding(e2) + r2 =~= prefixed(encode_utf8(b.0)) + (prefixed(b.1) + t2));
        assert(entry_fits(a) && entry_fits(b));
        lemma_split_prefixed(encode_utf8(a.0), encode_utf8(b.0), prefixed(a.1) + t1, prefixed(b.1) + t2);
        lemma_split_prefixed(a.1, b.1, t1, t2);
        lemma_encode_injective(a.0, b.0);
        assert forall|j: int| 0 <= j < e1.drop_first().len() implies entry_fits(#[trigger] e1.drop_first()[j]) by {
            assert(entry_fits(e1[j + 1]));
        }
        assert forall|j: int| 0 <= j < e2.drop_first().len() implies entry_fits(#[trigger] e2.drop_first()[j]) by {
            assert(entry_fits(e2[j + 1]));
        }
        lemma_split_entries(e1.drop_first(), e2.drop_first(), r1, r2);
        assert(e1 =~= seq![a] + e1.drop_first());
        assert(e2 =~= seq![b] + e2.drop_first());
    }
}

proof fn lemma_split_block(
    x: (OriginModel, Seq<(Seq<char>, Seq<u8>)>),
    y: (OriginModel, Seq<(Seq<char>, Seq<u8>)>),
    t1: Seq<u8>,
    t2: Seq<u8>,
)
    requires
        block_fits(x),
        block_fits(y),
        origin_block(x) + t1 == origin_block(y) + t2,
    ensures
        x == y,
        t1 == t2,
{
    reveal(origin_block);
    let (u1, u2) = (entries_encoding(x.1) + t1, entries_encoding(y.1) + t2);
    assert(origin_block(x) + t1 =~= origin_encoding(x.0) + (be32(x.1.len() as u32) + u1));
    assert(origin_block(y) + t2 =~= origin_encoding(y.0) + (be32(y.1.len() as u32) + u2));
    lemma_split_origin(x.0, y.0, be32(x.1.len() as u32) + u1, be32(y.1.len() as u32) + u2);
    lemma_split_fixed(be32(x.1.len() as u32), be32(y.1.len() as u32), u1, u2);
    lemma_be32_injective(x.1.len() as u32, y.1.len() as u32);
    lemma_split_entries(x.1, y.1, t1, t2);
}

proof fn lemma_split_blocks(
    l1: Seq<(OriginModel, Seq<(Seq<char>, Seq<u8>)>)>,
    l2: Seq<(OriginModel, Seq<(Seq<char>, Seq<u8>)>)>,
    r1: Seq<u8>,
    r2: Seq<u8>,
)
    requires
        l1.len() == l2.len(),
        forall|i: int| 0 <= i < l1.len() ==> block_fits(#[trigger] l1[i]),
        forall|i: int| 0 <= i < l2.len() ==> block_fits(#[trigger] l2[i]),
        blocks_encoding(l1) + r1 == blocks_encoding(l2) + r2,
    ensures
        l1 == l2,
        r1 == r2,
    decreases l1.len(),
{
    if l1.len() == 0 {
        assert(l1 =~= l2);
    } else {
        let (x, y) = (l1[0], l2[0]);
        let (t1, t2) = (blocks_encoding(l1.drop_first()) + r1, blocks_encoding(l2.drop_first()) + r2);
        assert(blocks_encoding(l1) + r1 =~= origin_block(x) + t1);
        assert(blocks_encoding(l2) + r2 =~= origin_block(y) + t2);
        lemma_split_block(x, y, t1, t2);
        let (d1, d2) = (l1.drop_first(), l2.drop_first());
        assert forall|i: int| 0 <= i < d1.len() implies block_fits(#[trigger] d1[i]) by {
            assert(block_fits(l1[i + 1]));
        }
        assert forall|i: int| 0 <= i < d2.len() implies block_fits(#[trigger] d2[i]) by {
            assert(block_fits(l2[i + 1]));
        }
        lemma_split_blocks(d1, d2, r1, r2);
        assert(l1 =~= seq![x] + d1);
        assert(l2 =~= seq![y] + d2);
    }
}

/// Two listings whose counts and lengths fit have the same checkpoint only
/// when they are the same listing.
pub proof fn lemma_checkpoint_encoding_injective(
    l1: Seq<(OriginModel, Seq<(Seq<char>, Seq<u8>)>)>,
    l2: Seq<(OriginModel, Seq<(Seq<char>, Seq<u8>)>)>,
)
    requires
        listing_fits(l1),
        listing_fits(l2),
        checkpoint_encoding(l1) == checkpoint_encoding(l2),
    ensures
        l1 == l2,
{
    let head = checkpoint_magic() + be16(STORAGE_CHECKPOINT_VERSION);
    assert(checkpoint_encoding(l1) =~= head + (be32(l1.len() as u32) + (blocks_encoding(l1) + Seq::<u8>::empty())));
    assert(checkpoint_encoding(l2) =~= head + (be32(l2.len() as u32) + (blocks_encoding(l2) + Seq::<u8>::empty())));
    lemma_split_fixed(head, head, be32(l1.len() as u32) + (blocks_encoding(l1) + Seq::<u8>::empty()), be32(l2.len() as u32) + (blocks_encoding(l2) + Seq::<u8>::empty()));
    lemma_split_fixed(be32(l1.len() as u32), be32(l2.len() as u32), blocks_encoding(l1) + Seq::<u8>::empty(), blocks_encoding(l2) + Seq::<u8>::empty());
    lemma_be32_injective(l1.len() as u32, l2.len() as u32);
    lemma_split_blocks(l1, l2, Seq::<u8>::empty(), Seq::<u8>::empty());
}


/// Origins no greater than `prev` stay no greater than a later origin.
proof fn lemma_bound_moves(os: Seq<OriginStorage>, prev: OriginModel, next: OriginModel)
    requires
        forall|i: int| 0 <= i < os.len() ==> #[trigger] origin_order(os[i].origin@, prev) != Order::Greater,
        origin_order(prev, next) == Order::Less,
    ensures
        forall|i: int| 0 <= i < os.len() ==> #[trigger] origin_order(os[i].origin@, next) == Order::Less,
{
    assert forall|i: int| 0 <= i < os.len() implies #[trigger] origin_order(os[i].origin@, next)
        == Order::Less by {
        lemma_origin_order_equal(os[i].origin@, prev);
        if origin_order(os[i].origin@, prev) == Order::Less {
            lemma_origin_order_trans(os[i].origin@, prev, next);
        }
    }
}

/// Appending an origin greater than all keeps the order, and every origin is
/// then no greater than it.
proof fn lemma_push_origin(os: Seq<OriginStorage>, item: OriginStorage)
    requires
        sorted_by(os, storage_order()),
        forall|i: int| 0 <= i < os.len() ==> #[trigger] origin_order(os[i].origin@, item.origin@) == Order::Less,
    ensures
        sorted_by(os.push(item), storage_order()),
        forall|i: int|
            0 <= i < os.push(item).len() ==> #[trigger] origin_order(os.push(item)[i].origin@, item.origin@)
                != Order::Greater,
{
    lemma_storage_order_laws();
    assert forall|i: int| 0 <= i < os.len() implies #[trigger] storage_order()(os[i], item) == Order::Less by {
        assert(origin_order(os[i].origin@, item.origin@) == Order::Less);
    }
    lemma_sorted_insert(os, storage_order(), os.len() as int, item);
    assert(os.insert(os.len() as int, item) =~= os.push(item));
    lemma_origin_order_equal(item.origin@, item.origin@);
    assert forall|i: int| 0 <= i < os.push(item).len() implies #[trigger] origin_order(
        os.push(item)[i].origin@,
        item.origin@,
    ) != Order::Greater by {
        if i < os.len() {
            assert(os.push(item)[i] == os[i]);
        }
    }
}

/// Reads the checkpoint header: magic, version and origin count.
fn read_header(bytes: &[u8], limits: StorageLimits) -> (r: Result<(usize, usize), StorageCheckpointError>)
    ensures
        r matches Ok((count, p)) ==> count <= limits.max_origins && p == 14 && p <= bytes@.len()
            && count <= u32::MAX && holds_at(
            bytes@,
            0,
            checkpoint_magic() + be16(STORAGE_CHECKPOINT_VERSION) + be32(count as u32),
        ),
        forall|l: Seq<(OriginModel, Seq<(Seq<char>, Seq<u8>)>)>|
            l.len() <= limits.max_origins && l.len() <= u32::MAX && #[trigger] checkpoint_encoding(l) == bytes@ ==> (r matches Ok(
                (count, p),
            ) && count == l.len() && holds_at(bytes@, p as int, blocks_encoding(l)) && p
                + blocks_encoding(l).len() == bytes@.len()),
{
    let ghost b = bytes@;
    proof {
        assert forall|l: Seq<(OriginModel, Seq<(Seq<char>, Seq<u8>)>)>|
            l.len() <= limits.max_origins && l.len() <= u32::MAX && #[trigger] checkpoint_encoding(l) == b implies holds_at(b, 0, checkpoint_magic())
            && holds_at(b, 8, be16(STORAGE_CHECKPOINT_VERSION)) && holds_at(b, 10, be32(l.len() as u32))
            && holds_at(b, 14, blocks_encoding(l)) && 14 + blocks_encoding(l).len() == b.len() by {
            assert(checkpoint_encoding(l) =~= checkpoint_magic() + (be16(STORAGE_CHECKPOINT_VERSION)
                + (be32(l.len() as u32) + blocks_encoding(l))));
            assert(b.subrange(0, b.len() as int) =~= b);
            lemma_holds_at_concat(b, 0, checkpoint_magic(), be16(STORAGE_CHECKPOINT_VERSION) + (be32(
                l.len() as u32,
            ) + blocks_encoding(l)));
            lemma_holds_at_concat(b, 8, be16(STORAGE_CHECKPOINT_VERSION), be32(l.len() as u32)
                + blocks_encoding(l));
            lemma_holds_at_concat(b, 10, be32(l.len() as u32), blocks_encoding(l));
        }
    }
    let p0 = take(bytes, 0, 8)?;
    let magic: Vec<u8> = vec![82u8, 65u8, 82u8, 79u8, 71u8, 83u8, 84u8, 49u8];
    proof {
        assert(magic@ =~= checkpoint_magic());
    }
    match compare_bytes(vstd::slice::slice_subrange(bytes, 0, 8), magic.as_slice()) {
        Order::Equal => {
            proof {
                lemma_bytes_order_equal(b.subrange(0, 8), magic@);
            }
        },
        _ => {
            proof {
                lemma_bytes_order_equal(b.subrange(0, 8), magic@);
            }
            return Err(
                StorageCheckpointError::new(
                    StorageCheckpointErrorKind::InvalidMagic,
                    "storage checkpoint magic does not match",
                ),
            );
        },
    }
    let (version, p1) = read_u16(bytes, p0)?;
    if version != STORAGE_CHECKPOINT_VERSION {
        proof {
            lemma_be16_injective(version, STORAGE_CHECKPOINT_VERSION);
        }
        return Err(
            StorageCheckpointError::new(
                StorageCheckpointErrorKind::UnsupportedVersion,
                "unsupported storage checkpoint version",
            ),
        );
    }
    let (declared, p2) = read_u32(bytes, p1)?;
    let count = declared as usize;
    proof {
        assert forall|l: Seq<(OriginModel, Seq<(Seq<char>, Seq<u8>)>)>|
            l.len() <= limits.max_origins && l.len() <= u32::MAX && #[trigger] checkpoint_encoding(l) == b implies count == l.len() by {
            lemma_be32_injective(declared, l.len() as u32);
        }
    }
    if count > limits.max_origins {
        return Err(storage_failure(StorageErrorKind::OriginLimitExceeded, "storage checkpoint declares too many origins"));
    }
    proof {
        assert(b.subrange(0, 8) == magic@);
        lemma_holds_extend(b, 0, checkpoint_magic(), 8, be16(STORAGE_CHECKPOINT_VERSION), 10);
        lemma_holds_extend(b, 0, checkpoint_magic() + be16(STORAGE_CHECKPOINT_VERSION), 10, be32(declared), 14);
    }
    Ok((count, p2))
}

/// What a restorable listing says of one of its blocks.
proof fn lemma_restorable_item(t: Seq<(OriginModel, Seq<(Seq<char>, Seq<u8>)>)>, limits: StorageLimits, k: int)
    requires
        restorable(t, limits),
        0 <= k < t.len(),
    ensures
        k > 0 ==> origin_order(t[k - 1].0, t[k].0) == Order::Less,
        block_fits(t[k]),
        entries_restorable(t[k].1, limits, weight_sum(t.take(k), block_weight()) as int),
{
    if k > 0 {
        assert(origin_order(t[k - 1].0, t[k].0) == Order::Less);
    }
}

/// A block read from a checkpoint is a well-formed origin storage.
proof fn lemma_parsed_block_wf(item: OriginStorage, limits: StorageLimits)
    requires
        persistent_identity_fits(item.origin@),
        item.entries@.len() > 0,
        item.entries@.len() <= limits.max_entries_per_origin,
        sorted_by(item.entries@, entry_order()),
        item.bytes == weight_sum(item.entries@, entry_weight()),
        item.bytes <= limits.max_origin_bytes,
        forall|j: int|
            0 <= j < item.entries@.len() ==> utf8_len((#[trigger] item.entries@[j]).key@)
                <= limits.max_key_bytes && item.entries@[j].value@.len() <= limits.max_value_bytes,
    ensures
        origin_storage_wf(item, limits),
{
}

/// Reads `count` origin blocks into storage in canonical order.
#[verifier::rlimit(100)]
#[verifier::spinoff_prover]
fn parse_origins(
    bytes: &[u8],
    pos: usize,
    count: usize,
    limits: StorageLimits,
    target: Ghost<Seq<(OriginModel, Seq<(Seq<char>, Seq<u8>)>)>>,
) -> (r: Result<
    (Vec<OriginStorage>, usize, usize, Ghost<Seq<(OriginModel, Seq<(Seq<char>, Seq<u8>)>)>>),
    StorageCheckpointError,
>)
    requires
        pos <= bytes@.len(),
        limits.spec_is_valid(),
        count <= limits.max_origins,
    ensures
        r matches Ok((os, total, p, seen)) ==> {
            &&& seen@.len() == count
            &&& forall|i: int| 0 <= i < seen@.len() ==> (#[trigger] seen@[i]).1.len() <= limits.max_entries_per_origin
            &&& holds_at(bytes@, pos as int, blocks_encoding(seen@))
            &&& p == pos + blocks_encoding(seen@).len()
            &&& os@.map_values(listing_item()) == nonempty_blocks(seen@)
            &&& os@.len() <= count
            &&& sorted_by(os@, storage_order())
            &&& forall|i: int| 0 <= i < os@.len() ==> origin_storage_wf(#[trigger] os@[i], limits)
            &&& total == weight_sum(os@, storage_weight())
            &&& total <= limits.max_total_bytes
            &&& p <= bytes@.len()
        },
        restorable(target@, limits) && count == target@.len() && holds_at(
            bytes@,
            pos as int,
            blocks_encoding(target@),
        ) && pos + blocks_encoding(target@).len() == bytes@.len() ==> (r matches Ok((os, total, p, seen))
            && os@.map_values(listing_item()) == target@ && total == weight_sum(target@, block_weight())
            && p == bytes@.len()),
{
    let ghost t = target@;
    let ghost b = bytes@;
    let ghost has = restorable(t, limits) && count == t.len() && holds_at(b, pos as int, blocks_encoding(t))
        && pos + blocks_encoding(t).len() == b.len();
    let mut origins: Vec<OriginStorage> = Vec::new();
    let mut total: usize = 0;
    let mut previous: Option<Origin> = None;
    let mut p = pos;
    let mut k: usize = 0;
    let ghost mut seen: Seq<(OriginModel, Seq<(Seq<char>, Seq<u8>)>)> = Seq::empty();
    proof {
        assert(b.subrange(pos as int, pos as int) =~= Seq::<u8>::empty());
        assert(origins@.map_values(listing_item()) =~= nonempty_blocks(seen));
        assert(t.skip(0) =~= t);
        assert(t.take(0) =~= Seq::<(OriginModel, Seq<(Seq<char>, Seq<u8>)>)>::empty());
    }
    while k < count
        invariant
            t == target@,
            b == bytes@,
            0 <= k <= count,
            count <= limits.max_origins,
            p <= b.len(),
            limits.spec_is_valid(),
            origins@.len() <= k,
            seen.len() == k,
            forall|i: int| 0 <= i < seen.len() ==> (#[trigger] seen[i]).1.len() <= limits.max_entries_per_origin,
            holds_at(b, pos as int, blocks_encoding(seen)),
            p == pos + blocks_encoding(seen).len(),
            origins@.map_values(listing_item()) == nonempty_blocks(seen),
            sorted_by(origins@, storage_order()),
            forall|i: int| 0 <= i < origins@.len() ==> origin_storage_wf(#[trigger] origins@[i], limits),
            total == weight_sum(origins@, storage_weight()),
            total <= limits.max_total_bytes,
            (k == 0) <==> (previous is None),
            previous is None ==> origins@.len() == 0,
            previous matches Some(prev) ==> forall|i: int|
                0 <= i < origins@.len() ==> #[trigger] origin_order(origins@[i].origin@, prev@)
                    != Order::Greater,
            has == (restorable(t, limits) && count == t.len() && holds_at(b, pos as int, blocks_encoding(t))
                && pos + blocks_encoding(t).len() == b.len()),
            has ==> {
                &&& origins@.map_values(listing_item()) == t.take(k as int)
                &&& (k > 0 ==> (previous matches Some(prev) && prev@ == t[k - 1].0))
                &&& holds_at(b, p as int, blocks_encoding(t.skip(k as int)))
                &&& p + blocks_encoding(t.skip(k as int)).len() == b.len()
                &&& total == weight_sum(t.take(k as int), block_weight())
            },
        decreases count - k,
    {
        proof {
            if has {
                let rest = t.skip(k as int);
                assert(rest[0] == t[k as int]);
                assert(rest.drop_first() =~= t.skip(k + 1));
                lemma_holds_at_concat(b, p as int, origin_block(t[k as int]), blocks_encoding(t.skip(k + 1)));
                lemma_restorable_item(t, limits, k as int);
            }
        }
        let (origin, entries, next_p, used) = parse_origin(
            bytes,
            p,
            limits,
            previous.as_ref(),
            total,
            Ghost(t[k as int]),
        )?;
        let ghost blk = (origin@, entries@.map_values(entry_pair()));
        proof {
            if has {
                lemma_weight_sum_take(t, block_weight(), k as int);
            }
            if k > 0 {
                lemma_bound_moves(origins@, previous->0@, origin@);
            }
            lemma_blocks_extend(b, pos as int, seen, blk, p as int, next_p as int);
        }
        if entries.len() > 0 {
            let item = OriginStorage { origin: origin.clone(), entries, bytes: used };
            proof {
                lemma_parsed_block_wf(item, limits);
                lemma_push_origin(origins@, item);
                lemma_weight_sum_insert(origins@, storage_weight(), origins@.len() as int, item);
                assert(origins@.insert(origins@.len() as int, item) =~= origins@.push(item));
            }
            let ghost before = origins@;
            origins.push(item);
            total = total + used;
            proof {
                assert(listing_item()(item) == blk);
                assert(origins@.map_values(listing_item()) =~= before.map_values(listing_item()).push(blk));
                if has {
                    assert(origins@.map_values(listing_item()) =~= t.take(k + 1));
                }
            }
        } else {
            proof {
                if has {
                    assert(t[k as int].1.len() > 0);
                }
                let os = origins@;
                assert forall|i: int| 0 <= i < os.len() implies #[trigger] origin_order(os[i].origin@, origin@)
                    != Order::Greater by {
                    assert(origin_order(os[i].origin@, origin@) == Order::Less);
                }
            }
        }
        previous = Some(origin);
        p = next_p;
        k = k + 1;
        proof {
            let old_seen = seen;
            seen = seen.push(blk);
            assert forall|i: int| 0 <= i < seen.len() implies (#[trigger] seen[i]).1.len()
                <= limits.max_entries_per_origin by {
                if i < old_seen.len() {
                    assert(seen[i] == old_seen[i]);
                }
            }
        }
    }
    proof {
        if has {
            assert(t.take(count as int) =~= t);
            assert(t.skip(count as int) =~= Seq::<(OriginModel, Seq<(Seq<char>, Seq<u8>)>)>::empty());
        }
    }
    Ok((origins, total, p, Ghost(seen)))
}

/// Replaces the storage state with the one a checkpoint holds. The
/// checkpoint is read in full and checked before anything changes: on any
/// refusal the state is left as it was. A checkpoint of a listing that this
/// state's limits admit (`restorable`) is always accepted and gives exactly
/// that listing, with its bytes charged. Conversely, whatever is accepted is
/// the whole encoding of some listing (the magic, this version, the origin
/// count, its blocks and nothing after them), and the state becomes that
/// listing's origins that hold entries.
pub fn restore_storage_checkpoint(
    storage: &mut StorageProcessState,
    checkpoint: &[u8],
    limits: StorageCheckpointLimits,
) -> (r: Result<(), StorageCheckpointError>)
    requires
        old(storage).wf(),
    ensures
        final(storage).wf(),
        r is Err ==> *final(storage) == *old(storage),
        r is Ok ==> final(storage).spec_process() == old(storage).spec_process()
            && final(storage).spec_limits() == old(storage).spec_limits(),
        r is Ok ==> exists|l: Seq<(OriginModel, Seq<(Seq<char>, Seq<u8>)>)>|
            #[trigger] checkpoint_encoding(l) == checkpoint@ && l.len() <= old(storage).spec_limits().max_origins
                && (forall|i: int| 0 <= i < l.len() ==> (#[trigger] l[i]).1.len()
                <= old(storage).spec_limits().max_entries_per_origin) && final(storage).spec_listing()
                == nonempty_blocks(l),
        !limits.spec_is_valid() ==> (r matches Err(e) && e.kind
            == StorageCheckpointErrorKind::InvalidLimits),
        limits.spec_is_valid() && checkpoint@.len() > limits.max_checkpoint_bytes ==> (r matches Err(
            e,
        ) && e.kind == StorageCheckpointErrorKind::CheckpointTooLarge),
        forall|l: Seq<(OriginModel, Seq<(Seq<char>, Seq<u8>)>)>|
            limits.spec_is_valid() && checkpoint@.len() <= limits.max_checkpoint_bytes && restorable(
                l,
                old(storage).spec_limits(),
            ) && #[trigger] checkpoint_encoding(l) == checkpoint@ ==> (r is Ok
                && final(storage).spec_listing() == l && final(storage).spec_total_bytes()
                == weight_sum(l, block_weight())),
{
    if !limits.is_valid() {
        return Err(
            StorageCheckpointError::new(
                StorageCheckpointErrorKind::InvalidLimits,
                "storage checkpoint byte limit is too small for the checkpoint header",
            ),
        );
    }
    if checkpoint.len() > limits.max_checkpoint_bytes {
        let message = size_message("storage checkpoint", checkpoint.len(), limits.max_checkpoint_bytes);
        return Err(StorageCheckpointError::new(StorageCheckpointErrorKind::CheckpointTooLarge, message.as_str()));
    }
    proof {
        storage.lemma_parts();
    }
    let storage_limits = storage.limits;
    let ghost b = checkpoint@;
    let ghost target = choose|l: Seq<(OriginModel, Seq<(Seq<char>, Seq<u8>)>)>|
        restorable(l, storage_limits) && checkpoint_encoding(l) == b;
    let ghost has = restorable(target, storage_limits) && checkpoint_encoding(target) == b;
    proof {
        assert forall|l: Seq<(OriginModel, Seq<(Seq<char>, Seq<u8>)>)>|
            restorable(l, storage_limits) && #[trigger] checkpoint_encoding(l) == b implies has && l
            == target by {
            lemma_checkpoint_encoding_injective(l, target);
        }
    }
    let (count, p) = read_header(checkpoint, storage_limits)?;
    let (origins, total, end, Ghost(seen)) = parse_origins(checkpoint, p, count, storage_limits, Ghost(target))?;
    if end != checkpoint.len() {
        return Err(
            StorageCheckpointError::new(
                StorageCheckpointErrorKind::TrailingData,
                "storage checkpoint has unexpected trailing bytes",
            ),
        );
    }
    let restored = StorageProcessState {
        process: storage.process,
        limits: storage_limits,
        origins,
        total_bytes: total,
    };
    proof {
        restored.lemma_parts();
        let header = checkpoint_magic() + be16(STORAGE_CHECKPOINT_VERSION) + be32(count as u32);
        lemma_holds_extend(b, 0, header, 14, blocks_encoding(seen), end as int);
        assert(b.subrange(0, b.len() as int) =~= b);
        assert(checkpoint_encoding(seen) =~= header + blocks_encoding(seen));
    }
    *storage = restored;
    Ok(())
}


/// A checkpoint written from a well-formed storage state is restorable into
/// any state with the same limits, and restoring it charges the state's own
/// bytes: with `encode_storage_checkpoint` and `restore_storage_checkpoint`,
/// a written checkpoint restores exactly the origins, entries and accounting
/// it was written from.
pub proof fn lemma_checkpoint_round_trip(s: StorageProcessState)
    requires
        s.wf(),
        listing_fits(s.spec_listing()),
    ensures
        restorable(s.spec_listing(), s.spec_limits()),
        weight_sum(s.spec_listing(), block_weight()) == s.spec_total_bytes(),
{
    s.lemma_parts();
    let os = s.origins@;
    let l = s.spec_listing();
    let limits = s.limits;
    assert forall|i: int| 0 <= i < os.len() implies #[trigger] storage_weight()(os[i]) == block_weight()(
        listing_item()(os[i]),
    ) by {
        assert(origin_storage_wf(os[i], limits));
        lemma_weight_sum_map(os[i].entries@, entry_pair(), pair_weight(), entry_weight());
    }
    lemma_weight_sum_map(os, listing_item(), block_weight(), storage_weight());
    assert forall|i: int, j: int| #![trigger l[i], l[j]] 0 <= i && j == i + 1 && j < l.len() implies origin_order(
        l[i].0,
        l[j].0,
    ) == Order::Less by {
        assert(storage_order()(os[i], os[j]) == Order::Less);
    }
    assert forall|i: int| 0 <= i < l.len() implies entries_restorable(
        (#[trigger] l[i]).1,
        limits,
        weight_sum(l.take(i), block_weight()) as int,
    ) by {
        let o = os[i];
        assert(origin_storage_wf(o, limits));
        let es = l[i].1;
        assert(es == o.entries@.map_values(entry_pair()));
        assert forall|a: int, b: int| #![trigger es[a], es[b]] 0 <= a && b == a + 1 && b < es.len() implies bytes_order(
            encode_utf8(es[a].0),
            encode_utf8(es[b].0),
        ) == Order::Less by {
            assert(entry_order()(o.entries@[a], o.entries@[b]) == Order::Less);
        }
        assert(block_fits(l[i]));
        assert forall|j: int| 0 <= j < es.len() implies utf8_len((#[trigger] es[j]).0) <= limits.max_key_bytes
            && es[j].1.len() <= limits.max_value_bytes && entry_fits(es[j]) by {
            assert(utf8_len(o.entries@[j].key@) <= limits.max_key_bytes);
        }
        lemma_weight_sum_map(o.entries@, entry_pair(), pair_weight(), entry_weight());
        lemma_weight_sum_take(l, block_weight(), i);
        lemma_weight_sum_prefix(l, block_weight(), i + 1);
    }
    assert forall|i: int| 0 <= i < l.len() implies (#[trigger] l[i]).1.len() > 0 by {
        assert(origin_storage_wf(os[i], limits));
    }
}


/// The listing of a storage state, and so its checkpoint and every step of
/// writing it, depends only on what it stores: two states with the same
/// origins and entries list them alike, whatever order the entries were
/// stored in, so their checkpoints are written or refused alike.
pub proof fn lemma_listing_determined_by_entries(s1: StorageProcessState, s2: StorageProcessState)
    requires
        s1.wf(),
        s2.wf(),
        s1.spec_entries() == s2.spec_entries(),
    ensures
        s1.spec_listing() == s2.spec_listing(),
        checkpoint_encoding(s1.spec_listing()) == checkpoint_encoding(s2.spec_listing()),
        listing_identities_fit(s1.spec_listing()) == listing_identities_fit(s2.spec_listing()),
        forall|max: nat|
            #[trigger] write_run(checkpoint_steps(s1.spec_listing()), 0, max) == write_run(
                checkpoint_steps(s2.spec_listing()),
                0,
                max,
            ),
{
    s1.lemma_parts();
    s2.lemma_parts();
    let kord = |x: OriginModel, y: OriginModel| origin_order(x, y);
    assert forall|x: OriginModel, y: OriginModel| #[trigger] kord(x, y) == Order::Less implies kord(y, x)
        != Order::Less && x != y by {
        lemma_origin_order_flip(x, y);
        lemma_origin_order_equal(x, y);
    }
    assert forall|a: OriginStorage, b: OriginStorage| #[trigger] storage_order()(a, b) == kord(
        storage_origin()(a),
        storage_origin()(b),
    ) by {}
    lemma_sorted_same_map(
        s1.origins@,
        s2.origins@,
        storage_order(),
        kord,
        storage_origin(),
        storage_entries(),
    );
    let ekord = |x: Seq<char>, y: Seq<char>| bytes_order(encode_utf8(x), encode_utf8(y));
    assert forall|x: Seq<char>, y: Seq<char>| #[trigger] ekord(x, y) == Order::Less implies ekord(y, x)
        != Order::Less && x != y by {
        lemma_bytes_order_flip(encode_utf8(x), encode_utf8(y));
        lemma_bytes_order_equal(encode_utf8(x), encode_utf8(y));
    }
    assert forall|a: StorageEntry, b: StorageEntry| #[trigger] entry_order()(a, b) == ekord(
        entry_key()(a),
        entry_key()(b),
    ) by {}
    assert forall|i: int| 0 <= i < s1.origins@.len() implies #[trigger] listing_item()(s1.origins@[i])
        == listing_item()(s2.origins@[i]) by {
        let o1 = s1.origins@[i];
        let o2 = s2.origins@[i];
        assert(origin_storage_wf(o1, s1.limits));
        assert(origin_storage_wf(o2, s2.limits));
        lemma_sorted_same_map(o1.entries@, o2.entries@, entry_order(), ekord, entry_key(), entry_value());
        assert(o1.entries@.map_values(entry_pair()) =~= o2.entries@.map_values(entry_pair()));
    }
    assert(s1.spec_listing() =~= s2.spec_listing());
}



/// What a storage state stores is determined by its listing: two states
/// that list the same origins and entries hold the same value under every
/// origin and key, the same number of origins, and the same bytes and entry
/// count for every origin. With the round trip above, a restored checkpoint
/// gives back every stored value and all of its accounting.
pub proof fn lemma_entries_determined_by_listing(s1: StorageProcessState, s2: StorageProcessState)
    requires
        s1.wf(),
        s2.wf(),
        s1.spec_listing() == s2.spec_listing(),
    ensures
        s1.spec_entries() == s2.spec_entries(),
        forall|o: OriginModel, k: Seq<char>| #[trigger] s1.spec_get(o, k) == s2.spec_get(o, k),
        s1.spec_origin_count() == s2.spec_origin_count(),
        forall|o: OriginModel| #[trigger] s1.spec_origin_bytes(o) == s2.spec_origin_bytes(o),
        forall|o: OriginModel| #[trigger] s1.spec_entry_count(o) == s2.spec_entry_count(o),
{
    s1.lemma_parts();
    s2.lemma_parts();
    lemma_storage_order_laws();
    lemma_entry_order_laws();
    let a = s1.origins@;
    let b = s2.origins@;
    assert(a.len() == b.len()) by {
        assert(s1.spec_listing().len() == a.len());
        assert(s2.spec_listing().len() == b.len());
    }
    assert forall|i: int| 0 <= i < a.len() implies storage_origin()(#[trigger] a[i]) == storage_origin()(b[i])
        && storage_entries()(a[i]) == storage_entries()(b[i]) by {
        assert(s1.spec_listing()[i] == listing_item()(a[i]));
        assert(s2.spec_listing()[i] == listing_item()(b[i]));
        let e1 = a[i].entries@;
        let e2 = b[i].entries@;
        assert(origin_storage_wf(a[i], s1.limits));
        assert(e1.map_values(entry_pair()) == e2.map_values(entry_pair()));
        assert(e1.len() == e2.len()) by {
            assert(e1.map_values(entry_pair()).len() == e1.len());
            assert(e2.map_values(entry_pair()).len() == e2.len());
        }
        assert forall|j: int| 0 <= j < e1.len() implies entry_key()(#[trigger] e1[j]) == entry_key()(e2[j])
            && entry_value()(e1[j]) == entry_value()(e2[j]) by {
            assert(e1.map_values(entry_pair())[j] == e2.map_values(entry_pair())[j]);
        }
        lemma_sorted_distinct(e1, entry_order(), entry_key());
        lemma_keyed_map_congruent(e1, e2, entry_key(), entry_value());
    }
    lemma_sorted_distinct(a, storage_order(), storage_origin());
    lemma_keyed_map_congruent(a, b, storage_origin(), storage_entries());
    assert forall|i: int| 0 <= i < a.len() implies storage_origin()(#[trigger] a[i]) == storage_origin()(b[i])
        && storage_weight()(a[i]) == storage_weight()(b[i]) && storage_count()(a[i]) == storage_count()(b[i]) by {
        assert(s1.spec_listing()[i] == listing_item()(a[i]));
        assert(s2.spec_listing()[i] == listing_item()(b[i]));
        let e1 = a[i].entries@;
        let e2 = b[i].entries@;
        assert(origin_storage_wf(a[i], s1.limits));
        assert(origin_storage_wf(b[i], s2.limits));
        assert(e1.map_values(entry_pair()).len() == e1.len());
        assert(e2.map_values(entry_pair()).len() == e2.len());
        assert forall|j: int| 0 <= j < e1.len() implies #[trigger] entry_weight()(e1[j]) == pair_weight()(
            entry_pair()(e1[j]),
        ) by {}
        assert forall|j: int| 0 <= j < e2.len() implies #[trigger] entry_weight()(e2[j]) == pair_weight()(
            entry_pair()(e2[j]),
        ) by {}
        lemma_weight_sum_map(e1, entry_pair(), pair_weight(), entry_weight());
        lemma_weight_sum_map(e2, entry_pair(), pair_weight(), entry_weight());
    }
    lemma_keyed_map_congruent(a, b, storage_origin(), storage_weight());
    lemma_keyed_map_congruent(a, b, storage_origin(), storage_count());
}

} // verus!
