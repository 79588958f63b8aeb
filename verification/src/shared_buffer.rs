//! Sessions on exported Vulkan buffers: what may be asked for, and what a session comes to.

use crate::backend::BackendError;
use crate::platform::Platform;
use crate::text;
use vstd::prelude::*;
use vstd::string::*;

verus! {

pub const DEFAULT_MAX_SESSION_BYTES: u64 = 1073741824;

pub const DEFAULT_MAX_BUFFERS: usize = 64;

/// A buffer that a session asks for.
#[derive(Debug, Clone, Copy, PartialEq, Eq)]
pub struct SharedBufferSpec<'a> {
    pub bytes: u64,
    pub initial_data: Option<&'a [u8]>,
    pub readback: bool,
}

/// A buffer that is exported for the time of one operation.
#[derive(Debug, Clone, Copy, PartialEq, Eq, Structural)]
pub struct ExportedSharedBuffer {
    /// A borrowed handle, valid only while the operation runs.
    pub handle: u64,
    pub allocation_size: u64,
    pub logical_size: u64,
}

/// What a session comes to.
#[derive(Debug, Clone, PartialEq, Eq)]
pub struct ExportedBufferSessionOutput<T> {
    pub value: T,
    pub vulkan_device: String,
    pub readbacks: Vec<Option<Vec<u8>>>,
}

/// The greatest number of bytes of a session: what is configured, where that is a number, else
/// 1 GiB.
pub open spec fn session_limit_of(configured: Option<Seq<char>>) -> u64 {
    match configured {
        Some(value) => match text::number_value(value, 10, u64::MAX as nat) {
            Ok(limit) => limit as u64,
            Err(_) => 1073741824,
        },
        None => 1073741824,
    }
}

pub fn session_limit(configured: Option<&str>) -> (r: u64)
    ensures
        r == session_limit_of(
            match configured {
                Some(value) => Some(value@),
                None => None,
            },
        ),
{
    match configured {
        Some(value) => {
            let digits = text::characters(value);
            match text::parse_number(digits.as_slice(), 10, u64::MAX) {
                Ok(limit) => limit,
                Err(_) => DEFAULT_MAX_SESSION_BYTES,
            }
        },
        None => DEFAULT_MAX_SESSION_BYTES,
    }
}

/// How many bytes buffers have together.
pub open spec fn total_bytes(specs: Seq<SharedBufferSpec<'_>>) -> nat
    decreases specs.len(),
{
    if specs.len() == 0 {
        0
    } else {
        total_bytes(specs.drop_last()) + specs.last().bytes as nat
    }
}

/// Whether a buffer is not empty, and its data, where it has any, fill it.
pub open spec fn is_sound(spec: SharedBufferSpec<'_>) -> bool {
    &&& spec.bytes > 0
    &&& spec.initial_data matches Some(data) ==> data@.len() == spec.bytes
}

/// Whether buffers can be had in one session.
pub open spec fn are_valid(specs: Seq<SharedBufferSpec<'_>>, maximum: u64) -> bool {
    &&& 0 < specs.len() <= DEFAULT_MAX_BUFFERS
    &&& forall|i: int| #![trigger specs[i]] 0 <= i < specs.len() ==> is_sound(specs[i])
    &&& total_bytes(specs) <= maximum
}

/// The text of what is wrong with one buffer.
pub open spec fn buffer_complaint(spec: SharedBufferSpec<'_>, index: int) -> Seq<char> {
    if spec.bytes == 0 {
        "shared-buffer "@ + text::decimal(index as nat) + " size must be non-zero"@
    } else {
        "shared-buffer "@ + text::decimal(index as nat) + " initial data is "@ + text::decimal(
            (spec.initial_data->0)@.len(),
        ) + " bytes, expected "@ + text::decimal(spec.bytes as nat)
    }
}

/// Whether buffer `i` is the first that is not sound, and the sizes before it can be added up.
pub open spec fn is_first_unsound(specs: Seq<SharedBufferSpec<'_>>, i: int) -> bool {
    &&& 0 <= i < specs.len()
    &&& !is_sound(specs[i])
    &&& forall|j: int| #![trigger specs[j]] 0 <= j < i ==> is_sound(specs[j])
    &&& total_bytes(specs.take(i)) <= u64::MAX
}

/// Whether an error is what invalid buffers are refused with.
pub open spec fn are_refused_with(
    specs: Seq<SharedBufferSpec<'_>>,
    maximum: u64,
    error: BackendError,
) -> bool {
    if specs.len() == 0 {
        &&& error matches BackendError::Internal(reason)
        &&& reason@ == "shared-buffer session requires at least one buffer"@
    } else if specs.len() > DEFAULT_MAX_BUFFERS {
        &&& error matches BackendError::Unsupported(reason)
        &&& reason@ == "shared-buffer session requests "@ + text::decimal(specs.len())
            + " buffers, maximum is "@ + text::decimal(DEFAULT_MAX_BUFFERS as nat)
    } else if exists|i: int| is_first_unsound(specs, i) {
        &&& error matches BackendError::Internal(reason)
        &&& exists|i: int| #[trigger]
            is_first_unsound(specs, i) && reason@ == buffer_complaint(specs[i], i)
    } else if total_bytes(specs) > u64::MAX {
        &&& error matches BackendError::Unsupported(reason)
        &&& reason@ == "shared-buffer session byte count overflow"@
    } else {
        &&& total_bytes(specs) > maximum
        &&& error matches BackendError::Unsupported(reason)
        &&& reason@ == "shared-buffer session requests "@ + text::decimal(total_bytes(specs))
            + " bytes, exceeding VRB_MAX_SHARED_SESSION_BYTES="@ + text::decimal(maximum as nat)
    }
}

proof fn lemma_total_grows(specs: Seq<SharedBufferSpec<'_>>, n: int)
    requires
        0 <= n <= specs.len(),
    ensures
        total_bytes(specs.take(n)) <= total_bytes(specs),
    decreases specs.len(),
{
    if n == specs.len() {
        assert(specs.take(n) =~= specs);
    } else {
        assert(specs.drop_last().take(n) =~= specs.take(n));
        lemma_total_grows(specs.drop_last(), n);
    }
}

/// Checks the buffers of a session: one at least and not too many, each of them sound, and all of
/// them together within the limit.
pub fn validate_specs(specs: &[SharedBufferSpec<'_>], maximum: u64) -> (r: Result<
    (),
    BackendError,
>)
    ensures
        match r {
            Ok(_) => are_valid(specs@, maximum),
            Err(error) => !are_valid(specs@, maximum) && are_refused_with(specs@, maximum, error),
        },
{
    let count: usize = specs.len();
    if count == 0 {
        return Err(
            BackendError::Internal("shared-buffer session requires at least one buffer".to_owned()),
        );
    }
    if count > DEFAULT_MAX_BUFFERS {
        let mut reason = "shared-buffer session requests ".to_owned();
        text::append_decimal(&mut reason, count as u64);
        reason.append(" buffers, maximum is ");
        text::append_decimal(&mut reason, DEFAULT_MAX_BUFFERS as u64);
        return Err(BackendError::Unsupported(reason));
    }
    let mut total: u64 = 0;
    let mut i: usize = 0;
    assert(specs@.take(0) =~= Seq::empty());
    while i < count
        invariant
            i <= count,
            count == specs@.len(),
            0 < count <= DEFAULT_MAX_BUFFERS,
            total == total_bytes(specs@.take(i as int)),
            forall|j: int| #![trigger specs@[j]] 0 <= j < i ==> is_sound(specs@[j]),
        decreases count - i,
    {
        let spec = specs[i];
        if spec.bytes == 0 {
            let mut reason = "shared-buffer ".to_owned();
            text::append_decimal(&mut reason, i as u64);
            reason.append(" size must be non-zero");
            assert(is_first_unsound(specs@, i as int));
            return Err(BackendError::Internal(reason));
        }
        match spec.initial_data {
            Some(initial) => {
                let actual: u64 = initial.len() as u64;
                if actual != spec.bytes {
                    let mut reason = "shared-buffer ".to_owned();
                    text::append_decimal(&mut reason, i as u64);
                    reason.append(" initial data is ");
                    text::append_decimal(&mut reason, actual);
                    reason.append(" bytes, expected ");
                    text::append_decimal(&mut reason, spec.bytes);
                    assert(is_first_unsound(specs@, i as int));
                    return Err(BackendError::Internal(reason));
                }
            },
            None => {},
        }
        proof {
            assert(specs@.take(i + 1).drop_last() =~= specs@.take(i as int));
            lemma_total_grows(specs@, i + 1);
        }
        total = match total.checked_add(spec.bytes) {
            Some(sum) => sum,
            None => {
                proof {
                    assert forall|j: int| !is_first_unsound(specs@, j) by {
                        if is_first_unsound(specs@, j) {
                            assert(j > i);
                            lemma_total_grows(specs@.take(j), i + 1);
                            assert(specs@.take(j).take(i + 1) =~= specs@.take(i + 1));
                        }
                    }
                }
                return Err(
                    BackendError::Unsupported(
                        "shared-buffer session byte count overflow".to_owned(),
                    ),
                );
            },
        };
        i = i + 1;
    }
    assert(specs@.take(i as int) =~= specs@);
    if total > maximum {
        let mut reason = "shared-buffer session requests ".to_owned();
        text::append_decimal(&mut reason, total);
        reason.append(" bytes, exceeding VRB_MAX_SHARED_SESSION_BYTES=");
        text::append_decimal(&mut reason, maximum);
        return Err(BackendError::Unsupported(reason));
    }
    Ok(())
}

/// A session: on Windows, where memory is shared by Win32 handles, `run` exports the buffers and
/// runs the operation, once the specs are in order. Elsewhere the session is refused, and the
/// operation is not run.
pub fn with_exported_shared_buffers<
    T,
    F: FnOnce(&[ExportedSharedBuffer]) -> Result<T, BackendError>,
    S: FnOnce(F) -> Result<ExportedBufferSessionOutput<T>, BackendError>,
>(
    platform: Platform,
    configured: Option<&str>,
    specs: &[SharedBufferSpec<'_>],
    operation: F,
    run: S,
) -> (r: Result<ExportedBufferSessionOutput<T>, BackendError>)
    requires
        platform == Platform::Windows ==> run.requires((operation,)),
    ensures
        ({
            let maximum = session_limit_of(
                match configured {
                    Some(value) => Some(value@),
                    None => None,
                },
            );
            if platform != Platform::Windows {
                r matches Err(BackendError::Unsupported(reason)) && reason@
                    == "Vulkan shared-buffer export currently implements the Win32 KMT path only"@
            } else if !are_valid(specs@, maximum) {
                r matches Err(error) && are_refused_with(specs@, maximum, error)
            } else {
                run.ensures((operation,), r)
            }
        }),
{
    match platform {
        Platform::Windows => {},
        _ => {
            return Err(
                BackendError::Unsupported(
                    "Vulkan shared-buffer export currently implements the Win32 KMT path only".to_owned(),
                ),
            );
        },
    }
    match validate_specs(specs, session_limit(configured)) {
        Ok(_) => run(operation),
        Err(error) => Err(error),
    }
}

/// Whether data can be written to a buffer of a size: only where they fill it.
pub fn check_staging_write(data_length: usize, logical_size: u64) -> (r: Result<(), BackendError>)
    ensures
        match r {
            Ok(_) => data_length == logical_size,
            Err(error) => {
                &&& data_length != logical_size
                &&& error matches BackendError::Internal(reason)
                &&& reason@ == "staging write length "@ + text::decimal(data_length as nat)
                    + " does not match buffer size "@ + text::decimal(logical_size as nat)
            },
        },
{
    if data_length as u64 != logical_size {
        let mut reason = "staging write length ".to_owned();
        text::append_decimal(&mut reason, data_length as u64);
        reason.append(" does not match buffer size ");
        text::append_decimal(&mut reason, logical_size);
        return Err(BackendError::Internal(reason));
    }
    Ok(())
}

/// How many bytes to read back from a buffer.
pub fn readback_length(logical_size: u64) -> (r: Result<usize, BackendError>)
    ensures
        match r {
            Ok(length) => length == logical_size,
            Err(error) => {
                &&& logical_size > usize::MAX
                &&& error matches BackendError::Unsupported(reason)
                &&& reason@ == "staging readback length does not fit usize"@
            },
        },
{
    if logical_size > usize::MAX as u64 {
        return Err(
            BackendError::Unsupported("staging readback length does not fit usize".to_owned()),
        );
    }
    Ok(logical_size as usize)
}

/// The first error that reclaiming buffers met with. Every buffer is reclaimed, whatever happens
/// to others.
pub open spec fn first_error(reclaimed: Seq<Result<(), BackendError>>) -> Option<BackendError>
    decreases reclaimed.len(),
{
    if reclaimed.len() == 0 {
        None
    } else {
        match reclaimed[0] {
            Err(error) => Some(error),
            Ok(_) => first_error(reclaimed.drop_first()),
        }
    }
}

fn take_first_error(reclaimed: Vec<Result<(), BackendError>>) -> (r: Option<BackendError>)
    ensures
        r == first_error(reclaimed@),
{
    let mut rest = reclaimed;
    while rest.len() > 0
        invariant
            first_error(rest@) == first_error(reclaimed@),
        decreases rest@.len(),
    {
        let ghost before = rest@;
        let one = rest.remove(0);
        assert(rest@ =~= before.drop_first());
        match one {
            Ok(_) => {},
            Err(error) => {
                return Some(error);
            },
        }
    }
    None
}

/// What a session comes to once its buffers are reclaimed: the operation's own failure first, then
/// the first failure to reclaim a buffer.
pub fn settle_operation<T>(
    outcome: Result<T, BackendError>,
    reclaimed: Vec<Result<(), BackendError>>,
) -> (r: Result<T, BackendError>)
    ensures
        r == match outcome {
            Ok(value) => match first_error(reclaimed@) {
                Some(error) => Err(error),
                None => Ok(value),
            },
            Err(error) => Err(error),
        },
{
    match outcome {
        Ok(value) => match take_first_error(reclaimed) {
            Some(error) => Err(error),
            None => Ok(value),
        },
        Err(error) => Err(error),
    }
}

/// An operation's value is handed out only where every buffer came back.
pub proof fn a_value_means_all_are_reclaimed(reclaimed: Seq<Result<(), BackendError>>, i: int)
    requires
        first_error(reclaimed) is None,
        0 <= i < reclaimed.len(),
    ensures
        reclaimed[i] is Ok,
    decreases reclaimed.len(),
{
    if i > 0 {
        a_value_means_all_are_reclaimed(reclaimed.drop_first(), i - 1);
    }
}

/// Buffers can be had in one session if and only if there is one at least and 64 at most, none is
/// empty, initial data fill their buffer, and all together are within the limit.
pub proof fn valid_buffers_by_their_fields(specs: Seq<SharedBufferSpec<'_>>, maximum: u64)
    ensures
        are_valid(specs, maximum) <==> {
            &&& 1 <= specs.len() <= 64
            &&& forall|i: int| #![trigger specs[i]] 0 <= i < specs.len() ==> specs[i].bytes > 0
            &&& forall|i: int|
                #![trigger specs[i]]
                0 <= i < specs.len() ==> (specs[i].initial_data matches Some(data) ==> data@.len()
                    == specs[i].bytes)
            &&& total_bytes(specs) <= maximum
        },
{
    if are_valid(specs, maximum) {
        assert forall|i: int| #![trigger specs[i]] 0 <= i < specs.len() implies specs[i].bytes
            > 0 by {
            assert(is_sound(specs[i]));
        }
    }
}

/// The bytes of buffers are those of each of them together.
pub proof fn buffers_add_up<'a>(
    some: Seq<SharedBufferSpec<'a>>,
    more: Seq<SharedBufferSpec<'a>>,
)
    ensures
        total_bytes(Seq::<SharedBufferSpec<'a>>::empty()) == 0,
        more.len() == 1 ==> total_bytes(more) == more[0].bytes,
        total_bytes(some + more) == total_bytes(some) + total_bytes(more),
    decreases more.len(),
{
    if more.len() == 0 {
        assert(some + more =~= some);
    } else {
        buffers_add_up(some, more.drop_last());
        assert((some + more).drop_last() =~= some + more.drop_last());
        if more.len() == 1 {
            assert(more.drop_last() =~= Seq::<SharedBufferSpec<'a>>::empty());
        }
    }
}

/// The error of reclaiming is that of the first buffer that could not be reclaimed: every one
/// before it came back.
pub proof fn the_first_error_is_reported(reclaimed: Seq<Result<(), BackendError>>, i: int)
    requires
        0 <= i < reclaimed.len(),
        reclaimed[i] is Err,
        forall|j: int| #![trigger reclaimed[j]] 0 <= j < i ==> reclaimed[j] is Ok,
    ensures
        first_error(reclaimed) == Some(reclaimed[i]->Err_0),
    decreases reclaimed.len(),
{
    if i > 0 {
        let rest = reclaimed.drop_first();
        assert(reclaimed[0] is Ok);
        assert forall|j: int| #![trigger rest[j]] 0 <= j < i - 1 implies rest[j] is Ok by {
            assert(rest[j] == reclaimed[j + 1]);
        }
        the_first_error_is_reported(rest, i - 1);
    }
}

/// A limit is what is configured, in decimal, up to the largest number there is. Where nothing is
/// configured, or no number, it is 1 GiB.
pub proof fn a_configured_limit_is_taken(limit: u64, configured: Seq<char>)
    ensures
        session_limit_of(Some(text::decimal(limit as nat))) == limit,
        session_limit_of(None) == 1024 * 1024 * 1024,
        text::number_value(configured, 10, 0xffff_ffff_ffff_ffff) is Err ==> session_limit_of(
            Some(configured),
        ) == 1024 * 1024 * 1024,
{
    text::a_decimal_is_read_as_written(limit as nat, u64::MAX as nat);
}

} // verus!
