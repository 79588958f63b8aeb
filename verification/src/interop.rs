//! Sharing memory between Vulkan and HIP: which devices belong together, and whether what one
//! wrote is what the other reads.

use crate::backend::BackendError;
use crate::platform::Platform;
use crate::text;
use crate::vulkan::{PhysicalDeviceType, AMD_PCI_VENDOR_ID};
use vstd::prelude::*;
use vstd::string::*;

verus! {

const DEFAULT_MAX_SMOKE_BYTES: u64 = 268435456;

/// What a zero-copy smoke test found.
#[derive(Debug, Clone, PartialEq, Eq)]
pub struct ZeroCopySmokeReport {
    pub vulkan_device: String,
    pub hip_device: String,
    pub bytes: u64,
    pub pattern: u8,
    pub verified_bytes: u64,
    pub external_memory_handle: &'static str,
    pub synchronization: &'static str,
}

/// The greatest size of a smoke test: what is configured, where that is a number, else 256 MiB.
pub open spec fn smoke_limit_of(configured: Option<Seq<char>>) -> u64 {
    match configured {
        Some(value) => match text::number_value(value, 10, u64::MAX as nat) {
            Ok(limit) => limit as u64,
            Err(_) => 268435456,
        },
        None => 268435456,
    }
}

pub fn smoke_limit(configured: Option<&str>) -> (r: u64)
    ensures
        r == smoke_limit_of(
            match configured {
                Some(value) => Some(value@),
                None => None,
            },
        ),
{
    match configured {
        Some(value) => {
            let digits = text::characters(value);
            match text::parse_number(digits.as_slice(), 10, u64::MAX) {
                Ok(limit) => limit,
                Err(_) => DEFAULT_MAX_SMOKE_BYTES,
            }
        },
        None => DEFAULT_MAX_SMOKE_BYTES,
    }
}

/// Whether an error refuses the size of a smoke test.
pub open spec fn is_size_refusal(bytes: u64, maximum: u64, error: BackendError) -> bool {
    if bytes == 0 {
        &&& error matches BackendError::Internal(reason)
        &&& reason@ == "zero-copy smoke size must be greater than zero"@
    } else if bytes > maximum {
        &&& error matches BackendError::Unsupported(reason)
        &&& reason@ == "requested "@ + text::decimal(bytes as nat)
            + " bytes exceeds VRB_MAX_SMOKE_BYTES="@ + text::decimal(maximum as nat)
    } else {
        &&& bytes > usize::MAX
        &&& error matches BackendError::Unsupported(reason)
        &&& reason@ == "smoke size does not fit usize"@
    }
}

/// The size of a smoke test, where it is not empty and within the limits.
pub fn check_smoke_size(bytes: u64, maximum: u64) -> (r: Result<usize, BackendError>)
    ensures
        match r {
            Ok(size) => size == bytes && 0 < bytes <= maximum,
            Err(error) => is_size_refusal(bytes, maximum, error),
        },
{
    if bytes == 0 {
        return Err(
            BackendError::Internal("zero-copy smoke size must be greater than zero".to_owned()),
        );
    }
    if bytes > maximum {
        let mut reason = "requested ".to_owned();
        text::append_decimal(&mut reason, bytes);
        reason.append(" bytes exceeds VRB_MAX_SMOKE_BYTES=");
        text::append_decimal(&mut reason, maximum);
        return Err(BackendError::Unsupported(reason));
    }
    if bytes > usize::MAX as u64 {
        return Err(BackendError::Unsupported("smoke size does not fit usize".to_owned()));
    }
    Ok(bytes as usize)
}

/// A letter or a digit of ASCII.
pub open spec fn is_alphanumeric(c: char) -> bool {
    '0' <= c <= '9' || 'a' <= c <= 'z' || 'A' <= c <= 'Z'
}

/// The lower-case form of a letter of ASCII, and any other character itself.
pub open spec fn lower(c: char) -> char {
    if 'A' <= c <= 'Z' {
        (c as int + 32) as char
    } else {
        c
    }
}

/// The letters and digits of a name, in lower case.
pub open spec fn normalized(name: Seq<char>) -> Seq<char>
    decreases name.len(),
{
    if name.len() == 0 {
        Seq::empty()
    } else if is_alphanumeric(name.last()) {
        normalized(name.drop_last()).push(lower(name.last()))
    } else {
        normalized(name.drop_last())
    }
}

/// Normalizing leaves what is normalized already.
pub proof fn normalizing_twice_changes_nothing(name: Seq<char>)
    ensures
        normalized(normalized(name)) == normalized(name),
    decreases name.len(),
{
    if name.len() > 0 {
        normalizing_twice_changes_nothing(name.drop_last());
        if is_alphanumeric(name.last()) {
            let c = lower(name.last());
            assert(is_alphanumeric(c) && lower(c) == c);
            assert(normalized(name).drop_last() =~= normalized(name.drop_last()));
        }
    }
}

fn lower_text(c: char) -> (r: &'static str)
    requires
        '0' <= c <= '9' || 'a' <= c <= 'z',
    ensures
        r@ == seq![c],
{
    let r = match c {
        '0' => "0",
        '1' => "1",
        '2' => "2",
        '3' => "3",
        '4' => "4",
        '5' => "5",
        '6' => "6",
        '7' => "7",
        '8' => "8",
        '9' => "9",
        'a' => "a",
        'b' => "b",
        'c' => "c",
        'd' => "d",
        'e' => "e",
        'f' => "f",
        'g' => "g",
        'h' => "h",
        'i' => "i",
        'j' => "j",
        'k' => "k",
        'l' => "l",
        'm' => "m",
        'n' => "n",
        'o' => "o",
        'p' => "p",
        'q' => "q",
        'r' => "r",
        's' => "s",
        't' => "t",
        'u' => "u",
        'v' => "v",
        'w' => "w",
        'x' => "x",
        'y' => "y",
        _ => "z",
    };
    proof {
        reveal_strlit("0");
        reveal_strlit("1");
        reveal_strlit("2");
        reveal_strlit("3");
        reveal_strlit("4");
        reveal_strlit("5");
        reveal_strlit("6");
        reveal_strlit("7");
        reveal_strlit("8");
        reveal_strlit("9");
        reveal_strlit("a");
        reveal_strlit("b");
        reveal_strlit("c");
        reveal_strlit("d");
        reveal_strlit("e");
        reveal_strlit("f");
        reveal_strlit("g");
        reveal_strlit("h");
        reveal_strlit("i");
        reveal_strlit("j");
        reveal_strlit("k");
        reveal_strlit("l");
        reveal_strlit("m");
        reveal_strlit("n");
        reveal_strlit("o");
        reveal_strlit("p");
        reveal_strlit("q");
        reveal_strlit("r");
        reveal_strlit("s");
        reveal_strlit("t");
        reveal_strlit("u");
        reveal_strlit("v");
        reveal_strlit("w");
        reveal_strlit("x");
        reveal_strlit("y");
        reveal_strlit("z");
        assert(r@ =~= seq![c]);
    }
    r
}

/// The letters and digits of a name, in lower case.
pub fn normalize_device_name(value: &str) -> (r: String)
    ensures
        r@ == normalized(value@),
{
    let characters = text::characters(value);
    let mut r = String::new();
    let mut i: usize = 0;
    assert(value@.take(0) =~= Seq::empty());
    assert(r@ =~= normalized(value@.take(0)));
    while i < characters.len()
        invariant
            i <= characters@.len(),
            characters@ == value@,
            r@ == normalized(value@.take(i as int)),
        decreases characters@.len() - i,
    {
        let c: char = characters[i];
        proof {
            let now = value@.take(i + 1);
            assert(now.drop_last() =~= value@.take(i as int));
            assert(now.last() == c);
        }
        let ghost before = r@;
        if '0' <= c && c <= '9' || 'a' <= c && c <= 'z' {
            r.append(lower_text(c));
            assert(r@ =~= before.push(c));
        } else if 'A' <= c && c <= 'Z' {
            let small: char = (c as u8 + 32) as char;
            r.append(lower_text(small));
            assert(r@ =~= before.push(lower(c)));
        }
        i = i + 1;
    }
    assert(value@.take(i as int) =~= value@);
    r
}

/// Whether `part` stands somewhere in `whole`.
pub open spec fn has_part(whole: Seq<char>, part: Seq<char>) -> bool {
    exists|k: int| #[trigger] stands_at(whole, part, k)
}

/// Whether `part` stands at place `k` of `whole`.
pub open spec fn stands_at(whole: Seq<char>, part: Seq<char>, k: int) -> bool {
    0 <= k && k + part.len() <= whole.len() && whole.subrange(k, k + part.len()) == part
}

fn is_at(whole: &[char], part: &[char], k: usize) -> (r: bool)
    requires
        k + part@.len() <= whole@.len(),
    ensures
        r == stands_at(whole@, part@, k as int),
{
    let length: usize = whole.len();
    let mut i: usize = 0;
    while i < part.len()
        invariant
            i <= part@.len(),
            length == whole@.len(),
            k + part@.len() <= whole@.len(),
            forall|j: int| 0 <= j < i ==> whole@[k + j] == part@[j],
        decreases part@.len() - i,
    {
        if whole[k + i] != part[i] {
            assert(whole@.subrange(k as int, k + part@.len())[i as int] != part@[i as int]);
            return false;
        }
        i = i + 1;
    }
    assert(whole@.subrange(k as int, k + part@.len()) =~= part@);
    true
}

fn holds_part(whole: &[char], part: &[char]) -> (r: bool)
    ensures
        r == has_part(whole@, part@),
{
    let whole_length: usize = whole.len();
    let part_length: usize = part.len();
    if part_length > whole_length {
        return false;
    }
    let mut k: usize = 0;
    while k <= whole_length - part_length
        invariant
            whole_length == whole@.len(),
            part_length == part@.len(),
            part_length <= whole_length,
            k <= whole_length - part_length + 1,
            forall|j: int| 0 <= j < k ==> !#[trigger] stands_at(whole@, part@, j),
        decreases whole_length - part_length + 1 - k,
    {
        if is_at(whole, part, k) {
            assert(stands_at(whole@, part@, k as int));
            return true;
        }
        if k == whole_length - part_length {
            return false;
        }
        k = k + 1;
    }
    false
}

/// Whether two names, normalized, are the same.
pub open spec fn is_same_device(target: Seq<char>, name: Seq<char>) -> bool {
    normalized(name) == normalized(target)
}

/// Whether one of two names, normalized, is part of the other.
pub open spec fn is_similar_device(target: Seq<char>, name: Seq<char>) -> bool {
    has_part(normalized(name), normalized(target)) || has_part(normalized(target), normalized(name))
}

/// Whether device `i` is the first of the same name or, where there is none, the first of a
/// similar name or, where there is none either, the only device.
pub open spec fn is_correlated(target: Seq<char>, devices: Seq<String>, i: int) -> bool {
    &&& 0 <= i < devices.len()
    &&& if exists|j: int| 0 <= j < devices.len() && #[trigger] is_same_device(target, devices[j]@) {
        &&& is_same_device(target, devices[i]@)
        &&& forall|j: int| 0 <= j < i ==> !#[trigger] is_same_device(target, devices[j]@)
    } else if exists|j: int|
        0 <= j < devices.len() && #[trigger] is_similar_device(target, devices[j]@) {
        &&& is_similar_device(target, devices[i]@)
        &&& forall|j: int| 0 <= j < i ==> !#[trigger] is_similar_device(target, devices[j]@)
    } else {
        devices.len() == 1
    }
}

/// Whether no device can be told to be the target.
pub open spec fn is_uncorrelated(target: Seq<char>, devices: Seq<String>) -> bool {
    &&& devices.len() != 1
    &&& forall|j: int|
        #![trigger devices[j]]
        0 <= j < devices.len() ==> !is_same_device(target, devices[j]@) && !is_similar_device(
            target,
            devices[j]@,
        )
}

/// The HIP device that a Vulkan device is.
pub fn correlate_device(target: &str, devices: &[String]) -> (r: Option<usize>)
    ensures
        match r {
            Some(i) => is_correlated(target@, devices@, i as int),
            None => is_uncorrelated(target@, devices@),
        },
{
    let wanted = normalize_device_name(target);
    let mut i: usize = 0;
    while i < devices.len()
        invariant
            i <= devices@.len(),
            wanted@ == normalized(target@),
            forall|j: int| 0 <= j < i ==> !#[trigger] is_same_device(target@, devices@[j]@),
        decreases devices@.len() - i,
    {
        let name = normalize_device_name(devices[i].as_str());
        if text::is_same_text(name.as_str(), wanted.as_str()) {
            assert(is_same_device(target@, devices@[i as int]@));
            return Some(i);
        }
        i = i + 1;
    }
    let wanted_characters = text::characters(wanted.as_str());
    let mut i: usize = 0;
    while i < devices.len()
        invariant
            i <= devices@.len(),
            wanted_characters@ == normalized(target@),
            forall|j: int|
                0 <= j < devices@.len() ==> !#[trigger] is_same_device(target@, devices@[j]@),
            forall|j: int| 0 <= j < i ==> !#[trigger] is_similar_device(target@, devices@[j]@),
        decreases devices@.len() - i,
    {
        let name = normalize_device_name(devices[i].as_str());
        let name_characters = text::characters(name.as_str());
        if holds_part(name_characters.as_slice(), wanted_characters.as_slice()) || holds_part(
            wanted_characters.as_slice(),
            name_characters.as_slice(),
        ) {
            assert(is_similar_device(target@, devices@[i as int]@));
            return Some(i);
        }
        i = i + 1;
    }
    if devices.len() == 1 {
        Some(0)
    } else {
        proof {
            assert forall|j: int|
                #![trigger devices@[j]]
                0 <= j < devices@.len() implies !is_same_device(target@, devices@[j]@)
                && !is_similar_device(target@, devices@[j]@) by {
                assert(!is_same_device(target@, devices@[j]@));
                assert(!is_similar_device(target@, devices@[j]@));
            }
        }
        None
    }
}

/// Names that differ only in case, spaces and punctuation name the same device.
pub proof fn a_device_of_the_same_name_is_found(target: Seq<char>, devices: Seq<String>, i: int)
    requires
        0 <= i < devices.len(),
        is_same_device(target, devices[i]@),
    ensures
        !is_uncorrelated(target, devices),
        forall|k: int|
            #![trigger devices[k]]
            is_correlated(target, devices, k) ==> is_same_device(target, devices[k]@),
{
}

/// Whether an error says that no HIP device could be found for a Vulkan device.
pub open spec fn is_selection_refusal(
    vulkan_name: Seq<char>,
    devices: Seq<String>,
    error: BackendError,
) -> bool {
    &&& error matches BackendError::Unavailable(reason)
    &&& if devices.len() == 0 {
        reason@ == "HIP runtime initialized but exposed no devices"@
    } else {
        reason@ == "could not correlate Vulkan device '"@ + vulkan_name + "' with HIP devices: "@
            + text::joined(devices, ", "@)
    }
}

/// The HIP device that a Vulkan device is, by its number and its name.
pub fn select_hip_device(vulkan_name: &str, devices: &[String]) -> (r: Result<
    (i32, String),
    BackendError,
>)
    requires
        devices@.len() <= i32::MAX,
    ensures
        match r {
            Ok(selected) => {
                &&& is_correlated(vulkan_name@, devices@, selected.0 as int)
                &&& selected.1@ == devices@[selected.0 as int]@
            },
            Err(error) => {
                &&& devices@.len() == 0 || is_uncorrelated(vulkan_name@, devices@)
                &&& is_selection_refusal(vulkan_name@, devices@, error)
            },
        },
{
    if devices.len() == 0 {
        return Err(
            BackendError::Unavailable("HIP runtime initialized but exposed no devices".to_owned()),
        );
    }
    match correlate_device(vulkan_name, devices) {
        Some(i) => Ok((i as i32, devices[i].clone())),
        None => {
            let mut reason = "could not correlate Vulkan device '".to_owned();
            reason.append(vulkan_name);
            reason.append("' with HIP devices: ");
            text::append_joined(&mut reason, devices, ", ");
            Err(BackendError::Unavailable(reason))
        },
    }
}

/// What is known of a Vulkan device before it is selected for sharing memory.
#[derive(Debug, Clone, Copy, PartialEq, Eq, Structural)]
pub struct ShareCandidate {
    pub vendor_id: u32,
    pub device_type: PhysicalDeviceType,
    pub device_id: u32,
    /// The first family of queues that does compute.
    pub compute_family: Option<u32>,
    pub has_external_memory_win32: bool,
}

impl ShareCandidate {
    /// Whether the device does compute and shares memory by Win32 handles.
    pub open spec fn is_suitable(self) -> bool {
        self.compute_family is Some && self.has_external_memory_win32
    }

    /// The order of preference: AMD first, then discrete devices, then by number.
    pub open spec fn is_better(self, other: ShareCandidate) -> bool {
        let amd = self.vendor_id == AMD_PCI_VENDOR_ID;
        let other_amd = other.vendor_id == AMD_PCI_VENDOR_ID;
        let discrete = self.device_type.raw == 2;
        let other_discrete = other.device_type.raw == 2;
        if amd != other_amd {
            amd
        } else if discrete != other_discrete {
            discrete
        } else {
            self.device_id < other.device_id
        }
    }

    fn beats(self, other: ShareCandidate) -> (r: bool)
        ensures
            r == self.is_better(other),
    {
        let amd: bool = self.vendor_id == AMD_PCI_VENDOR_ID;
        let other_amd: bool = other.vendor_id == AMD_PCI_VENDOR_ID;
        let discrete: bool = self.device_type.raw == 2;
        let other_discrete: bool = other.device_type.raw == 2;
        if amd != other_amd {
            amd
        } else if discrete != other_discrete {
            discrete
        } else {
            self.device_id < other.device_id
        }
    }
}

/// Whether candidate `i` is suitable, no suitable one is better, and no earlier one is as good.
pub open spec fn is_selected(candidates: Seq<ShareCandidate>, i: int) -> bool {
    &&& 0 <= i < candidates.len()
    &&& candidates[i].is_suitable()
    &&& forall|j: int|
        #![trigger candidates[j]]
        0 <= j < candidates.len() && candidates[j].is_suitable() ==> !candidates[j].is_better(
            candidates[i],
        )
    &&& forall|j: int|
        #![trigger candidates[j]]
        0 <= j < i && candidates[j].is_suitable() ==> candidates[i].is_better(candidates[j])
}

/// Whether no candidate is suitable.
pub open spec fn none_is_suitable(candidates: Seq<ShareCandidate>) -> bool {
    forall|j: int|
        #![trigger candidates[j]]
        0 <= j < candidates.len() ==> !candidates[j].is_suitable()
}

proof fn lemma_select_step(
    candidates: Seq<ShareCandidate>,
    one: ShareCandidate,
    best: Option<int>,
)
    requires
        match best {
            Some(b) => is_selected(candidates, b),
            None => none_is_suitable(candidates),
        },
    ensures
        !one.is_suitable() ==> match best {
            Some(b) => is_selected(candidates.push(one), b),
            None => none_is_suitable(candidates.push(one)),
        },
        one.is_suitable() && best is None ==> is_selected(
            candidates.push(one),
            candidates.len() as int,
        ),
        one.is_suitable() && best is Some && one.is_better(candidates[best->0]) ==> is_selected(
            candidates.push(one),
            candidates.len() as int,
        ),
        one.is_suitable() && best is Some && !one.is_better(candidates[best->0]) ==> is_selected(
            candidates.push(one),
            best->0,
        ),
{
    let now = candidates.push(one);
    let n = candidates.len() as int;
    assert forall|j: int| #![trigger now[j]] 0 <= j < n implies now[j] == candidates[j] by {}
    assert(now[n] == one);
    if best is Some {
        let b = best->0;
        assert(now[b] == candidates[b]);
        if one.is_suitable() && one.is_better(candidates[b]) {
            assert forall|j: int|
                #![trigger now[j]]
                0 <= j < now.len() && now[j].is_suitable() implies !now[j].is_better(now[n]) by {
                if j < n {
                    assert(!candidates[j].is_better(candidates[b]));
                }
            }
            assert forall|j: int|
                #![trigger now[j]]
                0 <= j < n && now[j].is_suitable() implies now[n].is_better(now[j]) by {
                assert(!candidates[j].is_better(candidates[b]));
            }
            assert(is_selected(now, n));
        } else {
            assert(is_selected(now, b));
        }
    } else if one.is_suitable() {
        assert(is_selected(now, n));
    }
}

/// The device to share memory with.
pub fn select_vulkan_device(candidates: &[ShareCandidate]) -> (r: Result<usize, BackendError>)
    ensures
        match r {
            Ok(i) => is_selected(candidates@, i as int),
            Err(error) => {
                &&& none_is_suitable(candidates@)
                &&& error matches BackendError::Unavailable(reason)
                &&& reason@
                    == "no compute-capable Vulkan device with VK_KHR_external_memory_win32 was found"@
            },
        },
{
    let mut best: Option<usize> = None;
    let mut i: usize = 0;
    while i < candidates.len()
        invariant
            i <= candidates@.len(),
            match best {
                Some(b) => b < i && is_selected(candidates@.take(i as int), b as int),
                None => none_is_suitable(candidates@.take(i as int)),
            },
        decreases candidates@.len() - i,
    {
        let one = candidates[i];
        proof {
            lemma_select_step(
                candidates@.take(i as int),
                one,
                match best {
                    Some(b) => Some(b as int),
                    None => None,
                },
            );
            assert(candidates@.take(i + 1) =~= candidates@.take(i as int).push(one));
        }
        if one.compute_family.is_some() && one.has_external_memory_win32 {
            match best {
                Some(b) => {
                    if one.beats(candidates[b]) {
                        best = Some(i);
                    }
                },
                None => {
                    best = Some(i);
                },
            }
        }
        i = i + 1;
    }
    assert(candidates@.take(i as int) =~= candidates@);
    match best {
        Some(b) => Ok(b),
        None => Err(
            BackendError::Unavailable(
                "no compute-capable Vulkan device with VK_KHR_external_memory_win32 was found".to_owned(),
            ),
        ),
    }
}

/// Whether a type of memory is among those that a resource can use and has what is required.
pub open spec fn is_usable_type(flags: Seq<u32>, bits: u32, required: u32, i: int) -> bool {
    &&& 0 <= i < flags.len()
    &&& bits & (1u32 << (i as u32)) != 0
    &&& flags[i] & required == required
}

/// The first type of memory that a resource can use and that has what is required.
pub fn find_memory_type(flags: &[u32], memory_type_bits: u32, required: u32) -> (r: Option<u32>)
    requires
        flags@.len() <= 32,
    ensures
        match r {
            Some(i) => {
                &&& is_usable_type(flags@, memory_type_bits, required, i as int)
                &&& forall|j: int|
                    0 <= j < i ==> !#[trigger] is_usable_type(
                        flags@,
                        memory_type_bits,
                        required,
                        j,
                    )
            },
            None => forall|j: int|
                !#[trigger] is_usable_type(flags@, memory_type_bits, required, j),
        },
{
    let mut i: usize = 0;
    while i < flags.len()
        invariant
            i <= flags@.len() <= 32,
            forall|j: int|
                0 <= j < i ==> !#[trigger] is_usable_type(flags@, memory_type_bits, required, j),
        decreases flags@.len() - i,
    {
        let index: u32 = i as u32;
        if memory_type_bits & (1u32 << index) != 0 && flags[i] & required == required {
            assert(is_usable_type(flags@, memory_type_bits, required, index as int));
            return Some(index);
        }
        i = i + 1;
    }
    None
}

/// Whether an error says that a HIP call failed.
pub open spec fn is_hip_failure(
    error: BackendError,
    code: i32,
    operation: Seq<char>,
    detail: Option<Seq<char>>,
) -> bool {
    &&& error matches BackendError::Internal(reason)
    &&& reason@ == operation + " failed with HIP error "@ + text::signed_decimal(code as int)
        + ": "@ + match detail {
        Some(words) => words,
        None => "unknown HIP error"@,
    }
}

/// What a status code of HIP comes to, with what the runtime says of it where it says anything.
pub fn check_hip(code: i32, operation: &str, detail: Option<&str>) -> (r: Result<
    (),
    BackendError,
>)
    ensures
        match r {
            Ok(_) => code == 0,
            Err(error) => code != 0 && is_hip_failure(
                error,
                code,
                operation@,
                match detail {
                    Some(words) => Some(words@),
                    None => None,
                },
            ),
        },
{
    if code == 0 {
        return Ok(());
    }
    let mut reason = operation.to_owned();
    reason.append(" failed with HIP error ");
    text::append_signed_decimal(&mut reason, code);
    reason.append(": ");
    match detail {
        Some(words) => {
            reason.append(words);
        },
        None => {
            reason.append("unknown HIP error");
        },
    }
    Err(BackendError::Internal(reason))
}

/// What is imported or mapped must have an address.
pub fn check_imported(address: usize) -> (r: Result<(), BackendError>)
    ensures
        match r {
            Ok(_) => address != 0,
            Err(error) => {
                &&& address == 0
                &&& error matches BackendError::Internal(reason)
                &&& reason@ == "hipImportExternalMemory succeeded but returned a null handle"@
            },
        },
{
    if address == 0 {
        return Err(
            BackendError::Internal(
                "hipImportExternalMemory succeeded but returned a null handle".to_owned(),
            ),
        );
    }
    Ok(())
}

/// Memory that is mapped must have an address.
pub fn check_mapped(address: usize) -> (r: Result<(), BackendError>)
    ensures
        match r {
            Ok(_) => address != 0,
            Err(error) => {
                &&& address == 0
                &&& error matches BackendError::Internal(reason)
                &&& reason@ == "HIP mapped external memory to a null device pointer"@
            },
        },
{
    if address == 0 {
        return Err(
            BackendError::Internal("HIP mapped external memory to a null device pointer".to_owned()),
        );
    }
    Ok(())
}

/// Whether byte `i` is the first that is not the pattern.
pub open spec fn is_first_mismatch(bytes: Seq<u8>, pattern: u8, i: int) -> bool {
    &&& 0 <= i < bytes.len()
    &&& bytes[i] != pattern
    &&& forall|j: int| #![trigger bytes[j]] 0 <= j < i ==> bytes[j] == pattern
}

/// The text of a mismatch.
pub open spec fn mismatch_text(bytes: Seq<u8>, pattern: u8, i: int) -> Seq<char> {
    "zero-copy verification failed at byte "@ + text::decimal(i as nat) + ": expected 0x"@
        + text::hexadecimal(pattern as nat, 2) + ", got 0x"@ + text::hexadecimal(
        bytes[i] as nat,
        2,
    )
}

/// How many bytes are verified to be the pattern: all or none.
pub fn verify_pattern(bytes: &[u8], pattern: u8) -> (r: Result<u64, BackendError>)
    ensures
        match r {
            Ok(verified) => {
                &&& verified == bytes@.len()
                &&& forall|i: int|
                    #![trigger bytes@[i]]
                    0 <= i < bytes@.len() ==> bytes@[i] == pattern
            },
            Err(error) => {
                &&& error matches BackendError::Internal(reason)
                &&& exists|i: int| #[trigger]
                    is_first_mismatch(bytes@, pattern, i) && reason@ == mismatch_text(
                        bytes@,
                        pattern,
                        i,
                    )
            },
        },
{
    let length: usize = bytes.len();
    let mut i: usize = 0;
    while i < length
        invariant
            i <= length,
            length == bytes@.len(),
            forall|j: int| #![trigger bytes@[j]] 0 <= j < i ==> bytes@[j] == pattern,
        decreases length - i,
    {
        if bytes[i] != pattern {
            let mut reason = "zero-copy verification failed at byte ".to_owned();
            text::append_decimal(&mut reason, i as u64);
            reason.append(": expected 0x");
            text::append_hexadecimal(&mut reason, pattern as u64, 2);
            reason.append(", got 0x");
            text::append_hexadecimal(&mut reason, bytes[i] as u64, 2);
            assert(is_first_mismatch(bytes@, pattern, i as int));
            assert(reason@ == mismatch_text(bytes@, pattern, i as int));
            return Err(BackendError::Internal(reason));
        }
        i = i + 1;
    }
    Ok(length as u64)
}

/// What sharing memory for a smoke test brought back: the devices and what was read.
#[derive(Debug, Clone, PartialEq, Eq)]
pub struct SharedReadback {
    pub vulkan_device: String,
    pub hip_device: String,
    pub bytes: Vec<u8>,
}

/// Whether `result` is what a smoke test comes to where sharing brought `shared` back.
pub open spec fn is_reported(
    shared: SharedReadback,
    bytes: u64,
    pattern: u8,
    result: Result<ZeroCopySmokeReport, BackendError>,
) -> bool {
    match result {
        Ok(report) => {
            &&& report.vulkan_device == shared.vulkan_device
            &&& report.hip_device == shared.hip_device
            &&& report.bytes == bytes
            &&& report.pattern == pattern
            &&& report.verified_bytes == bytes
            &&& report.external_memory_handle
                == "VK_OPAQUE_WIN32_KMT / hipExternalMemoryHandleTypeOpaqueWin32Kmt"
            &&& report.synchronization
                == "Vulkan EXTERNAL queue-family ownership + host queue/HIP synchronization"
            &&& forall|i: int|
                #![trigger shared.bytes@[i]]
                0 <= i < shared.bytes@.len() ==> shared.bytes@[i] == pattern
        },
        Err(error) => {
            &&& error matches BackendError::Internal(reason)
            &&& exists|i: int| #[trigger]
                is_first_mismatch(shared.bytes@, pattern, i) && reason@ == mismatch_text(
                    shared.bytes@,
                    pattern,
                    i,
                )
        },
    }
}

/// The report of a smoke test of `bytes` bytes: only where what came back is the pattern
/// throughout.
pub fn smoke_report(shared: SharedReadback, bytes: u64, pattern: u8) -> (r: Result<
    ZeroCopySmokeReport,
    BackendError,
>)
    requires
        shared.bytes@.len() == bytes,
    ensures
        is_reported(shared, bytes, pattern, r),
{
    match verify_pattern(shared.bytes.as_slice(), pattern) {
        Ok(verified_bytes) => Ok(
            ZeroCopySmokeReport {
                vulkan_device: shared.vulkan_device,
                hip_device: shared.hip_device,
                bytes,
                pattern,
                verified_bytes,
                external_memory_handle: "VK_OPAQUE_WIN32_KMT / hipExternalMemoryHandleTypeOpaqueWin32Kmt",
                synchronization: "Vulkan EXTERNAL queue-family ownership + host queue/HIP synchronization",
            },
        ),
        Err(error) => Err(error),
    }
}

/// The smoke test: on Windows, where memory is shared by Win32 handles, `share` has HIP fill that
/// many bytes of Vulkan memory and reads them back, and every byte has to be the pattern.
/// Elsewhere the test is refused, and nothing is shared.
pub fn run_zero_copy_smoke<F: FnOnce(usize) -> Result<SharedReadback, BackendError>>(
    platform: Platform,
    configured: Option<&str>,
    bytes: u64,
    pattern: u8,
    share: F,
) -> (r: Result<ZeroCopySmokeReport, BackendError>)
    requires
        platform == Platform::Windows ==> share.requires((bytes as usize,)),
        forall|shared: SharedReadback|
            #![trigger share.ensures((bytes as usize,), Ok(shared))]
            share.ensures((bytes as usize,), Ok(shared)) ==> shared.bytes@.len() == bytes,
    ensures
        ({
            let maximum = smoke_limit_of(
                match configured {
                    Some(value) => Some(value@),
                    None => None,
                },
            );
            if platform != Platform::Windows {
                r matches Err(BackendError::Unsupported(reason)) && reason@
                    == "the v0.1 zero-copy smoke test currently implements the Windows Win32/KMT path only"@
            } else if !(0 < bytes <= maximum && bytes <= usize::MAX) {
                r matches Err(error) && is_size_refusal(bytes, maximum, error)
            } else {
                exists|outcome: Result<SharedReadback, BackendError>|
                    {
                        &&& #[trigger] share.ensures((bytes as usize,), outcome)
                        &&& match outcome {
                            Ok(shared) => is_reported(shared, bytes, pattern, r),
                            Err(error) => r == Err::<ZeroCopySmokeReport, _>(error),
                        }
                    }
            }
        }),
{
    match platform {
        Platform::Windows => {},
        _ => {
            return Err(
                BackendError::Unsupported(
                    "the v0.1 zero-copy smoke test currently implements the Windows Win32/KMT path only".to_owned(),
                ),
            );
        },
    }
    let size: usize = match check_smoke_size(bytes, smoke_limit(configured)) {
        Ok(size) => size,
        Err(error) => {
            return Err(error);
        },
    };
    let outcome = share(size);
    assert(share.ensures((bytes as usize,), outcome));
    match outcome {
        Ok(shared) => smoke_report(shared, bytes, pattern),
        Err(error) => Err(error),
    }
}

/// The number of devices that HIP counts, where it can be one.
pub fn check_device_count(count: i32) -> (r: Result<usize, BackendError>)
    ensures
        match r {
            Ok(devices) => count >= 0 && devices == count,
            Err(error) => {
                &&& count < 0
                &&& error matches BackendError::Probe(reason)
                &&& reason@ == "HIP returned a negative device count"@
            },
        },
{
    if count < 0 {
        return Err(BackendError::Probe("HIP returned a negative device count".to_owned()));
    }
    Ok(count as usize)
}

/// The error of a machine on which no candidate could be loaded, with what went wrong with each.
pub fn not_loadable(failures: &[String]) -> (r: BackendError)
    ensures
        r matches BackendError::Unavailable(reason) && reason@
            == "HIP runtime library was not loadable for zero-copy smoke test ("@ + text::joined(
            failures@,
            "; "@,
        ) + ")"@,
{
    let mut reason = "HIP runtime library was not loadable for zero-copy smoke test (".to_owned();
    text::append_joined(&mut reason, failures, "; ");
    reason.append(")");
    BackendError::Unavailable(reason)
}

/// The error of a runtime library that lacks an entry point.
pub fn missing_symbol(symbol: &str, error: &str) -> (r: BackendError)
    ensures
        r matches BackendError::Unavailable(reason) && reason@ == "required HIP symbol '"@ + symbol@
            + "' is missing: "@ + error@,
{
    let mut reason = "required HIP symbol '".to_owned();
    reason.append(symbol);
    reason.append("' is missing: ");
    reason.append(error);
    BackendError::Unavailable(reason)
}

/// Normalizing keeps the letters and digits of a name, in their order, capitals made small: what
/// two names come to side by side is what each comes to.
pub proof fn normalizing_goes_letter_by_letter(one: Seq<char>, other: Seq<char>)
    ensures
        normalized(Seq::<char>::empty()) == Seq::<char>::empty(),
        normalized(one + other) == normalized(one) + normalized(other),
        other.len() == 1 && ('0' <= other[0] <= '9' || 'a' <= other[0] <= 'z') ==> normalized(
            other,
        ) == other,
        other.len() == 1 && 'A' <= other[0] <= 'Z' ==> normalized(other).len() == 1 && normalized(
            other,
        )[0] as int == other[0] as int + 32,
        other.len() == 1 && !('0' <= other[0] <= '9' || 'a' <= other[0] <= 'z' || 'A' <= other[0]
            <= 'Z') ==> normalized(other) == Seq::<char>::empty(),
    decreases other.len(),
{
    if other.len() == 0 {
        assert(one + other =~= one);
        assert(normalized(one) + normalized(other) =~= normalized(one));
    } else {
        normalizing_goes_letter_by_letter(one, other.drop_last());
        assert((one + other).drop_last() =~= one + other.drop_last());
        assert((one + other).last() == other.last());
        if is_alphanumeric(other.last()) {
            let c = lower(other.last());
            assert((normalized(one) + normalized(other.drop_last())).push(c) =~= normalized(one)
                + normalized(other.drop_last()).push(c));
        }
        if other.len() == 1 {
            assert(other.drop_last() =~= Seq::<char>::empty());
            assert(normalized(other.drop_last()) =~= Seq::<char>::empty());
            if is_alphanumeric(other.last()) {
                assert(normalized(other) =~= seq![lower(other[0])]);
                if !('A' <= other[0] <= 'Z') {
                    assert(normalized(other) =~= other);
                }
            }
        }
    }
}

/// The HIP device for a Vulkan device: one whose normalized name is the same comes before one whose
/// name is only part of it, or has it as a part, and of several the first is taken. Only where
/// there is just one device is a name of no likeness accepted.
pub proof fn what_decides_between_names(
    target: Seq<char>,
    devices: Seq<String>,
    i: int,
    j: int,
    k: int,
)
    requires
        is_correlated(target, devices, i),
        0 <= j < devices.len(),
    ensures
        ({
            let wanted = normalized(target);
            let mine = normalized(devices[i]@);
            let other = normalized(devices[j]@);
            &&& other == wanted ==> mine == wanted && i <= j
            &&& 0 <= k && k + wanted.len() <= other.len() && other.subrange(k, k + wanted.len())
                == wanted && mine != wanted ==> i <= j
            &&& 0 <= k && k + other.len() <= wanted.len() && wanted.subrange(k, k + other.len())
                == other && mine != wanted ==> i <= j
            &&& devices.len() > 1 ==> exists|p: int|
                #![trigger stands_at(mine, wanted, p)]
                #![trigger stands_at(wanted, mine, p)]
                0 <= p && (p + wanted.len() <= mine.len() && mine.subrange(p, p + wanted.len())
                    == wanted || p + mine.len() <= wanted.len() && wanted.subrange(
                    p,
                    p + mine.len(),
                ) == mine)
        }),
{
    let wanted = normalized(target);
    let mine = normalized(devices[i]@);
    let other = normalized(devices[j]@);
    if other == wanted {
        assert(is_same_device(target, devices[j]@));
    }
    if stands_at(other, wanted, k) || stands_at(wanted, other, k) {
        assert(is_similar_device(target, devices[j]@));
    }
    if mine == wanted {
        assert(mine.subrange(0, wanted.len() as int) =~= wanted);
        assert(stands_at(mine, wanted, 0));
    } else {
        assert(!is_same_device(target, devices[i]@));
    }
    if devices.len() > 1 && mine != wanted {
        assert(is_similar_device(target, devices[i]@));
        if has_part(mine, wanted) {
            let p = choose|p: int| #[trigger] stands_at(mine, wanted, p);
            assert(stands_at(mine, wanted, p));
        } else {
            let p = choose|p: int| #[trigger] stands_at(wanted, mine, p);
            assert(stands_at(wanted, mine, p));
        }
    }
}

/// What decides between devices that compute and share memory, in this order: the vendor AMD, being
/// discrete, the lower device number, and the earlier place.
pub proof fn what_decides_between_candidates(candidates: Seq<ShareCandidate>, i: int, j: int)
    requires
        is_selected(candidates, i),
        0 <= j < candidates.len(),
        candidates[j].compute_family is Some,
        candidates[j].has_external_memory_win32,
    ensures
        0 <= i < candidates.len(),
        candidates[i].compute_family is Some,
        candidates[i].has_external_memory_win32,
        ({
            let a = candidates[i];
            let b = candidates[j];
            let same_vendor = (a.vendor_id == 0x1002) == (b.vendor_id == 0x1002);
            let same_type = (a.device_type.raw == 2) == (b.device_type.raw == 2);
            &&& b.vendor_id == 0x1002 ==> a.vendor_id == 0x1002
            &&& same_vendor && b.device_type.raw == 2 ==> a.device_type.raw == 2
            &&& same_vendor && same_type ==> a.device_id <= b.device_id
            &&& same_vendor && same_type && a.device_id == b.device_id ==> i <= j
        }),
{
    assert(candidates[j].is_suitable());
}

/// A type of memory is usable where its bit is set among those that the resource can use and it has
/// every property that is required.
pub proof fn a_usable_type_bit_by_bit(flags: Seq<u32>, bits: u32, required: u32, i: int)
    requires
        0 <= i < flags.len() <= 32,
    ensures
        is_usable_type(flags, bits, required, i) <==> {
            &&& (bits >> (i as u32)) % 2 == 1
            &&& required & !flags[i] == 0
        },
{
    let k = i as u32;
    let offered = flags[i];
    assert(k < 32 ==> (bits & (1u32 << k) != 0) == ((bits >> k) % 2 == 1)) by (bit_vector);
    assert((offered & required == required) == (required & !offered == 0)) by (bit_vector);
}

/// A report says what was asked for and names both devices, and there is one only where every byte
/// that came back is the pattern.
pub proof fn a_report_by_its_fields(
    shared: SharedReadback,
    bytes: u64,
    pattern: u8,
    result: Result<ZeroCopySmokeReport, BackendError>,
    i: int,
)
    requires
        is_reported(shared, bytes, pattern, result),
        0 <= i < shared.bytes@.len(),
    ensures
        shared.bytes@[i] != pattern ==> result is Err,
        result is Ok ==> {
            let report = result->Ok_0;
            &&& report.vulkan_device@ == shared.vulkan_device@
            &&& report.hip_device@ == shared.hip_device@
            &&& report.bytes == bytes
            &&& report.pattern == pattern
            &&& report.verified_bytes == bytes
        },
        (forall|j: int|
            #![trigger shared.bytes@[j]]
            0 <= j < shared.bytes@.len() ==> shared.bytes@[j] == pattern) ==> result is Ok,
{
}

/// A limit is what is configured, in decimal, up to the largest number there is. Where nothing is
/// configured, or no number, it is 256 MiB.
pub proof fn a_configured_limit_is_taken(limit: u64, configured: Seq<char>)
    ensures
        smoke_limit_of(Some(text::decimal(limit as nat))) == limit,
        smoke_limit_of(None) == 256 * 1024 * 1024,
        text::number_value(configured, 10, 0xffff_ffff_ffff_ffff) is Err ==> smoke_limit_of(
            Some(configured),
        ) == 256 * 1024 * 1024,
{
    text::a_decimal_is_read_as_written(limit as nat, u64::MAX as nat);
}

} // verus!
