//! Vulkan as a backend: what its answers to a probe come to, and which device is preferred.

use crate::abi;
use crate::backend::{
    BackendId, BackendKind, BackendProbe, CapabilitySet, DataType, OperationKind,
};
use crate::platform::Platform;
use crate::text;
use vstd::prelude::*;
use vstd::string::*;

verus! {

pub const AMD_PCI_VENDOR_ID: u32 = 0x1002;

/// The bit of a queue family that does compute.
pub const QUEUE_COMPUTE: u32 = 2;

/// A device's type, by its number.
#[derive(Debug, Clone, Copy, PartialEq, Eq, Structural)]
pub struct PhysicalDeviceType {
    pub raw: i32,
}

impl PhysicalDeviceType {
    /// The name of the type, or its number where it has none.
    pub open spec fn text(self) -> Seq<char> {
        if self.raw == 0 {
            "OTHER"@
        } else if self.raw == 1 {
            "INTEGRATED_GPU"@
        } else if self.raw == 2 {
            "DISCRETE_GPU"@
        } else if self.raw == 3 {
            "VIRTUAL_GPU"@
        } else if self.raw == 4 {
            "CPU"@
        } else {
            text::signed_decimal(self.raw as int)
        }
    }

    /// Appends the text of the type.
    pub fn append_to(self, out: &mut String)
        ensures
            final(out)@ == old(out)@ + self.text(),
    {
        if self.raw == 0 {
            out.append("OTHER");
        } else if self.raw == 1 {
            out.append("INTEGRATED_GPU");
        } else if self.raw == 2 {
            out.append("DISCRETE_GPU");
        } else if self.raw == 3 {
            out.append("VIRTUAL_GPU");
        } else if self.raw == 4 {
            out.append("CPU");
        } else {
            text::append_signed_decimal(out, self.raw);
        }
    }

    pub fn other() -> (r: Self)
        ensures
            r.raw == 0,
    {
        PhysicalDeviceType { raw: 0 }
    }

    pub fn integrated_gpu() -> (r: Self)
        ensures
            r.raw == 1,
    {
        PhysicalDeviceType { raw: 1 }
    }

    pub fn discrete_gpu() -> (r: Self)
        ensures
            r.raw == 2,
    {
        PhysicalDeviceType { raw: 2 }
    }
}

/// What is known of a Vulkan device.
#[derive(Debug, Clone, PartialEq, Eq)]
pub struct VulkanDeviceInfo {
    pub name: String,
    pub vendor_id: u32,
    pub device_id: u32,
    pub api_version: u32,
    pub device_type: PhysicalDeviceType,
    pub compute_queue: bool,
    pub external_memory: bool,
    pub external_semaphore: bool,
}

/// Zero where something holds: what holds is preferred.
pub open spec fn unless(holds: bool) -> u8 {
    if holds {
        0
    } else {
        1
    }
}

/// Whether one score is better than another: by what comes first in them.
pub open spec fn is_better(a: (u8, u8, u8, u32), b: (u8, u8, u8, u32)) -> bool {
    ||| a.0 < b.0
    ||| a.0 == b.0 && a.1 < b.1
    ||| a.0 == b.0 && a.1 == b.1 && a.2 < b.2
    ||| a.0 == b.0 && a.1 == b.1 && a.2 == b.2 && a.3 < b.3
}

fn beats(a: (u8, u8, u8, u32), b: (u8, u8, u8, u32)) -> (r: bool)
    ensures
        r == is_better(a, b),
{
    a.0 < b.0 || (a.0 == b.0 && (a.1 < b.1 || (a.1 == b.1 && (a.2 < b.2 || (a.2 == b.2 && a.3
        < b.3)))))
}

impl VulkanDeviceInfo {
    pub fn is_discrete(&self) -> (r: bool)
        ensures
            r == (self.device_type.raw == 2),
    {
        self.device_type.raw == 2
    }

    /// How well a device suits the bridge: AMD first, then discrete devices, then those with both
    /// shared memory and shared semaphores, then by number.
    pub open spec fn score(&self) -> (u8, u8, u8, u32) {
        (
            unless(self.vendor_id == AMD_PCI_VENDOR_ID),
            unless(self.device_type.raw == 2),
            unless(self.external_memory && self.external_semaphore),
            self.device_id,
        )
    }

    pub fn bridge_score(&self) -> (r: (u8, u8, u8, u32))
        ensures
            r == self.score(),
    {
        (
            if self.vendor_id == AMD_PCI_VENDOR_ID {
                0
            } else {
                1
            },
            if self.is_discrete() {
                0
            } else {
                1
            },
            if self.external_memory && self.external_semaphore {
                0
            } else {
                1
            },
            self.device_id,
        )
    }
}

/// What is known of Vulkan on a machine.
#[derive(Debug, Clone, PartialEq, Eq)]
pub struct VulkanRuntimeInfo {
    pub loader_available: bool,
    pub devices: Vec<VulkanDeviceInfo>,
}

/// Whether device `i` does compute, and none that does is better, nor as good and earlier.
pub open spec fn is_preferred(devices: Seq<VulkanDeviceInfo>, i: int) -> bool {
    &&& 0 <= i < devices.len()
    &&& devices[i].compute_queue
    &&& forall|j: int|
        #![trigger devices[j]]
        0 <= j < devices.len() && devices[j].compute_queue ==> !is_better(
            devices[j].score(),
            devices[i].score(),
        )
    &&& forall|j: int|
        #![trigger devices[j]]
        0 <= j < i && devices[j].compute_queue ==> devices[j].score() != devices[i].score()
}

/// Whether no device does compute.
pub open spec fn none_computes(devices: Seq<VulkanDeviceInfo>) -> bool {
    forall|i: int| #![trigger devices[i]] 0 <= i < devices.len() ==> !devices[i].compute_queue
}

/// At most one device is preferred.
pub proof fn the_preferred_device_is_unique(devices: Seq<VulkanDeviceInfo>, i: int, j: int)
    requires
        is_preferred(devices, i),
        is_preferred(devices, j),
    ensures
        i == j,
{
    assert(!is_better(devices[i].score(), devices[j].score()));
    assert(!is_better(devices[j].score(), devices[i].score()));
}

/// A discrete device of AMD is preferred to an integrated one, whatever else they can do.
pub proof fn discrete_amd_devices_come_first(devices: Seq<VulkanDeviceInfo>, i: int, j: int)
    requires
        is_preferred(devices, i),
        0 <= j < devices.len(),
        devices[j].compute_queue,
        devices[j].vendor_id == AMD_PCI_VENDOR_ID,
        devices[j].device_type.raw == 2,
    ensures
        devices[i].vendor_id == AMD_PCI_VENDOR_ID,
        devices[i].device_type.raw == 2,
{
    assert(!is_better(devices[j].score(), devices[i].score()));
}

impl VulkanRuntimeInfo {
    /// The place of the preferred device.
    pub fn preferred_index(&self) -> (r: Option<usize>)
        ensures
            match r {
                Some(i) => is_preferred(self.devices@, i as int),
                None => none_computes(self.devices@),
            },
    {
        let ghost devices = self.devices@;
        let mut best: Option<usize> = None;
        let mut i: usize = 0;
        while i < self.devices.len()
            invariant
                i <= devices.len(),
                devices == self.devices@,
                match best {
                    Some(b) => {
                        &&& b < i
                        &&& is_preferred(devices.take(i as int), b as int)
                    },
                    None => none_computes(devices.take(i as int)),
                },
            decreases devices.len() - i,
        {
            let ghost seen = devices.take(i as int);
            let ghost now = devices.take(i + 1);
            assert(now =~= seen.push(devices[i as int]));
            if self.devices[i].compute_queue {
                match best {
                    Some(b) => {
                        if beats(self.devices[i].bridge_score(), self.devices[b].bridge_score()) {
                            best = Some(i);
                            proof {
                                assert forall|j: int|
                                    #![trigger now[j]]
                                    0 <= j < now.len() && now[j].compute_queue implies !is_better(
                                    now[j].score(),
                                    now[i as int].score(),
                                ) by {
                                    if j < i {
                                        assert(seen[j] == now[j]);
                                    }
                                }
                                assert forall|j: int|
                                    #![trigger now[j]]
                                    0 <= j < i && now[j].compute_queue implies now[j].score()
                                    != now[i as int].score() by {
                                    assert(seen[j] == now[j]);
                                }
                                assert(is_preferred(now, i as int));
                            }
                        } else {
                            proof {
                                assert(seen[b as int] == now[b as int]);
                                assert forall|j: int|
                                    #![trigger now[j]]
                                    0 <= j < now.len() && now[j].compute_queue implies !is_better(
                                    now[j].score(),
                                    now[b as int].score(),
                                ) by {
                                    if j < i {
                                        assert(seen[j] == now[j]);
                                    }
                                }
                                assert forall|j: int|
                                    #![trigger now[j]]
                                    0 <= j < b && now[j].compute_queue implies now[j].score()
                                    != now[b as int].score() by {
                                    assert(seen[j] == now[j]);
                                }
                                assert(is_preferred(now, b as int));
                            }
                        }
                    },
                    None => {
                        best = Some(i);
                        proof {
                            assert forall|j: int|
                                #![trigger now[j]]
                                0 <= j < i implies !now[j].compute_queue by {
                                assert(seen[j] == now[j]);
                            }
                            assert(is_preferred(now, i as int));
                        }
                    },
                }
            } else {
                proof {
                    if best is Some {
                        let b = best->0 as int;
                        assert(seen[b] == now[b]);
                        assert forall|j: int|
                            #![trigger now[j]]
                            0 <= j < now.len() && now[j].compute_queue implies !is_better(
                            now[j].score(),
                            now[b].score(),
                        ) by {
                            assert(j < i);
                            assert(seen[j] == now[j]);
                        }
                        assert forall|j: int|
                            #![trigger now[j]]
                            0 <= j < b && now[j].compute_queue implies now[j].score()
                            != now[b].score() by {
                            assert(seen[j] == now[j]);
                        }
                        assert(is_preferred(now, b));
                    } else {
                        assert forall|j: int|
                            #![trigger now[j]]
                            0 <= j < now.len() implies !now[j].compute_queue by {
                            if j < i {
                                assert(seen[j] == now[j]);
                            }
                        }
                    }
                }
            }
            i = i + 1;
        }
        assert(devices.take(i as int) =~= devices);
        best
    }

    pub fn preferred_compute_device(&self) -> (r: Option<&VulkanDeviceInfo>)
        ensures
            match r {
                Some(device) => exists|i: int| #[trigger]
                    is_preferred(self.devices@, i) && *device == self.devices@[i],
                None => none_computes(self.devices@),
            },
    {
        match self.preferred_index() {
            Some(i) => {
                assert(is_preferred(self.devices@, i as int));
                Some(&self.devices[i])
            },
            None => None,
        }
    }
}

/// Whether an extension is among others.
pub open spec fn lists(extensions: Seq<String>, name: Seq<char>) -> bool {
    exists|i: int| #![trigger extensions[i]] 0 <= i < extensions.len() && extensions[i]@ == name
}

fn has_extension(extensions: &[String], name: &str) -> (r: bool)
    ensures
        r == lists(extensions@, name@),
{
    let mut i: usize = 0;
    while i < extensions.len()
        invariant
            i <= extensions@.len(),
            forall|j: int| #![trigger extensions@[j]] 0 <= j < i ==> extensions@[j]@ != name@,
        decreases extensions@.len() - i,
    {
        if text::is_same_text(extensions[i].as_str(), name) {
            assert(extensions@[i as int]@ == name@);
            return true;
        }
        i = i + 1;
    }
    false
}

/// Whether a device shares memory and whether it shares semaphores, the way the platform does it.
pub open spec fn shared_support(platform: Platform, extensions: Seq<String>) -> (bool, bool) {
    match platform {
        Platform::Windows => (
            lists(extensions, "VK_KHR_external_memory_win32"@),
            lists(extensions, "VK_KHR_external_semaphore_win32"@),
        ),
        Platform::Linux => (
            lists(extensions, "VK_KHR_external_memory_fd"@),
            lists(extensions, "VK_KHR_external_semaphore_fd"@),
        ),
        Platform::Other => (false, false),
    }
}

pub fn external_resource_support(platform: Platform, extensions: &[String]) -> (r: (bool, bool))
    ensures
        r == shared_support(platform, extensions@),
{
    match platform {
        Platform::Windows => (
            has_extension(extensions, "VK_KHR_external_memory_win32"),
            has_extension(extensions, "VK_KHR_external_semaphore_win32"),
        ),
        Platform::Linux => (
            has_extension(extensions, "VK_KHR_external_memory_fd"),
            has_extension(extensions, "VK_KHR_external_semaphore_fd"),
        ),
        Platform::Other => (false, false),
    }
}

/// A family of queues of a device.
#[derive(Debug, Clone, Copy, PartialEq, Eq, Structural)]
pub struct QueueFamily {
    pub queue_count: u32,
    pub queue_flags: u32,
}

impl QueueFamily {
    /// Whether the family has a queue that does compute.
    pub open spec fn computes(self) -> bool {
        self.queue_count > 0 && self.queue_flags & QUEUE_COMPUTE == QUEUE_COMPUTE
    }
}

/// The first family that does compute.
pub fn compute_family(families: &[QueueFamily]) -> (r: Option<usize>)
    ensures
        match r {
            Some(i) => {
                &&& i < families@.len()
                &&& families@[i as int].computes()
                &&& forall|j: int|
                    #![trigger families@[j]]
                    0 <= j < i ==> !families@[j].computes()
            },
            None => forall|j: int|
                #![trigger families@[j]]
                0 <= j < families@.len() ==> !families@[j].computes(),
        },
{
    let mut i: usize = 0;
    while i < families.len()
        invariant
            i <= families@.len(),
            forall|j: int| #![trigger families@[j]] 0 <= j < i ==> !families@[j].computes(),
        decreases families@.len() - i,
    {
        let family = families[i];
        if family.queue_count > 0 && family.queue_flags & QUEUE_COMPUTE == QUEUE_COMPUTE {
            return Some(i);
        }
        i = i + 1;
    }
    None
}

/// Whether one of the families does compute.
pub open spec fn some_computes(families: Seq<QueueFamily>) -> bool {
    exists|i: int| #![trigger families[i]] 0 <= i < families.len() && families[i].computes()
}

/// What Vulkan answers about a device. Names are ended by zero bytes.
#[derive(Debug, PartialEq, Eq)]
pub struct VulkanDeviceAnswers {
    pub name: Vec<u8>,
    pub vendor_id: u32,
    pub device_id: u32,
    pub api_version: u32,
    pub device_type: PhysicalDeviceType,
    pub families: Vec<QueueFamily>,
    pub extensions: Vec<Vec<u8>>,
}

impl VulkanDeviceInfo {
    /// Whether this is what the answers say, under these names.
    pub open spec fn is_answered(
        &self,
        platform: Platform,
        answers: VulkanDeviceAnswers,
        name: Seq<char>,
        extensions: Seq<String>,
    ) -> bool {
        &&& self.name@ == name
        &&& self.vendor_id == answers.vendor_id
        &&& self.device_id == answers.device_id
        &&& self.api_version == answers.api_version
        &&& self.device_type == answers.device_type
        &&& self.compute_queue == some_computes(answers.families@)
        &&& (self.external_memory, self.external_semaphore) == shared_support(platform, extensions)
    }

    /// What is known of a device, under its name and those of its extensions.
    pub fn from_named_answers(
        platform: Platform,
        answers: &VulkanDeviceAnswers,
        name: String,
        extensions: &[String],
    ) -> (r: Self)
        ensures
            r.is_answered(platform, *answers, name@, extensions@),
    {
        let (external_memory, external_semaphore) = external_resource_support(platform, extensions);
        VulkanDeviceInfo {
            name,
            vendor_id: answers.vendor_id,
            device_id: answers.device_id,
            api_version: answers.api_version,
            device_type: answers.device_type,
            compute_queue: compute_family(answers.families.as_slice()).is_some(),
            external_memory,
            external_semaphore,
        }
    }

    /// What is known of a device.
    pub fn from_answers(platform: Platform, answers: &VulkanDeviceAnswers) -> (r: Self)
        ensures
            exists|extensions: Seq<String>|
                {
                    &&& #[trigger] are_decoded(answers.extensions@, extensions)
                    &&& r.is_answered(
                        platform,
                        *answers,
                        abi::lossy_text(abi::up_to_zero(answers.name@)),
                        extensions,
                    )
                },
    {
        let mut extensions: Vec<String> = Vec::new();
        let mut i: usize = 0;
        while i < answers.extensions.len()
            invariant
                i <= answers.extensions@.len(),
                extensions@.len() == i,
                forall|j: int|
                    #![trigger extensions@[j]]
                    0 <= j < i ==> extensions@[j]@ == abi::lossy_text(
                        abi::up_to_zero(answers.extensions@[j]@),
                    ),
            decreases answers.extensions@.len() - i,
        {
            extensions.push(abi::decode_name(answers.extensions[i].as_slice()));
            i = i + 1;
        }
        assert(are_decoded(answers.extensions@, extensions@));
        let name = abi::decode_name(answers.name.as_slice());
        VulkanDeviceInfo::from_named_answers(platform, answers, name, extensions.as_slice())
    }
}

/// Whether texts are what bytes decode to, one by one.
pub open spec fn are_decoded(names: Seq<Vec<u8>>, texts: Seq<String>) -> bool {
    &&& texts.len() == names.len()
    &&& forall|i: int|
        #![trigger texts[i]]
        0 <= i < texts.len() ==> texts[i]@ == abi::lossy_text(abi::up_to_zero(names[i]@))
}

#[derive(Debug)]
pub struct VulkanBackend {
    id: BackendId,
}

/// A device in a list of devices, in words.
pub open spec fn device_text(device: VulkanDeviceInfo) -> Seq<char> {
    device.name@ + "[vendor=0x"@ + text::hexadecimal(device.vendor_id as nat, 4) + ",device=0x"@
        + text::hexadecimal(device.device_id as nat, 4) + ",type="@ + device.device_type.text()
        + "]"@
}

/// The devices that do compute, in words.
pub open spec fn inventory_text(devices: Seq<VulkanDeviceInfo>) -> Seq<char>
    decreases devices.len(),
{
    if devices.len() == 0 {
        Seq::empty()
    } else {
        let before = inventory_text(devices.drop_last());
        if !devices.last().compute_queue {
            before
        } else if compute_count(devices.drop_last()) == 0 {
            device_text(devices.last())
        } else {
            before + "; "@ + device_text(devices.last())
        }
    }
}

/// How many devices do compute.
pub open spec fn compute_count(devices: Seq<VulkanDeviceInfo>) -> nat
    decreases devices.len(),
{
    if devices.len() == 0 {
        0
    } else {
        compute_count(devices.drop_last()) + if devices.last().compute_queue {
            1nat
        } else {
            0
        }
    }
}

fn append_device(out: &mut String, device: &VulkanDeviceInfo)
    ensures
        final(out)@ == old(out)@ + device_text(*device),
{
    out.append(device.name.as_str());
    out.append("[vendor=0x");
    text::append_hexadecimal(out, device.vendor_id as u64, 4);
    out.append(",device=0x");
    text::append_hexadecimal(out, device.device_id as u64, 4);
    out.append(",type=");
    device.device_type.append_to(out);
    out.append("]");
    assert(out@ =~= old(out)@ + device_text(*device));
}

/// The devices that do compute: how many, and in words.
fn inventory(devices: &Vec<VulkanDeviceInfo>) -> (r: (usize, String))
    ensures
        r.0 == compute_count(devices@),
        r.1@ == inventory_text(devices@),
{
    let mut count: usize = 0;
    let mut out = String::new();
    let mut i: usize = 0;
    assert(devices@.take(0) =~= Seq::empty());
    assert(out@ =~= inventory_text(devices@.take(0)));
    while i < devices.len()
        invariant
            i <= devices@.len(),
            count <= i,
            count == compute_count(devices@.take(i as int)),
            out@ == inventory_text(devices@.take(i as int)),
        decreases devices@.len() - i,
    {
        let ghost now = devices@.take(i + 1);
        assert(now.drop_last() =~= devices@.take(i as int));
        if devices[i].compute_queue {
            if count > 0 {
                out.append("; ");
                append_device(&mut out, &devices[i]);
            } else {
                let mut first = String::new();
                append_device(&mut first, &devices[i]);
                assert(first@ =~= device_text(devices@[i as int]));
                out = first;
            }
            count = count + 1;
        }
        i = i + 1;
    }
    assert(devices@.take(i as int) =~= devices@);
    (count, out)
}

/// Where no device does compute there is none to count, and where one is preferred there is.
pub proof fn none_computes_means_none_counted(devices: Seq<VulkanDeviceInfo>)
    ensures
        none_computes(devices) <==> compute_count(devices) == 0,
    decreases devices.len(),
{
    if devices.len() > 0 {
        none_computes_means_none_counted(devices.drop_last());
        if none_computes(devices) {
            assert(none_computes(devices.drop_last())) by {
                assert forall|i: int|
                    #![trigger devices.drop_last()[i]]
                    0 <= i < devices.drop_last().len() implies !devices.drop_last()[i].compute_queue
                    by {
                    assert(devices.drop_last()[i] == devices[i]);
                }
            }
            assert(!devices[devices.len() - 1].compute_queue);
        } else if compute_count(devices) == 0 {
            assert forall|i: int|
                #![trigger devices[i]]
                0 <= i < devices.len() implies !devices[i].compute_queue by {
                if i < devices.len() - 1 {
                    assert(devices.drop_last()[i] == devices[i]);
                }
            }
        }
    }
}

impl VulkanBackend {
    pub closed spec fn named(&self) -> BackendId {
        self.id
    }

    pub fn new() -> (r: Self)
        ensures
            r.named()@ == "vulkan"@,
    {
        proof {
            reveal_strlit("vulkan");
        }
        VulkanBackend { id: BackendId::of_identifier("vulkan") }
    }

    pub fn id(&self) -> (r: &BackendId)
        ensures
            *r == self.named(),
    {
        &self.id
    }

    pub fn kind(&self) -> (r: BackendKind)
        ensures
            r == BackendKind::Vulkan,
    {
        BackendKind::Vulkan
    }

    /// The detail of a probe that prefers a device, in words.
    pub open spec fn detail_text(device: VulkanDeviceInfo, inventory: Seq<char>) -> Seq<char> {
        "selected_device_id=0x"@ + text::hexadecimal(device.device_id as nat, 4)
            + ", selected_type="@ + device.device_type.text() + ", api_version="@ + text::decimal(
            device.api_version as nat,
        ) + ", external_memory="@ + text::bool_text(device.external_memory)
            + ", external_semaphore="@ + text::bool_text(device.external_semaphore)
            + "; inventory="@ + inventory
    }

    /// What Vulkan is as a backend: a carrier of data and work, described by its preferred device,
    /// and zero-copy only where that device shares both memory and semaphores.
    pub open spec fn is_probe(&self, info: VulkanRuntimeInfo, probe: BackendProbe) -> bool {
        let devices = info.devices@;
        let capabilities = probe.capabilities;
        &&& probe.id == self.named()
        &&& probe.kind == BackendKind::Vulkan
        &&& probe.device_count == compute_count(devices) as u32
        &&& capabilities.operations@ == seq![OperationKind::Copy, OperationKind::Custom]
        &&& capabilities.data_types@ == seq![DataType::Unknown]
        &&& capabilities.zero_copy == (capabilities.external_memory
            && capabilities.external_semaphore)
        &&& if none_computes(devices) {
            &&& probe.name@ == "Vulkan"@
            &&& probe.vendor@ == Seq::<char>::empty()
            &&& !probe.available
            &&& probe.detail@ == "No compute-capable Vulkan physical device"@
            &&& !capabilities.external_memory
            &&& !capabilities.external_semaphore
        } else {
            exists|i: int|
                {
                    &&& #[trigger] is_preferred(devices, i)
                    &&& probe.name@ == devices[i].name@
                    &&& probe.vendor@ == "PCI vendor 0x"@ + text::hexadecimal(
                        devices[i].vendor_id as nat,
                        4,
                    )
                    &&& probe.available
                    &&& probe.detail@ == Self::detail_text(devices[i], inventory_text(devices))
                    &&& capabilities.external_memory == devices[i].external_memory
                    &&& capabilities.external_semaphore == devices[i].external_semaphore
                }
        }
    }

    pub fn probe_from(&self, info: &VulkanRuntimeInfo) -> (r: BackendProbe)
        ensures
            self.is_probe(*info, r),
    {
        let mut operations: Vec<OperationKind> = Vec::new();
        operations.push(OperationKind::Copy);
        operations.push(OperationKind::Custom);
        assert(operations@ =~= seq![OperationKind::Copy, OperationKind::Custom]);
        let mut data_types: Vec<DataType> = Vec::new();
        data_types.push(DataType::Unknown);
        assert(data_types@ =~= seq![DataType::Unknown]);
        let (count, listed) = inventory(&info.devices);
        match info.preferred_index() {
            Some(i) => {
                let device = &info.devices[i];
                let mut vendor = "PCI vendor 0x".to_owned();
                text::append_hexadecimal(&mut vendor, device.vendor_id as u64, 4);
                let mut detail = "selected_device_id=0x".to_owned();
                text::append_hexadecimal(&mut detail, device.device_id as u64, 4);
                detail.append(", selected_type=");
                device.device_type.append_to(&mut detail);
                detail.append(", api_version=");
                text::append_decimal(&mut detail, device.api_version as u64);
                detail.append(", external_memory=");
                text::append_bool(&mut detail, device.external_memory);
                detail.append(", external_semaphore=");
                text::append_bool(&mut detail, device.external_semaphore);
                detail.append("; inventory=");
                detail.append(listed.as_str());
                assert(is_preferred(info.devices@, i as int));
                BackendProbe {
                    id: self.id.clone(),
                    kind: BackendKind::Vulkan,
                    name: device.name.clone(),
                    vendor,
                    available: true,
                    device_count: count as u32,
                    detail,
                    capabilities: CapabilitySet {
                        operations,
                        data_types,
                        external_memory: device.external_memory,
                        external_semaphore: device.external_semaphore,
                        zero_copy: device.external_memory && device.external_semaphore,
                    },
                }
            },
            None => {
                let vendor = String::new();
                assert(vendor@ =~= Seq::<char>::empty());
                BackendProbe {
                    id: self.id.clone(),
                    kind: BackendKind::Vulkan,
                    name: "Vulkan".to_owned(),
                    vendor,
                    available: false,
                    device_count: count as u32,
                    detail: "No compute-capable Vulkan physical device".to_owned(),
                    capabilities: CapabilitySet {
                        operations,
                        data_types,
                        external_memory: false,
                        external_semaphore: false,
                        zero_copy: false,
                    },
                }
            },
        }
    }
}

/// Vulkan is available where it counts a device, and only there.
pub proof fn available_means_devices(
    backend: VulkanBackend,
    info: VulkanRuntimeInfo,
    probe: BackendProbe,
)
    requires
        backend.is_probe(info, probe),
        info.devices@.len() <= u32::MAX,
    ensures
        probe.available <==> probe.device_count > 0,
{
    none_computes_means_none_counted(info.devices@);
    lemma_count_is_no_more(info.devices@);
}

proof fn lemma_count_is_no_more(devices: Seq<VulkanDeviceInfo>)
    ensures
        compute_count(devices) <= devices.len(),
    decreases devices.len(),
{
    if devices.len() > 0 {
        lemma_count_is_no_more(devices.drop_last());
    }
}

impl Default for VulkanBackend {
    fn default() -> (r: Self)
        ensures
            r.named()@ == "vulkan"@,
    {
        VulkanBackend::new()
    }
}

/// Vulkan serves no operation but copies and custom ones: everything else is for operator plugins.
pub proof fn only_copies_and_custom_work_are_offered(
    backend: VulkanBackend,
    info: VulkanRuntimeInfo,
    probe: BackendProbe,
    request: crate::backend::RouteRequest,
)
    requires
        backend.is_probe(info, probe),
        probe.is_compatible(request),
    ensures
        request.operation == OperationKind::Copy || request.operation == OperationKind::Custom,
        request.data_type == DataType::Unknown,
{
    let operations = probe.capabilities.operations@;
    let i = choose|i: int| 0 <= i < operations.len() && operations[i] == request.operation;
    let data_types = probe.capabilities.data_types@;
    let j = choose|j: int| 0 <= j < data_types.len() && data_types[j] == request.data_type;
}

/// What decides between devices that do compute, in this order: the vendor AMD, being discrete,
/// sharing both memory and semaphores, the lower device number, and the earlier place.
pub proof fn what_decides_between_devices(devices: Seq<VulkanDeviceInfo>, i: int, j: int)
    requires
        is_preferred(devices, i),
        0 <= j < devices.len(),
        devices[j].compute_queue,
    ensures
        0 <= i < devices.len(),
        devices[i].compute_queue,
        ({
            let a = devices[i];
            let b = devices[j];
            let same_vendor = (a.vendor_id == 0x1002) == (b.vendor_id == 0x1002);
            let same_type = (a.device_type.raw == 2) == (b.device_type.raw == 2);
            let same_sharing = (a.external_memory && a.external_semaphore) == (b.external_memory
                && b.external_semaphore);
            &&& b.vendor_id == 0x1002 ==> a.vendor_id == 0x1002
            &&& same_vendor && b.device_type.raw == 2 ==> a.device_type.raw == 2
            &&& same_vendor && same_type && b.external_memory && b.external_semaphore
                ==> a.external_memory && a.external_semaphore
            &&& same_vendor && same_type && same_sharing ==> a.device_id <= b.device_id
            &&& same_vendor && same_type && same_sharing && a.device_id == b.device_id ==> i <= j
        }),
{
    assert(!is_better(devices[j].score(), devices[i].score()));
}

/// Sharing needs the extension of the platform: one for memory and one for semaphores, by Win32
/// handles on Windows and by file descriptors on Linux. Nothing is shared elsewhere.
pub proof fn sharing_needs_the_extensions_of_the_platform(
    platform: Platform,
    extensions: Seq<String>,
    i: int,
)
    ensures
        platform == Platform::Other ==> shared_support(platform, extensions) == (false, false),
        0 <= i < extensions.len() && platform == Platform::Windows && extensions[i]@
            == "VK_KHR_external_memory_win32"@ ==> shared_support(platform, extensions).0,
        0 <= i < extensions.len() && platform == Platform::Windows && extensions[i]@
            == "VK_KHR_external_semaphore_win32"@ ==> shared_support(platform, extensions).1,
        0 <= i < extensions.len() && platform == Platform::Linux && extensions[i]@
            == "VK_KHR_external_memory_fd"@ ==> shared_support(platform, extensions).0,
        0 <= i < extensions.len() && platform == Platform::Linux && extensions[i]@
            == "VK_KHR_external_semaphore_fd"@ ==> shared_support(platform, extensions).1,
        shared_support(platform, extensions).0 ==> exists|k: int|
            0 <= k < extensions.len() && (#[trigger] extensions[k])@ == match platform {
                Platform::Windows => "VK_KHR_external_memory_win32"@,
                _ => "VK_KHR_external_memory_fd"@,
            },
        shared_support(platform, extensions).1 ==> exists|k: int|
            0 <= k < extensions.len() && (#[trigger] extensions[k])@ == match platform {
                Platform::Windows => "VK_KHR_external_semaphore_win32"@,
                _ => "VK_KHR_external_semaphore_fd"@,
            },
{
}

/// A family does compute where it has queues and the second lowest of its flags is set.
pub proof fn a_family_that_computes(family: QueueFamily)
    ensures
        family.computes() <==> family.queue_count > 0 && (family.queue_flags / 2) % 2 == 1,
{
    let flags = family.queue_flags;
    assert((flags & 2u32 == 2u32) == ((flags / 2) % 2 == 1)) by (bit_vector);
}

/// What is known of a device is what it answered, and it does compute where one of its families
/// has queues for it.
pub proof fn a_device_is_what_it_answered(
    info: VulkanDeviceInfo,
    platform: Platform,
    answers: VulkanDeviceAnswers,
    name: Seq<char>,
    extensions: Seq<String>,
)
    requires
        info.is_answered(platform, answers, name, extensions),
    ensures
        info.name@ == name,
        info.vendor_id == answers.vendor_id,
        info.device_id == answers.device_id,
        info.api_version == answers.api_version,
        info.device_type == answers.device_type,
        info.external_memory == shared_support(platform, extensions).0,
        info.external_semaphore == shared_support(platform, extensions).1,
        info.compute_queue <==> exists|i: int|
            #![trigger answers.families@[i]]
            0 <= i < answers.families@.len() && answers.families@[i].queue_count > 0 && (
            answers.families@[i].queue_flags / 2) % 2 == 1,
{
    assert forall|i: int| 0 <= i < answers.families@.len() implies (#[trigger]
    answers.families@[i]).computes() == (answers.families@[i].queue_count > 0 && (
    answers.families@[i].queue_flags / 2) % 2 == 1) by {
        a_family_that_computes(answers.families@[i]);
    }
}

/// The devices that do compute are counted one by one.
pub proof fn computing_devices_add_up(some: Seq<VulkanDeviceInfo>, more: Seq<VulkanDeviceInfo>)
    ensures
        compute_count(Seq::<VulkanDeviceInfo>::empty()) == 0,
        more.len() == 1 ==> compute_count(more) == if more[0].compute_queue {
            1nat
        } else {
            0
        },
        compute_count(some + more) == compute_count(some) + compute_count(more),
    decreases more.len(),
{
    if more.len() == 0 {
        assert(some + more =~= some);
    } else {
        computing_devices_add_up(some, more.drop_last());
        assert((some + more).drop_last() =~= some + more.drop_last());
        if more.len() == 1 {
            assert(more.drop_last() =~= Seq::<VulkanDeviceInfo>::empty());
        }
    }
}

/// A probe of Vulkan describes the preferred device: it has its name and shares what it shares, and
/// it is zero-copy only where the device shares both memory and semaphores.
pub proof fn a_probe_describes_the_preferred_device(
    backend: VulkanBackend,
    info: VulkanRuntimeInfo,
    probe: BackendProbe,
    i: int,
)
    requires
        backend.is_probe(info, probe),
        is_preferred(info.devices@, i),
    ensures
        probe.id == backend.named(),
        probe.kind == BackendKind::Vulkan,
        probe.available,
        probe.name@ == info.devices@[i].name@,
        probe.vendor@ == "PCI vendor 0x"@ + text::hexadecimal(
            info.devices@[i].vendor_id as nat,
            4,
        ),
        compute_count(info.devices@) <= u32::MAX ==> probe.device_count == compute_count(
            info.devices@,
        ),
        probe.capabilities.operations@.len() == 2,
        probe.capabilities.operations@[0] == OperationKind::Copy,
        probe.capabilities.operations@[1] == OperationKind::Custom,
        probe.capabilities.data_types@.len() == 1,
        probe.capabilities.data_types@[0] == DataType::Unknown,
        probe.capabilities.external_memory == info.devices@[i].external_memory,
        probe.capabilities.external_semaphore == info.devices@[i].external_semaphore,
        probe.capabilities.zero_copy == (info.devices@[i].external_memory
            && info.devices@[i].external_semaphore),
{
    let devices = info.devices@;
    assert(devices[i].compute_queue);
    let j = choose|j: int|
        {
            &&& #[trigger] is_preferred(devices, j)
            &&& probe.name@ == devices[j].name@
            &&& probe.vendor@ == "PCI vendor 0x"@ + text::hexadecimal(
                devices[j].vendor_id as nat,
                4,
            )
            &&& probe.available
            &&& probe.detail@ == VulkanBackend::detail_text(devices[j], inventory_text(devices))
            &&& probe.capabilities.external_memory == devices[j].external_memory
            &&& probe.capabilities.external_semaphore == devices[j].external_semaphore
        };
    the_preferred_device_is_unique(devices, i, j);
}

} // verus!
