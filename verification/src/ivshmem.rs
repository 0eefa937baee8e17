//! Mapping the shared region in the guest: the driver interface and the sequence of
//! calls that finds the device and asks for the mapping.

use crate::bytes;
use vstd::prelude::*;

verus! {

/// The device interface of the shared-memory driver.
pub const IVSHMEM_INTERFACE: u128 = 0xdf576976_569d_4672_95a0_f57e4ea0b210;

/// The device type of the driver's control codes.
pub const FILE_DEVICE_UNKNOWN: u32 = 0x0000_0022;

/// The buffering method of the driver's control codes.
pub const METHOD_BUFFERED: u32 = 0;

/// The access that the driver's control codes ask for.
pub const FILE_ANY_ACCESS: u32 = 0;

/// The function number that asks for the size of the region.
pub const REQUEST_SIZE_FUNCTION: u32 = 0x801;

/// The function number that asks for the mapping.
pub const REQUEST_MMAP_FUNCTION: u32 = 0x802;

/// Control code that asks for the size of the region.
pub const IOCTL_IVSHMEM_REQUEST_SIZE: u32 = 0x0022_2004;

/// Control code that asks for the mapping.
pub const IOCTL_IVSHMEM_REQUEST_MMAP: u32 = 0x0022_2008;

/// The cache mode to ask for: cached memory, on which atomics work.
pub const IVSHMEM_CACHE_CACHED: u8 = 1;

/// Size of the reply to a mapping request.
pub const MMAP_REPLY_SIZE: usize = 32;

/// Byte offset of the region size in that reply.
pub const MMAP_SIZE_OFFSET: usize = 8;

/// Byte offset of the address in that reply.
pub const MMAP_PTR_OFFSET: usize = 16;

/// A device control code: the device type in the high half, then two bits of
/// access, twelve of function and two of method.
pub open spec fn control_code(device: u32, function: u32, method: u32, access: u32) -> u32 {
    (device << 16u32) | (access << 14u32) | (function << 2u32) | method
}

/// Composes a device control code.
pub fn ctl_code(device: u32, function: u32, method: u32, access: u32) -> (code: u32)
    ensures
        code == control_code(device, function, method, access),
{
    (device << 16u32) | (access << 14u32) | (function << 2u32) | method
}

/// The parts of a control code do not run into each other, so that it is a number
/// with four digits of their own, and the parts can be read off it again.
pub proof fn control_code_is_positional(device: u32, function: u32, method: u32, access: u32)
    requires
        device <= 0xFFFF,
        function <= 0xFFF,
        method <= 3,
        access <= 3,
    ensures
        control_code(device, function, method, access) == device * 0x1_0000 + access * 0x4000
            + function * 4 + method,
{
    assert((device << 16u32) | (access << 14u32) | (function << 2u32) | method == device * 0x1_0000
        + access * 0x4000 + function * 4 + method) by (bit_vector)
        requires
            device <= 0xFFFF,
            function <= 0xFFF,
            method <= 3,
            access <= 3,
    ;
}

/// The two control codes are those of their functions.
pub proof fn driver_codes_are_composed()
    ensures
        IOCTL_IVSHMEM_REQUEST_SIZE == control_code(
            FILE_DEVICE_UNKNOWN,
            REQUEST_SIZE_FUNCTION,
            METHOD_BUFFERED,
            FILE_ANY_ACCESS,
        ),
        IOCTL_IVSHMEM_REQUEST_MMAP == control_code(
            FILE_DEVICE_UNKNOWN,
            REQUEST_MMAP_FUNCTION,
            METHOD_BUFFERED,
            FILE_ANY_ACCESS,
        ),
{
    control_code_is_positional(
        FILE_DEVICE_UNKNOWN,
        REQUEST_SIZE_FUNCTION,
        METHOD_BUFFERED,
        FILE_ANY_ACCESS,
    );
    control_code_is_positional(
        FILE_DEVICE_UNKNOWN,
        REQUEST_MMAP_FUNCTION,
        METHOD_BUFFERED,
        FILE_ANY_ACCESS,
    );
}

/// Where the driver mapped the region.
#[derive(Clone, Copy, Debug, PartialEq, Eq, Structural)]
pub struct MappedRegion {
    pub address: u64,
    pub len: u64,
}

/// Reads the reply to a mapping request.
pub fn parse_mmap_reply(reply: &[u8]) -> (r: MappedRegion)
    requires
        reply@.len() >= MMAP_REPLY_SIZE,
    ensures
        r.address == bytes::le64_at(reply@, MMAP_PTR_OFFSET as int),
        r.len == bytes::le64_at(reply@, MMAP_SIZE_OFFSET as int),
{
    MappedRegion {
        address: bytes::le64(reply, MMAP_PTR_OFFSET),
        len: bytes::le64(reply, MMAP_SIZE_OFFSET),
    }
}

/// The call to make next.
#[derive(Clone, Copy, Debug, PartialEq, Eq, Structural)]
pub enum MapStep {
    /// Open the list of devices that have the interface.
    OpenList,
    /// Look up the first of them.
    EnumFirst,
    /// Ask how long its detail is; the call is expected to fail.
    ProbeDetail,
    /// Read its detail.
    ReadDetail,
    /// Open the device.
    OpenDevice,
    /// Close the list.
    CloseList,
    /// Ask for the size of the region.
    RequestSize,
    /// Ask for the mapping.
    RequestMmap,
    /// The region is mapped; nothing is left to do.
    Mapped,
    /// The region could not be mapped.
    Failed,
}

/// A mapping in the making, between two calls.
#[derive(Clone, Copy, Debug, PartialEq, Eq, Structural)]
pub struct RegionMap {
    /// The call to make next.
    pub step: MapStep,
    /// Whether the device list is open.
    pub list_open: bool,
    /// What the mapping ends with; negative if it failed.
    pub result: i32,
}

impl RegionMap {
    /// A mapping for which no call has been made yet.
    pub open spec fn fresh() -> Self {
        RegionMap { step: MapStep::OpenList, list_open: false, result: 0 }
    }

    /// The mapping after the call that was due returned `code`.
    pub open spec fn after(self, code: i32) -> Self {
        let over = RegionMap { step: MapStep::Failed, list_open: self.list_open, result: code };
        let close = RegionMap { step: MapStep::CloseList, list_open: self.list_open, result: code };
        match self.step {
            MapStep::OpenList => if code < 0 {
                over
            } else {
                RegionMap { step: MapStep::EnumFirst, list_open: true, result: self.result }
            },
            MapStep::EnumFirst => if code < 0 {
                close
            } else {
                RegionMap { step: MapStep::ProbeDetail, ..self }
            },
            MapStep::ProbeDetail => RegionMap { step: MapStep::ReadDetail, ..self },
            MapStep::ReadDetail => if code < 0 {
                close
            } else {
                RegionMap { step: MapStep::OpenDevice, ..self }
            },
            // The list goes whether or not the device could be opened.
            MapStep::OpenDevice => close,
            MapStep::CloseList => RegionMap {
                step: if self.result < 0 {
                    MapStep::Failed
                } else {
                    MapStep::RequestSize
                },
                list_open: false,
                result: self.result,
            },
            MapStep::RequestSize => if code < 0 {
                over
            } else {
                RegionMap { step: MapStep::RequestMmap, ..self }
            },
            MapStep::RequestMmap => if code < 0 {
                over
            } else {
                RegionMap { step: MapStep::Mapped, ..self }
            },
            MapStep::Mapped | MapStep::Failed => self,
        }
    }

    /// The mapping after calls that returned `codes`.
    pub open spec fn after_all(self, codes: Seq<i32>) -> Self
        decreases codes.len(),
    {
        if codes.len() == 0 {
            self
        } else {
            self.after_all(codes.drop_last()).after(codes.last())
        }
    }

    /// A bound on the calls that are left.
    pub open spec fn calls_left(self) -> int {
        match self.step {
            MapStep::OpenList => 8,
            MapStep::EnumFirst => 7,
            MapStep::ProbeDetail => 6,
            MapStep::ReadDetail => 5,
            MapStep::OpenDevice => 4,
            MapStep::CloseList => 3,
            MapStep::RequestSize => 2,
            MapStep::RequestMmap => 1,
            MapStep::Mapped | MapStep::Failed => 0,
        }
    }

    /// The list is open from the call that opens it to the one that closes it, and
    /// nowhere else; and a mapping failed exactly if its result is negative.
    pub open spec fn wf(self) -> bool {
        &&& self.list_open == (match self.step {
            MapStep::EnumFirst
            | MapStep::ProbeDetail
            | MapStep::ReadDetail
            | MapStep::OpenDevice
            | MapStep::CloseList => true,
            _ => false,
        })
        &&& self.step != MapStep::CloseList ==> (self.result < 0) == (self.step == MapStep::Failed)
    }

    /// A new mapping.
    pub fn new() -> (m: Self)
        ensures
            m == RegionMap::fresh(),
            m.wf(),
    {
        RegionMap { step: MapStep::OpenList, list_open: false, result: 0 }
    }

    /// Takes the result code of the call that was due.
    pub fn advance(&mut self, code: i32)
        requires
            old(self).wf(),
        ensures
            *final(self) == old(self).after(code),
            final(self).wf(),
    {
        let failed: bool = code < 0;
        match self.step {
            MapStep::OpenList => {
                if failed {
                    self.step = MapStep::Failed;
                    self.result = code;
                } else {
                    self.step = MapStep::EnumFirst;
                    self.list_open = true;
                }
            },
            MapStep::EnumFirst => {
                if failed {
                    self.step = MapStep::CloseList;
                    self.result = code;
                } else {
                    self.step = MapStep::ProbeDetail;
                }
            },
            MapStep::ProbeDetail => self.step = MapStep::ReadDetail,
            MapStep::ReadDetail => {
                if failed {
                    self.step = MapStep::CloseList;
                    self.result = code;
                } else {
                    self.step = MapStep::OpenDevice;
                }
            },
            MapStep::OpenDevice => {
                self.step = MapStep::CloseList;
                self.result = code;
            },
            MapStep::CloseList => {
                self.list_open = false;
                self.step = if self.result < 0 {
                    MapStep::Failed
                } else {
                    MapStep::RequestSize
                };
            },
            MapStep::RequestSize => {
                if failed {
                    self.step = MapStep::Failed;
                    self.result = code;
                } else {
                    self.step = MapStep::RequestMmap;
                }
            },
            MapStep::RequestMmap => {
                if failed {
                    self.step = MapStep::Failed;
                    self.result = code;
                } else {
                    self.step = MapStep::Mapped;
                }
            },
            MapStep::Mapped | MapStep::Failed => {},
        }
    }
}

/// Whatever the calls return, every call leaves fewer to make, so a mapping ends.
pub proof fn mapping_ends(m: RegionMap, code: i32)
    requires
        m.wf(),
    ensures
        m.after(code).wf(),
        m.calls_left() > 0 ==> 0 <= m.after(code).calls_left() < m.calls_left(),
        m.calls_left() == 0 <==> m.step == MapStep::Mapped || m.step == MapStep::Failed,
{
}

/// How often the device list has been closed by calls that returned `codes`.
pub open spec fn closings(codes: Seq<i32>) -> int
    decreases codes.len(),
{
    if codes.len() == 0 {
        0
    } else {
        closings(codes.drop_last()) + if RegionMap::fresh().after_all(codes.drop_last()).step
            == MapStep::CloseList {
            1int
        } else {
            0
        }
    }
}

/// A device list that was opened is closed exactly once, whether the mapping
/// succeeds or fails, and one that was not is not closed.
pub proof fn list_is_closed_once(codes: Seq<i32>)
    ensures
        ({
            let m = RegionMap::fresh().after_all(codes);
            &&& m.wf()
            &&& closings(codes) == (if codes.len() > 0 && codes[0] >= 0 && !m.list_open {
                1int
            } else {
                0
            })
            &&& m.step == MapStep::Mapped || m.step == MapStep::Failed ==> !m.list_open
        }),
    decreases codes.len(),
{
    if codes.len() > 0 {
        let before = codes.drop_last();
        list_is_closed_once(before);
        let m = RegionMap::fresh().after_all(before);
        mapping_ends(m, codes.last());
        assert(RegionMap::fresh().after_all(codes) == m.after(codes.last()));
        if before.len() == 0 {
            assert(codes.last() == codes[0]);
        } else {
            assert(before[0] == codes[0]);
            lemma_past_the_opening(before);
        }
    }
}

/// After the first call the list is open, or the opening failed, or it was closed.
proof fn lemma_past_the_opening(codes: Seq<i32>)
    requires
        codes.len() > 0,
    ensures
        RegionMap::fresh().after_all(codes).step != MapStep::OpenList,
        codes[0] < 0 ==> RegionMap::fresh().after_all(codes).step == MapStep::Failed,
    decreases codes.len(),
{
    let before = codes.drop_last();
    if before.len() > 0 {
        assert(before[0] == codes[0]);
        lemma_past_the_opening(before);
    } else {
        assert(codes.last() == codes[0]);
        assert(RegionMap::fresh().after_all(before) == RegionMap::fresh());
    }
}

/// A mapping for which no call fails opens the list, looks up the device and its detail,
/// whatever the probe for its length returns, opens the device, closes the list, whatever
/// that returns, and asks for the size and the mapping.
pub proof fn calls_come_in_order(
    open: i32,
    first: i32,
    probe: i32,
    detail: i32,
    device: i32,
    close: i32,
    size: i32,
    map: i32,
)
    requires
        open >= 0,
        first >= 0,
        detail >= 0,
        device >= 0,
        size >= 0,
        map >= 0,
    ensures
        ({
            let m1 = RegionMap::fresh().after(open);
            let m2 = m1.after(first);
            let m3 = m2.after(probe);
            let m4 = m3.after(detail);
            let m5 = m4.after(device);
            let m6 = m5.after(close);
            let m7 = m6.after(size);
            let m8 = m7.after(map);
            &&& RegionMap::fresh().step == MapStep::OpenList
            &&& m1.step == MapStep::EnumFirst
            &&& m2.step == MapStep::ProbeDetail
            &&& m3.step == MapStep::ReadDetail
            &&& m4.step == MapStep::OpenDevice
            &&& m5.step == MapStep::CloseList
            &&& m6.step == MapStep::RequestSize
            &&& m7.step == MapStep::RequestMmap
            &&& m8.step == MapStep::Mapped
            &&& m8.result >= 0
            &&& m8.after(map) == m8
        }),
{
}

/// A failure ends the mapping with its code: at once where the list is not open, and after
/// the list was closed where it is.
pub proof fn failures_end_the_mapping(m: RegionMap, code: i32, close: i32)
    requires
        m.wf(),
        code < 0,
    ensures
        m.step == MapStep::OpenList || m.step == MapStep::RequestSize || m.step
            == MapStep::RequestMmap ==> m.after(code).step == MapStep::Failed && m.after(
            code,
        ).result == code,
        m.step == MapStep::EnumFirst || m.step == MapStep::ReadDetail || m.step
            == MapStep::OpenDevice ==> {
            let closing = m.after(code);
            &&& closing.step == MapStep::CloseList
            &&& closing.after(close).step == MapStep::Failed
            &&& closing.after(close).result == code
            &&& !closing.after(close).list_open
        },
        m.step == MapStep::Failed ==> m.after(code) == m,
{
}

} // verus!
