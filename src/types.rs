use vstd::prelude::*;

verus! {

/// The largest value a 48-bit Bluetooth device address can hold.
pub const BDADDR_MAX: u64 = 0xFFFF_FFFF_FFFF;

/// A 48-bit Bluetooth device address, held in the low bits of a `u64`.
#[derive(Clone, Copy, Debug, PartialEq, Eq, Structural, Hash)]
pub struct BDAddr {
    pub value: u64,
}

impl BDAddr {
    /// Reads an address out of the 64-bit integer the platform reports;
    /// values wider than 48 bits are not addresses.
    pub fn from_u64(value: u64) -> (r: Option<BDAddr>)
        ensures
            value <= BDADDR_MAX ==> r == Some(BDAddr { value }),
            value > BDADDR_MAX ==> r is None,
    {
        if value <= BDADDR_MAX {
            Some(BDAddr { value })
        } else {
            None
        }
    }

    pub fn to_u64(&self) -> (r: u64)
        ensures
            r == self.value,
    {
        self.value
    }
}

/// The identity under which a peripheral is known: its device address.
#[derive(Clone, Copy, Debug, PartialEq, Eq, Structural, Hash)]
pub struct PeripheralId {
    pub address: BDAddr,
}

impl PeripheralId {
    pub fn from_address(address: BDAddr) -> (r: PeripheralId)
        ensures
            r.address == address,
    {
        PeripheralId { address }
    }
}

/// Manufacturer-specific advertisement data: a company identifier and its payload.
#[derive(Debug)]
pub struct ManufacturerData {
    pub company_id: u16,
    pub data: Vec<u8>,
}

/// The mathematical value of a `ManufacturerData`.
pub struct ManufacturerDataView {
    pub company_id: u16,
    pub data: Seq<u8>,
}

impl View for ManufacturerData {
    type V = ManufacturerDataView;

    open spec fn view(&self) -> ManufacturerDataView {
        ManufacturerDataView { company_id: self.company_id, data: self.data@ }
    }
}

/// Copies a vector of plain values element by element.
pub fn copy_vec<T: Copy>(v: &Vec<T>) -> (r: Vec<T>)
    ensures
        r@ == v@,
{
    let mut r: Vec<T> = Vec::new();
    let mut i: usize = 0;
    while i < v.len()
        invariant
            i <= v@.len(),
            r@ == v@.subrange(0, i as int),
        decreases v@.len() - i,
    {
        r.push(v[i]);
        i = i + 1;
    }
    assert(r@ =~= v@);
    r
}

/// Copies an optional string.
pub fn copy_opt_string(s: &Option<String>) -> (r: Option<String>)
    ensures
        opt_str_view(r) == opt_str_view(*s),
{
    match s {
        Some(t) => Some(t.clone()),
        None => None,
    }
}

pub open spec fn opt_str_view(s: Option<String>) -> Option<Seq<char>> {
    match s {
        Some(t) => Some(t@),
        None => None,
    }
}

pub open spec fn opt_vec_view<T>(v: Option<Vec<T>>) -> Option<Seq<T>> {
    match v {
        Some(t) => Some(t@),
        None => None,
    }
}

pub open spec fn opt_mfr_view(m: Option<ManufacturerData>) -> Option<ManufacturerDataView> {
    match m {
        Some(t) => Some(t@),
        None => None,
    }
}

impl ManufacturerData {
    pub fn duplicate(&self) -> (r: ManufacturerData)
        ensures
            r@ == self@,
    {
        ManufacturerData { company_id: self.company_id, data: copy_vec(&self.data) }
    }
}

pub fn copy_opt_mfr(m: &Option<ManufacturerData>) -> (r: Option<ManufacturerData>)
    ensures
        opt_mfr_view(r) == opt_mfr_view(*m),
{
    match m {
        Some(t) => Some(t.duplicate()),
        None => None,
    }
}

pub fn copy_opt_vec<T: Copy>(v: &Option<Vec<T>>) -> (r: Option<Vec<T>>)
    ensures
        opt_vec_view(r) == opt_vec_view(*v),
{
    match v {
        Some(t) => Some(copy_vec(t)),
        None => None,
    }
}

/// The caller's scan filter: the service UUIDs of interest, each as a
/// 128-bit value. An empty list matches every device.
#[derive(Debug)]
pub struct ScanFilter {
    pub services: Vec<u128>,
}

/// True when a device offering `offered` satisfies a filter over `wanted`:
/// the filter is empty, or the device offers one of the wanted services.
pub open spec fn services_match(wanted: Seq<u128>, offered: Seq<u128>) -> bool {
    wanted.len() == 0 || exists|i: int, j: int|
        0 <= i < offered.len() && 0 <= j < wanted.len() && #[trigger] offered[i] == #[trigger] wanted[j]
}

impl ScanFilter {
    pub fn new(services: Vec<u128>) -> (r: ScanFilter)
        ensures
            r.services@ == services@,
    {
        ScanFilter { services }
    }

    pub fn duplicate(&self) -> (r: ScanFilter)
        ensures
            r.services@ == self.services@,
    {
        ScanFilter { services: copy_vec(&self.services) }
    }

    /// Tells whether a device offering `offered` passes this filter.
    pub fn matches(&self, offered: &Vec<u128>) -> (r: bool)
        ensures
            r == services_match(self.services@, offered@),
    {
        if self.services.len() == 0 {
            return true;
        }
        let mut i: usize = 0;
        while i < offered.len()
            invariant
                i <= offered@.len(),
                self.services@.len() > 0,
                forall|a: int, b: int|
                    0 <= a < i && 0 <= b < self.services@.len() ==> offered@[a] != self.services@[b],
            decreases offered@.len() - i,
        {
            let mut j: usize = 0;
            while j < self.services.len()
                invariant
                    i < offered@.len(),
                    j <= self.services@.len(),
                    forall|b: int| 0 <= b < j ==> offered@[i as int] != self.services@[b],
                decreases self.services@.len() - j,
            {
                if offered[i] == self.services[j] {
                    assert(offered@[i as int] == self.services@[j as int]);
                    return true;
                }
                j = j + 1;
            }
            i = i + 1;
        }
        false
    }
}

/// The errors of the adapter's operations.
#[derive(Clone, Copy, Debug, PartialEq, Eq, Structural)]
pub enum AdapterError {
    /// No peripheral is known under the identity asked for.
    DeviceNotFound,
    /// A scan was asked for while one is running or being started or stopped.
    AlreadyScanning,
    /// A notification carried no address, or one wider than 48 bits.
    MalformedAddress,
    /// The platform could not start or stop discovery.
    PlatformUnavailable,
    /// No candidate device offered a service the filter asks for.
    NoMatchingDevice,
    /// The operation is one this adapter does not offer.
    Unsupported,
}

} // verus!
