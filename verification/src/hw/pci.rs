//! PCI configuration space: address encoding, byte-lane extraction, the
//! device records read at enumeration, and the device list report.
use vstd::prelude::*;
use crate::fmt::{hex_digits, dec_digits, push_bytes, push_dec, push_hex};

verus! {

/// The configuration-address register value for a bus, device, function and
/// register offset: enable bit, then the fields, offset aligned to a dword.
pub open spec fn config_address_spec(bus: u8, device: u8, function: u8, offset: u8) -> u32 {
    (1u32 << 31u32) | ((bus as u32) << 16u32) | (((device & 0x1F) as u32) << 11u32)
        | (((function & 0x07) as u32) << 8u32) | ((offset & 0xFC) as u32)
}

/// The configuration-address register value (see `config_address_spec`).
pub fn config_address(bus: u8, device: u8, function: u8, offset: u8) -> (r: u32)
    ensures
        r == config_address_spec(bus, device, function, offset),
        r & 0x8000_0000 != 0,
        (r >> 16u32) & 0xFF == bus,
        r & 3 == 0,
{
    let r = (1u32 << 31u32) | ((bus as u32) << 16u32) | (((device & 0x1F) as u32) << 11u32)
        | (((function & 0x07) as u32) << 8u32) | ((offset & 0xFC) as u32);
    assert(r & 0x8000_0000 != 0 && (r >> 16u32) & 0xFF == bus && r & 3 == 0) by (bit_vector)
        requires r == (1u32 << 31u32) | ((bus as u32) << 16u32) | (((device & 0x1F) as u32) << 11u32)
            | (((function & 0x07) as u32) << 8u32) | ((offset & 0xFC) as u32);
    r
}

/// The 16-bit word at register `offset` within the dword read from `offset & 0xFC`.
pub fn word_at(dword: u32, offset: u8) -> (r: u16)
    ensures
        r == ((dword >> (((offset & 2) * 8) as u32)) & 0xFFFF) as u16,
{
    let m = offset & 2;
    assert(m <= 2) by (bit_vector) requires m == offset & 2;
    let shift = (m as u32) * 8;
    ((dword >> shift) & 0xFFFF) as u16
}

/// The byte at register `offset` within the dword read from `offset & 0xFC`.
pub fn byte_at(dword: u32, offset: u8) -> (r: u8)
    ensures
        r == ((dword >> (((offset & 3) * 8) as u32)) & 0xFF) as u8,
{
    let m = offset & 3;
    assert(m <= 3) by (bit_vector) requires m == offset & 3;
    let shift = (m as u32) * 8;
    ((dword >> shift) & 0xFF) as u8
}

/// Highest function number to probe on a device, from its header-type byte:
/// 7 for a multi-function device, else 1.
pub fn func_mask(header: u8) -> (r: u8)
    ensures
        r == (if header & 0x80 != 0 { 7u8 } else { 1u8 }),
{
    if header & 0x80 != 0 { 7 } else { 1 }
}

#[derive(Clone, Copy, Debug)]
pub struct PciDeviceInfo {
    pub bus: u8,
    pub device: u8,
    pub function: u8,
    pub vendor_id: u16,
    pub device_id: u16,
    pub class_code: u8,
    pub subclass: u8,
    pub prog_if: u8,
    pub revision: u8,
    pub header_type: u8,
}

impl PciDeviceInfo {
    /// The record of the function at `bus:device.func` from its configuration
    /// registers; `None` when the vendor reads all ones (no device there). The
    /// header type loses its multi-function bit.
    pub fn from_config(bus: u8, device: u8, func: u8, vendor: u16, device_id: u16, class_code: u8,
        subclass: u8, prog_if: u8, revision: u8, header: u8) -> (r: Option<Self>)
        ensures
            vendor == 0xFFFF ==> r is None,
            vendor != 0xFFFF ==> r == Some(PciDeviceInfo {
                bus, device, function: func, vendor_id: vendor, device_id, class_code, subclass,
                prog_if, revision, header_type: header & 0x7F,
            }),
    {
        if vendor == 0xFFFF {
            return None;
        }
        Some(PciDeviceInfo {
            bus, device, function: func, vendor_id: vendor, device_id, class_code, subclass,
            prog_if, revision, header_type: header & 0x7F,
        })
    }
}

/// Position of `bus:device.func` in scan order.
pub open spec fn slot_key(bus: int, device: int, func: int) -> int {
    bus * 256 + device * 8 + func
}

/// Position of a device record in scan order.
pub open spec fn device_key(d: PciDeviceInfo) -> int {
    slot_key(d.bus as int, d.device as int, d.function as int)
}

/// The next configuration read of a bus scan.
#[derive(Clone, Copy, PartialEq, Eq, Structural, Debug)]
pub enum ScanStep {
    /// Read the header-type register (dword 0x0C) of function 0 of `bus:device`.
    Header { bus: u8, device: u8 },
    /// Read the identifier, class and header registers (dwords 0x00, 0x08 and
    /// 0x0C) of `bus:device.func`; functions up to `last` are probed.
    Function { bus: u8, device: u8, func: u8, last: u8 },
    /// Every bus has been scanned.
    Done,
}

/// Position of a scan step in scan order; past every slot when done.
pub open spec fn step_key(s: ScanStep) -> int {
    match s {
        ScanStep::Header { bus, device } => slot_key(bus as int, device as int, 0),
        ScanStep::Function { bus, device, func, .. } => slot_key(bus as int, device as int, func as int),
        ScanStep::Done => 65536,
    }
}

/// Whether a step is one a scan can be at: a device below 32 and a function
/// no higher than the last to probe, itself at most 7.
pub open spec fn step_ok(s: ScanStep) -> bool {
    match s {
        ScanStep::Header { device, .. } => device < 32,
        ScanStep::Function { device, func, last, .. } => device < 32 && func <= last <= 7,
        ScanStep::Done => true,
    }
}

/// The step after every function of `bus:device` has been probed: the next
/// device, the first device of the next bus, or the end of the scan.
pub open spec fn next_device(bus: u8, device: u8) -> ScanStep {
    if device < 31 {
        ScanStep::Header { bus, device: (device + 1) as u8 }
    } else if bus < 255 {
        ScanStep::Header { bus: (bus + 1) as u8, device: 0 }
    } else {
        ScanStep::Done
    }
}

/// A bus scan starts at device 0 of bus 0.
pub fn scan_start() -> (s: ScanStep)
    ensures
        s == (ScanStep::Header { bus: 0, device: 0 }),
        step_ok(s) && step_key(s) == 0,
{
    ScanStep::Header { bus: 0, device: 0 }
}

/// After reading the header-type register `header_dword` of function 0 of
/// `bus:device`: probe its functions from 0 up to `func_mask` of the header byte.
pub fn after_header(bus: u8, device: u8, header_dword: u32) -> (s: ScanStep)
    requires
        device < 32,
    ensures
        s == (ScanStep::Function { bus, device, func: 0,
            last: if ((header_dword >> 16u32) & 0xFF) as u8 & 0x80 != 0 { 7u8 } else { 1u8 } }),
        step_ok(s),
        step_key(s) == step_key(ScanStep::Header { bus, device }),
{
    let header = byte_at(header_dword, 0x0E);
    assert(header == ((header_dword >> 16u32) & 0xFF) as u8) by {
        assert((0x0Eu8 & 3) * 8 == 16) by (bit_vector);
    }
    ScanStep::Function { bus, device, func: 0, last: func_mask(header) }
}

/// The report line for a device: `bb:dd.f  vvvv:dddd  class=ccsspp  rev=rr`
/// (the function with as many digits as it needs, at most one here).
pub open spec fn device_text(d: PciDeviceInfo) -> Seq<u8> {
    hex_digits(d.bus as u64, 2) + seq![58u8] + hex_digits(d.device as u64, 2) + seq![46u8]
        + (if d.function < 16 { hex_digits(d.function as u64, 1) } else { hex_digits(d.function as u64, 2) })
        + seq![32u8, 32u8] + hex_digits(d.vendor_id as u64, 4) + seq![58u8] + hex_digits(d.device_id as u64, 4)
        + seq![32u8, 32u8, 99u8, 108u8, 97u8, 115u8, 115u8, 61u8]
        + hex_digits(d.class_code as u64, 2) + hex_digits(d.subclass as u64, 2) + hex_digits(d.prog_if as u64, 2)
        + seq![32u8, 32u8, 114u8, 101u8, 118u8, 61u8] + hex_digits(d.revision as u64, 2)
}

/// Append a device's report line text.
pub fn push_device(out: &mut Vec<u8>, d: &PciDeviceInfo)
    ensures
        final(out)@ == old(out)@ + device_text(*d),
{
    push_hex(out, d.bus as u64, 2);
    out.push(58);
    push_hex(out, d.device as u64, 2);
    out.push(46);
    if d.function < 16 {
        push_hex(out, d.function as u64, 1);
    } else {
        push_hex(out, d.function as u64, 2);
    }
    out.push(32);
    out.push(32);
    push_hex(out, d.vendor_id as u64, 4);
    out.push(58);
    push_hex(out, d.device_id as u64, 4);
    let class_label: [u8; 8] = [32, 32, 99, 108, 97, 115, 115, 61];
    push_bytes(out, &class_label);
    push_hex(out, d.class_code as u64, 2);
    push_hex(out, d.subclass as u64, 2);
    push_hex(out, d.prog_if as u64, 2);
    let rev_label: [u8; 6] = [32, 32, 114, 101, 118, 61];
    push_bytes(out, &rev_label);
    push_hex(out, d.revision as u64, 2);
    proof {
        assert(class_label@ =~= seq![32u8, 32u8, 99u8, 108u8, 97u8, 115u8, 115u8, 61u8]);
        assert(rev_label@ =~= seq![32u8, 32u8, 114u8, 101u8, 118u8, 61u8]);
        assert(final(out)@ =~= old(out)@ + device_text(*d));
    }
}

/// The devices found on the bus, and whether the bus has been scanned.
pub struct PciDevices {
    pub devices: Vec<PciDeviceInfo>,
    pub scanned: bool,
}

/// The report text for a list of devices, one indented line each after a count.
pub open spec fn report_lines(ds: Seq<PciDeviceInfo>) -> Seq<u8>
    decreases ds.len(),
{
    if ds.len() == 0 {
        Seq::empty()
    } else {
        report_lines(ds.drop_last()) + seq![32u8, 32u8] + device_text(ds.last()) + seq![10u8]
    }
}

impl PciDevices {
    /// No devices; not scanned.
    pub fn new() -> (p: Self)
        ensures
            p.devices@.len() == 0 && !p.scanned,
    {
        PciDevices { devices: Vec::new(), scanned: false }
    }

    /// Claim the one scan of the bus: `true` the first time, when the list
    /// is emptied for the scan to fill; `false`, with nothing changed, after.
    pub fn begin_scan(&mut self) -> (first: bool)
        ensures
            first == !old(self).scanned,
            final(self).scanned,
            first ==> final(self).devices@.len() == 0,
            first ==> final(self).in_scan_order() && final(self).all_before(0) && final(self).all_present(),
            !first ==> final(self).devices@ == old(self).devices@,
    {
        if self.scanned {
            return false;
        }
        self.scanned = true;
        self.devices.clear();
        true
    }

    /// Add a device found by the scan.
    pub fn record(&mut self, d: PciDeviceInfo)
        ensures
            final(self).devices@ == old(self).devices@.push(d),
            final(self).scanned == old(self).scanned,
    {
        self.devices.push(d);
    }

    /// The devices are in scan order, each after the one before.
    pub open spec fn in_scan_order(&self) -> bool {
        forall|i: int, j: int| 0 <= i < j < self.devices@.len()
            ==> device_key(#[trigger] self.devices@[i]) < device_key(#[trigger] self.devices@[j])
    }

    /// Every device recorded lies before scan position `k`.
    pub open spec fn all_before(&self, k: int) -> bool {
        forall|i: int| 0 <= i < self.devices@.len() ==> device_key(#[trigger] self.devices@[i]) < k
    }

    /// Every device recorded answered with a vendor other than all ones.
    pub open spec fn all_present(&self) -> bool {
        forall|i: int| 0 <= i < self.devices@.len() ==> (#[trigger] self.devices@[i]).vendor_id != 0xFFFF
    }

    /// After reading the identifier, class and header registers of
    /// `bus:device.func`: record the function when a device answers (see
    /// `PciDeviceInfo::from_config`), and say what to read next: the next
    /// function up to `last`, then the next device. A scan that starts at
    /// `scan_start` on an empty list and follows the steps keeps the list in
    /// scan order with every recorded device present.
    pub fn after_function(&mut self, bus: u8, device: u8, func: u8, last: u8, id: u32, class: u32, hdr: u32) -> (next: ScanStep)
        requires
            device < 32,
            func <= last <= 7,
        ensures
            final(self).scanned == old(self).scanned,
            ({
                let vendor = ((id >> 0u32) & 0xFFFF) as u16;
                if vendor == 0xFFFF {
                    final(self).devices@ == old(self).devices@
                } else {
                    final(self).devices@ == old(self).devices@.push(PciDeviceInfo {
                        bus, device, function: func, vendor_id: vendor,
                        device_id: ((id >> 16u32) & 0xFFFF) as u16,
                        class_code: ((class >> 24u32) & 0xFF) as u8,
                        subclass: ((class >> 16u32) & 0xFF) as u8,
                        prog_if: ((class >> 8u32) & 0xFF) as u8,
                        revision: ((class >> 0u32) & 0xFF) as u8,
                        header_type: ((hdr >> 16u32) & 0xFF) as u8 & 0x7F,
                    })
                }
            }),
            next == (if func < last { ScanStep::Function { bus, device, func: (func + 1) as u8, last } } else { next_device(bus, device) }),
            step_ok(next),
            step_key(next) > slot_key(bus as int, device as int, func as int),
            old(self).in_scan_order() && old(self).all_before(slot_key(bus as int, device as int, func as int))
                ==> final(self).in_scan_order() && final(self).all_before(step_key(next)),
            old(self).all_present() ==> final(self).all_present(),
    {
        let vendor = word_at(id, 0);
        let device_id = word_at(id, 2);
        let class_code = byte_at(class, 0x0B);
        let subclass = byte_at(class, 0x0A);
        let prog_if = byte_at(class, 0x09);
        let revision = byte_at(class, 0x08);
        let header = byte_at(hdr, 0x0E);
        proof {
            assert((0u8 & 2) * 8 == 0 && (2u8 & 2) * 8 == 16) by (bit_vector);
            assert((0x0Bu8 & 3) * 8 == 24 && (0x0Au8 & 3) * 8 == 16 && (0x09u8 & 3) * 8 == 8
                && (0x08u8 & 3) * 8 == 0 && (0x0Eu8 & 3) * 8 == 16) by (bit_vector);
        }
        let ghost before = self.devices@;
        match PciDeviceInfo::from_config(bus, device, func, vendor, device_id, class_code, subclass, prog_if, revision, header) {
            Some(d) => self.record(d),
            None => {},
        }
        let next = if func < last {
            ScanStep::Function { bus, device, func: func + 1, last }
        } else if device < 31 {
            ScanStep::Header { bus, device: device + 1 }
        } else if bus < 255 {
            ScanStep::Header { bus: bus + 1, device: 0 }
        } else {
            ScanStep::Done
        };
        proof {
            let k = slot_key(bus as int, device as int, func as int);
            assert(k < 65536);
            if old(self).in_scan_order() && old(self).all_before(k) {
                assert forall|i: int| 0 <= i < self.devices@.len() implies device_key(#[trigger] self.devices@[i]) < step_key(next) by {
                    if i < before.len() {
                        assert(self.devices@[i] == before[i]);
                    }
                }
                assert forall|i: int, j: int| 0 <= i < j < self.devices@.len()
                    implies device_key(#[trigger] self.devices@[i]) < device_key(#[trigger] self.devices@[j]) by {
                    assert(self.devices@[i] == before[i]);
                    if j < before.len() {
                        assert(self.devices@[j] == before[j]);
                    }
                }
            }
            if old(self).all_present() {
                assert forall|i: int| 0 <= i < self.devices@.len() implies (#[trigger] self.devices@[i]).vendor_id != 0xFFFF by {
                    if i < before.len() {
                        assert(self.devices@[i] == before[i]);
                    }
                }
            }
        }
        next
    }

    /// A copy of the device list.
    pub fn device_list(&self) -> (v: Vec<PciDeviceInfo>)
        ensures
            v@ == self.devices@,
    {
        let mut v: Vec<PciDeviceInfo> = Vec::new();
        let mut i: usize = 0;
        while i < self.devices.len()
            invariant
                i <= self.devices@.len(),
                v@ == self.devices@.subrange(0, i as int),
            decreases self.devices@.len() - i,
        {
            v.push(self.devices[i]);
            i = i + 1;
            assert(v@ =~= self.devices@.subrange(0, i as int));
        }
        assert(self.devices@.subrange(0, self.devices@.len() as int) =~= self.devices@);
        v
    }

    /// The device report written to the serial port: a count line, then one
    /// indented line per device.
    pub fn print_devices(&self) -> (text: Vec<u8>)
        ensures
            text@ == seq![80u8, 67u8, 73u8, 32u8, 100u8, 101u8, 118u8, 105u8, 99u8, 101u8, 32u8, 108u8,
                105u8, 115u8, 116u8, 32u8, 40u8] + dec_digits(self.devices@.len())
                + seq![32u8, 100u8, 101u8, 118u8, 105u8, 99u8, 101u8, 115u8, 41u8, 58u8, 10u8]
                + report_lines(self.devices@),
    {
        let mut out: Vec<u8> = Vec::new();
        let head: [u8; 17] = [80, 67, 73, 32, 100, 101, 118, 105, 99, 101, 32, 108, 105, 115, 116, 32, 40];
        push_bytes(&mut out, &head);
        push_dec(&mut out, self.devices.len() as u64);
        let tail: [u8; 11] = [32, 100, 101, 118, 105, 99, 101, 115, 41, 58, 10];
        push_bytes(&mut out, &tail);
        let ghost start = out@;
        let mut i: usize = 0;
        while i < self.devices.len()
            invariant
                i <= self.devices@.len(),
                out@ == start + report_lines(self.devices@.subrange(0, i as int)),
            decreases self.devices@.len() - i,
        {
            let d = self.devices[i];
            out.push(32);
            out.push(32);
            push_device(&mut out, &d);
            out.push(10);
            proof {
                let s = self.devices@.subrange(0, i + 1);
                assert(s.drop_last() =~= self.devices@.subrange(0, i as int));
                assert(out@ =~= start + report_lines(s));
            }
            i = i + 1;
        }
        proof {
            assert(self.devices@.subrange(0, self.devices@.len() as int) =~= self.devices@);
            assert(head@ =~= seq![80u8, 67u8, 73u8, 32u8, 100u8, 101u8, 118u8, 105u8, 99u8, 101u8, 32u8, 108u8,
                105u8, 115u8, 116u8, 32u8, 40u8]);
            assert(tail@ =~= seq![32u8, 100u8, 101u8, 118u8, 105u8, 99u8, 101u8, 115u8, 41u8, 58u8, 10u8]);
            assert(out@ =~= head@ + dec_digits(self.devices@.len()) + tail@ + report_lines(self.devices@));
        }
        out
    }
}

/// What the self-test finds wrong with one recorded device: a vendor or device
/// identifier of all ones, or a reserved class code.
pub fn device_failures(d: &PciDeviceInfo) -> (n: usize)
    ensures
        n == (if d.vendor_id == 0xFFFF { 1int } else { 0int })
            + (if d.device_id == 0xFFFF { 1int } else { 0int })
            + (if d.class_code == 0xFF || d.class_code == 0xFE { 1int } else { 0int }),
{
    let mut n: usize = 0;
    if d.vendor_id == 0xFFFF { n = n + 1; }
    if d.device_id == 0xFFFF { n = n + 1; }
    if d.class_code == 0xFF || d.class_code == 0xFE { n = n + 1; }
    n
}

/// Whether the BAR sizing test applies to a device: not to bridges (class 6)
/// nor multimedia devices (class 4).
pub fn bar_test_applies(d: &PciDeviceInfo) -> (r: bool)
    ensures
        r == (d.class_code != 0x06 && d.class_code != 0x04),
{
    d.class_code != 0x06 && d.class_code != 0x04
}

/// Whether a BAR read back after writing all ones shows a sized BAR.
pub fn bar_sized(sized_val: u32) -> (r: bool)
    ensures
        r == (sized_val != 0 && sized_val != 0xFFFF_FFFF),
{
    sized_val != 0 && sized_val != 0xFFFF_FFFF
}

/// Failures the self-test counts over the recorded devices.
pub open spec fn failures_over(ds: Seq<PciDeviceInfo>, rereads: Seq<u8>) -> int
    decreases ds.len(),
{
    if ds.len() == 0 {
        0
    } else {
        let d = ds.last();
        failures_over(ds.drop_last(), rereads.drop_last())
            + (if d.vendor_id == 0xFFFF { 1int } else { 0int })
            + (if d.device_id == 0xFFFF { 1int } else { 0int })
            + (if d.class_code == 0xFF || d.class_code == 0xFE { 1int } else { 0int })
            + (if rereads.last() & 0x7F != d.header_type { 1int } else { 0int })
    }
}

/// The PCI self-test's count of failures, from the recorded devices and what
/// re-reading the hardware gave: each device's header-type byte, the first
/// device's vendor, device and class registers, and the first device's BAR0
/// read back after writing all ones (when the BAR test applies to it). No
/// devices is a failure; so is each device with an all-ones identifier or a
/// reserved class, a header type that reads differently, a first device
/// whose registers read differently, and a BAR that did not size.
pub fn pci_self_test(devices: &Vec<PciDeviceInfo>, header_rereads: &Vec<u8>,
    first_reads: (u16, u16, u8), bar_value: u32) -> (failures: usize)
    requires
        header_rereads@.len() == devices@.len(),
        4 * devices@.len() + 3 <= usize::MAX,
    ensures
        failures == (if devices@.len() == 0 { 1int } else { 0int })
            + failures_over(devices@, header_rereads@)
            + (if devices@.len() > 0 && (first_reads.0 != devices@[0].vendor_id
                || first_reads.1 != devices@[0].device_id || first_reads.2 != devices@[0].class_code) { 1int } else { 0int })
            + (if devices@.len() > 0 && devices@[0].class_code != 0x06 && devices@[0].class_code != 0x04
                && !(bar_value != 0 && bar_value != 0xFFFF_FFFF) { 1int } else { 0int }),
{
    let mut failures: usize = 0;
    if devices.len() == 0 {
        failures = 1;
    }
    let ghost base = failures as int;
    let mut i: usize = 0;
    while i < devices.len()
        invariant
            i <= devices@.len(),
            header_rereads@.len() == devices@.len(),
            4 * devices@.len() + 3 <= usize::MAX,
            failures == base + failures_over(devices@.subrange(0, i as int), header_rereads@.subrange(0, i as int)),
            0 <= failures_over(devices@.subrange(0, i as int), header_rereads@.subrange(0, i as int)) <= 4 * i,
            base <= 1,
        decreases devices@.len() - i,
    {
        let d = devices[i];
        let hdr = header_rereads[i] & 0x7F;
        let mut n = device_failures(&d);
        if hdr != d.header_type {
            n = n + 1;
        }
        proof {
            let ds = devices@.subrange(0, i + 1);
            let rs = header_rereads@.subrange(0, i + 1);
            assert(ds.drop_last() =~= devices@.subrange(0, i as int));
            assert(rs.drop_last() =~= header_rereads@.subrange(0, i as int));
            assert(ds.last() == d && rs.last() == header_rereads@[i as int]);
        }
        failures = failures + n;
        i = i + 1;
    }
    assert(devices@.subrange(0, devices@.len() as int) =~= devices@);
    assert(header_rereads@.subrange(0, devices@.len() as int) =~= header_rereads@);
    if devices.len() > 0 {
        let first = devices[0];
        if first_reads.0 != first.vendor_id || first_reads.1 != first.device_id || first_reads.2 != first.class_code {
            failures = failures + 1;
        }
        if bar_test_applies(&first) && !bar_sized(bar_value) {
            failures = failures + 1;
        }
    }
    failures
}

} // verus!
