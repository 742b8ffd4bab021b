use coreos::bench::{BootStamps, Phase};
use coreos::console::{Console, FbAction};
use coreos::fmt::{log, log_dec, log_hex};
use coreos::heap::{alloc_size, class_for, large_pages, slot_link, slot_size};
use coreos::hw::pci::{config_address, byte_at, func_mask, word_at, PciDeviceInfo, PciDevices};
use coreos::hw::pit::{divisor_bytes, Pit};
use coreos::hw::rtc::{decode_bcd, is_updating, stable_time};
use coreos::loader::{
    after_allocation, boot_table_value, finish_load, kernel_entry_address, merge_top_level, pages_for,
    requested_size, setup_page_tables, AllocDecision, AllocOutcome, LoadSpec,
};

#[test]
fn log_lines_are_formatted() {
    assert_eq!(log(b"booting\n"), b"booting\n".to_vec());
    assert_eq!(log_hex(b"val=", 0xdead_beef), b"val=0x00000000deadbeef\n".to_vec());
    assert_eq!(log_hex(b"", u64::MAX), b"0xffffffffffffffff\n".to_vec());
    assert_eq!(log_dec(b"n=", 0), b"n=0\n".to_vec());
    assert_eq!(log_dec(b"n=", 1234), b"n=1234\n".to_vec());
    assert_eq!(log_dec(b"", u64::MAX), b"18446744073709551615\n".to_vec());
}

#[test]
fn rtc_values_decode() {
    assert_eq!(decode_bcd(0x59), 59);
    assert_eq!(decode_bcd(0x23), 23);
    assert_eq!(decode_bcd(0x00), 0);
    assert_eq!(stable_time((0x12, 0x34, 0x56), (0x12, 0x34, 0x56)), Some((12, 34, 56)));
    assert_eq!(stable_time((0x12, 0x34, 0x56), (0x12, 0x34, 0x57)), None);
    assert!(is_updating(0x80));
    assert!(!is_updating(0x7f));
}

#[test]
fn pci_registers_and_report() {
    assert_eq!(config_address(0, 3, 0, 0x10), 0x8000_1810);
    assert_eq!(config_address(0xff, 0x1f, 7, 0xff), 0x80FF_FFFC);
    assert_eq!(config_address(1, 0x20, 8, 3), 0x8001_0000);
    assert_eq!(word_at(0x1234_5678, 0), 0x5678);
    assert_eq!(word_at(0x1234_5678, 2), 0x1234);
    assert_eq!(byte_at(0x1234_5678, 1), 0x56);
    assert_eq!(byte_at(0x1234_5678, 3), 0x12);
    assert_eq!(func_mask(0x80), 7);
    assert_eq!(func_mask(0x00), 1);
    assert!(PciDeviceInfo::from_config(0, 1, 0, 0xFFFF, 0, 0, 0, 0, 0, 0).is_none());
    let d = PciDeviceInfo::from_config(0, 3, 0, 0x8086, 0x100e, 2, 0, 0, 3, 0x80).unwrap();
    assert_eq!(d.header_type, 0);
    let mut devs = PciDevices::new();
    assert!(devs.begin_scan());
    devs.record(d);
    assert!(!devs.begin_scan());
    assert_eq!(devs.device_list().len(), 1);
    let text = String::from_utf8(devs.print_devices()).unwrap();
    assert_eq!(text, "PCI device list (1 devices):\n  00:03.0  8086:100e  class=020000  rev=03\n");
}

#[test]
fn pit_counts_ticks() {
    assert_eq!(divisor_bytes(), (155, 46));
    let mut p = Pit::new();
    for _ in 0..250 {
        p.tick();
    }
    assert_eq!(p.ticks(), 250);
    assert_eq!(p.uptime_seconds(), 2);
    assert!(p.waited(100, 150));
    assert!(!p.waited(100, 151));
    let mut q = Pit { ticks: u64::MAX };
    q.tick();
    assert_eq!(q.ticks(), 0);
}

#[test]
fn loader_sizes_and_decisions() {
    assert_eq!(pages_for(0), 0);
    assert_eq!(pages_for(1), 1);
    assert_eq!(pages_for(4096), 1);
    assert_eq!(pages_for(4097), 2);
    assert_eq!(requested_size(10, &LoadSpec::kernel_with_extra(0x800_0000)), Some(0x800_000A));
    assert_eq!(requested_size(usize::MAX, &LoadSpec::kernel_with_extra(1)), None);
    assert_eq!(requested_size(7, &LoadSpec::asset()), Some(7));
    assert_eq!(after_allocation(0x100, 5, AllocOutcome::Granted(0x1000)), AllocDecision::Use(0x1000, 5));
    assert_eq!(after_allocation(0x100, 5, AllocOutcome::NoRoom), AllocDecision::RetryExact);
    assert_eq!(after_allocation(0, 5, AllocOutcome::NoRoom), AllocDecision::Fail);
    assert_eq!(after_allocation(0x100, 5, AllocOutcome::Failed), AllocDecision::Fail);
    let f = finish_load(0x1000, 8192, 100, 100).unwrap();
    assert_eq!((f.addr, f.file_size, f.allocation_size), (0x1000, 100, 8192));
    assert!(finish_load(0x1000, 8192, 100, 99).is_none());
    assert_eq!(kernel_entry_address(0x10_0000), 0xFFFF_FFFF_8010_0000);
}

#[test]
fn boot_page_tables_layout() {
    let base = 0x1000_0000u64;
    assert_eq!(boot_table_value(base, 0, 256), 0x1000_1003);
    assert_eq!(boot_table_value(base, 0, 511), 0x1000_6003);
    assert_eq!(boot_table_value(base, 0, 0), 0);
    assert_eq!(boot_table_value(base, 1, 2), 0x1000_4003);
    assert_eq!(boot_table_value(base, 1, 4), 0);
    assert_eq!(boot_table_value(base, 2, 1), 0x20_0083);
    assert_eq!(boot_table_value(base, 5, 511), 0xFFE0_0083);
    assert_eq!(boot_table_value(base, 6, 510), 0x1000_7003);
    assert_eq!(boot_table_value(base, 7, 3), 0x60_0083);
    let words = setup_page_tables(base);
    assert_eq!(words.len(), 4096);
    assert_eq!(words[256], 0x1000_1003);
    assert_eq!(words[2 * 512 + 1], 0x20_0083);
    assert_eq!(words[6 * 512 + 510], 0x1000_7003);
    let mut new_table = [0u64; 512];
    new_table[256] = 5;
    let mut old_table = [0u64; 512];
    old_table[0] = 9;
    old_table[256] = 7;
    merge_top_level(&mut new_table, &old_table);
    assert_eq!(new_table[0], 9);
    assert_eq!(new_table[256], 5);
    assert_eq!(new_table[1], 0);
}

#[test]
fn heap_size_classes() {
    assert_eq!(class_for(1), Some(0));
    assert_eq!(class_for(16), Some(0));
    assert_eq!(class_for(17), Some(1));
    assert_eq!(class_for(2048), Some(7));
    assert_eq!(class_for(2049), None);
    assert_eq!(slot_size(3), 128);
    assert_eq!(alloc_size(3, 1), 8);
    assert_eq!(alloc_size(20, 64), 64);
    assert_eq!(alloc_size(100, 8), 100);
    assert_eq!(large_pages(4096), 1);
    assert_eq!(large_pages(4097), 2);
    assert_eq!(slot_link(0x1000, 0, 0), (0x1000, 0x1010));
    assert_eq!(slot_link(0x1000, 0, 255), (0x1000 + 255 * 16, 0));
    assert_eq!(slot_link(0x1000, 7, 1), (0x1800, 0));
}

const FB: u64 = 0x8000_0000;
const FONT: u64 = 0x10_0000;

#[test]
fn console_cursor_and_actions() {
    let mut c = Console::new();
    assert_eq!(c.tty_winsize(1024, 768), (40, 123, 1024, 768));
    assert_eq!(c.write_byte(b'A', FB, FONT, 1024, 768), FbAction::Draw { ch: b'A', x: 20, y: 120 });
    assert_eq!((c.x, c.y), (28, 120));
    assert_eq!(c.write_byte(8, FB, FONT, 1024, 768), FbAction::Erase { x: 20, y: 120 });
    assert_eq!(c.write_byte(8, FB, FONT, 1024, 768), FbAction::Skip);
    assert_eq!(c.write_byte(b'\n', FB, FONT, 1024, 768), FbAction::Skip);
    assert_eq!((c.x, c.y), (20, 136));
    assert_eq!(c.write_byte(200, FB, FONT, 1024, 768), FbAction::Skip);
    c.set_userspace_cursor(20, 740);
    assert_eq!(c.write_byte(b'\n', FB, FONT, 1024, 768), FbAction::Clear);
    assert_eq!((c.x, c.y), (20, 120));
    c.set_font_scale(9);
    assert_eq!(c.get_font_scale(), 4);
    c.set_font_scale(0);
    assert_eq!(c.get_font_scale(), 1);
    assert_eq!(c.get_userspace_cursor_y(), 120);
}

#[test]
fn console_without_screen_leaves_cursor() {
    let mut c = Console::new();
    c.set_userspace_cursor(100, 200);
    assert_eq!(c.write_byte(b'A', FB, FONT, 0, 0), FbAction::Skip);
    assert_eq!((c.x, c.y), (100, 200));
    assert_eq!(c.write_byte(b'\n', 0, FONT, 1024, 768), FbAction::Skip);
    assert_eq!(c.write_byte(b'\n', FB, 0, 1024, 768), FbAction::Skip);
    assert_eq!((c.x, c.y), (100, 200));
    assert_eq!(c.write_byte(b'A', FB, FONT, 1024, 768), FbAction::Draw { ch: b'A', x: 100, y: 200 });
}

#[test]
fn boot_timing_report() {
    let mut b = BootStamps::new();
    b.set_bootloader_tsc(1000);
    b.stamp(Phase::KernelEntry, 1500);
    b.stamp(Phase::PmmDone, 1700);
    b.stamp(Phase::GdtDone, 2000);
    assert_eq!(b.bootloader_delta(), Some(500));
    assert_eq!(b.report_rows(), vec![(0, 500), (1, 200), (3, 300)]);
    assert_eq!(b.total(), Some(500));
    let text = String::from_utf8(b.report()).unwrap();
    let expected = "Boot timing (TSC cycles)\n------------------------\n\
bootloader \u{2192} kernel entry : 500 cycles\n\
kernel entry          : 500 cycles\n\
pmm init              : 200 cycles\n\
gdt init              : 300 cycles\n\
------------------------\n\
total kernel init         : 500 cycles\n";
    assert_eq!(text, expected);
    assert_eq!(Phase::RamfsDone.label(), "ramfs + elf load");
    assert_eq!(Phase::from_index(9), Phase::ShellReady);
    assert_eq!(Phase::ShellReady.index(), 9);
}
