use bootkit::io::pci::{
    check_all_buses_smart, check_bus, check_device, check_function, config_address, header_type,
    is_multi_function, nth_byte, select_word, ConfigRead, Frame, PciAddr, PciDeviceHeader, PciScan, PciStep, Stage,
    CONFIG_ADDRESS, CONFIG_DATA, NOT_A_VENDOR,
};
use std::collections::HashMap;

/// A configuration space: the registers of the functions that exist, by address.
struct Space {
    registers: HashMap<(u8, u8, u8, u8), u32>,
    reads: Vec<ConfigRead>,
}

impl Space {
    fn new() -> Space {
        Space { registers: HashMap::new(), reads: Vec::new() }
    }

    fn plug(&mut self, bus: u8, slot: u8, function: u8, vendor: u16, device: u16, class: u8, subclass: u8) {
        self.registers.insert((bus, slot, function, 0x00), (device as u32) << 16 | vendor as u32);
        self.registers.insert((bus, slot, function, 0x08), (class as u32) << 24 | (subclass as u32) << 16);
        self.registers.insert((bus, slot, function, 0x0C), 0);
        self.registers.insert((bus, slot, function, 0x18), 0);
    }

    fn read(&mut self, read: ConfigRead) -> u16 {
        self.reads.push(read);
        let address = config_address(read.addr.bus, read.addr.slot, read.addr.function, read.offset);
        let key = ((address >> 16) as u8, ((address >> 11) & 31) as u8, ((address >> 8) & 7) as u8, address as u8);
        let data = self.registers.get(&key).copied().unwrap_or(0xFFFF_FFFF);
        select_word(data, read.offset)
    }

    fn run(&mut self, mut scan: PciScan, limit: usize) -> Option<Vec<PciDeviceHeader>> {
        let mut answer = 0;
        for _ in 0..limit {
            match scan.next(answer) {
                PciStep::Read(read) => answer = self.read(read),
                PciStep::Idle => {}
                PciStep::Done => {
                    assert!(scan.is_done());
                    return Some(scan.found());
                }
            }
            assert!(!scan.is_done());
        }
        None
    }
}

fn at(bus: u8, slot: u8, function: u8) -> PciAddr {
    PciAddr { bus, slot, function }
}

#[test]
fn ports_are_the_usual_ones() {
    assert_eq!(CONFIG_ADDRESS, 0xCF8);
    assert_eq!(CONFIG_DATA, 0xCFC);
    assert_eq!(NOT_A_VENDOR, 0xFFFF);
}

#[test]
fn byte_of_a_word_is_counted_from_the_low_end() {
    assert_eq!(nth_byte(0xABCD, 0), 0xCD);
    assert_eq!(nth_byte(0xABCD, 1), 0xAB);
    assert_eq!(nth_byte(0x00FF, 1), 0);
    assert_eq!(nth_byte(0xFF00, 0), 0);
}

#[test]
fn register_address_packs_bus_device_function_and_offset() {
    assert_eq!(config_address(0, 0, 0, 0), 0x8000_0000);
    assert_eq!(config_address(1, 2, 3, 4), 0x8001_1304);
    assert_eq!(config_address(255, 31, 7, 0xFF), 0x80FF_FFFC);
    assert_eq!(config_address(0, 3, 0, 0x0E), 0x8000_180C);
}

#[test]
fn register_address_does_not_cut_device_and_function() {
    assert_eq!(config_address(0, 32, 0, 0), 0x8001_0000);
    assert_eq!(config_address(0, 0, 8, 0), 0x8000_0800);
}

#[test]
fn word_is_picked_by_bit_one_of_the_offset() {
    assert_eq!(select_word(0x1234_5678, 0), 0x5678);
    assert_eq!(select_word(0x1234_5678, 1), 0x5678);
    assert_eq!(select_word(0x1234_5678, 2), 0x1234);
    assert_eq!(select_word(0x1234_5678, 3), 0x1234);
    assert_eq!(select_word(0x1234_5678, 0x0E), 0x1234);
    assert_eq!(select_word(0x1234_5678, 0x19), 0x5678);
}

#[test]
fn header_type_keeps_four_bits_so_several_functions_are_never_seen() {
    assert_eq!(header_type(0x0081), 0x01);
    assert_eq!(header_type(0xFFFF), 0x0F);
    assert!(!is_multi_function(header_type(0x0080)));
    assert!(is_multi_function(0x80));
    assert!(!is_multi_function(0x7F));
}

#[test]
fn function_that_is_no_bridge_is_recorded() {
    let mut space = Space::new();
    space.plug(0, 3, 0, 0x10ec, 0x8139, 0x02, 0x00);
    let found = space.run(check_function(0, 3, 0), 100).unwrap();
    assert_eq!(
        found,
        vec![PciDeviceHeader { device_id: 0x8139, vendor_id: 0x10ec, class: 0x02, subclass: 0x00, addr: at(0, 3, 0) }]
    );
    let offsets: Vec<u8> = space.reads.iter().map(|r| r.offset).collect();
    assert_eq!(offsets, vec![0x0B, 0x0A, 0x00, 0x02]);
    assert!(space.reads.iter().all(|r| r.addr == at(0, 3, 0)));
}

#[test]
fn device_without_a_vendor_is_left_after_one_read() {
    let mut space = Space::new();
    let found = space.run(check_device(0, 5), 100).unwrap();
    assert_eq!(found, vec![]);
    assert_eq!(space.reads, vec![ConfigRead { addr: at(0, 5, 0), offset: 0 }]);
}

#[test]
fn device_with_a_vendor_has_its_first_function_looked_at() {
    let mut space = Space::new();
    space.plug(2, 7, 0, 0x8086, 0x1237, 0x06, 0x00);
    space.plug(2, 7, 1, 0x8086, 0x7000, 0x06, 0x01);
    let found = space.run(check_device(2, 7), 100).unwrap();
    assert_eq!(
        found,
        vec![PciDeviceHeader { device_id: 0x1237, vendor_id: 0x8086, class: 0x06, subclass: 0x00, addr: at(2, 7, 0) }]
    );
    let offsets: Vec<u8> = space.reads.iter().map(|r| r.offset).collect();
    assert_eq!(offsets, vec![0x00, 0x0B, 0x0A, 0x00, 0x02, 0x0E]);
}

#[test]
fn bus_is_gone_through_from_device_0_to_31() {
    let mut space = Space::new();
    space.plug(0, 0, 0, 0x8086, 0x1237, 0x06, 0x00);
    space.plug(0, 1, 0, 0x8086, 0x7000, 0x06, 0x01);
    space.plug(0, 3, 0, 0x10ec, 0x8139, 0x02, 0x00);
    space.plug(0, 31, 0, 0x1234, 0x1111, 0x03, 0x00);
    space.plug(1, 4, 0, 0x1af4, 0x1000, 0x02, 0x00);
    let found = space.run(check_bus(0), 10_000).unwrap();
    let slots: Vec<u8> = found.iter().map(|h| h.addr.slot).collect();
    assert_eq!(slots, vec![0, 1, 3, 31]);
    assert_eq!(found[2].device_id, 0x8139);
    assert_eq!(found[2].vendor_id, 0x10ec);
    let probed: Vec<u8> =
        space.reads.iter().filter(|r| r.offset == 0).map(|r| r.addr.slot).collect::<Vec<u8>>();
    let mut first_probe = probed.clone();
    first_probe.dedup();
    assert_eq!(first_probe, (0..32).collect::<Vec<u8>>());
    assert!(space.reads.iter().all(|r| r.addr.bus == 0));
}

#[test]
fn whole_walk_goes_through_bus_0() {
    let mut space = Space::new();
    space.plug(0, 0, 0, 0x8086, 0x1237, 0x06, 0x00);
    space.plug(0, 2, 0, 0x1234, 0x1111, 0x03, 0x00);
    let found = space.run(check_all_buses_smart(), 10_000).unwrap();
    assert_eq!(
        found,
        vec![
            PciDeviceHeader { device_id: 0x1237, vendor_id: 0x8086, class: 6, subclass: 0, addr: at(0, 0, 0) },
            PciDeviceHeader { device_id: 0x1111, vendor_id: 0x1234, class: 3, subclass: 0, addr: at(0, 2, 0) },
        ]
    );
    assert_eq!(space.reads[0], ConfigRead { addr: at(0, 0, 0), offset: 0x0E });
}

#[test]
fn bridge_is_replaced_by_the_bus_it_names() {
    let mut space = Space::new();
    space.plug(0, 1, 0, 0x8086, 0x244e, 0x06, 0x04);
    // The byte read for the bus behind the bridge is the low byte of the register at 0x18.
    space.registers.insert((0, 1, 0, 0x18), 0x0000_0205);
    space.plug(5, 9, 0, 0x1af4, 0x1000, 0x02, 0x00);
    let found = space.run(check_function(0, 1, 0), 10_000).unwrap();
    assert_eq!(
        found,
        vec![PciDeviceHeader { device_id: 0x1000, vendor_id: 0x1af4, class: 2, subclass: 0, addr: at(5, 9, 0) }]
    );
    assert_eq!(space.reads[3], ConfigRead { addr: at(0, 1, 0), offset: 0x19 });
}

#[test]
fn bridge_that_names_its_own_bus_never_ends() {
    let mut space = Space::new();
    space.plug(0, 1, 0, 0x8086, 0x244e, 0x06, 0x04);
    assert_eq!(space.run(check_bus(0), 50_000), None);
}

#[test]
fn walk_without_visits_is_over() {
    let mut scan = check_function(0, 0, 0);
    let mut space = Space::new();
    space.plug(0, 0, 0, 1, 2, 3, 4);
    let mut answer = 0;
    loop {
        match scan.next(answer) {
            PciStep::Read(read) => answer = space.read(read),
            PciStep::Idle => {}
            PciStep::Done => break,
        }
    }
    assert_eq!(scan.next(0x1234), PciStep::Done);
    assert_eq!(scan.found().len(), 1);
}

#[test]
fn host_controller_with_several_functions_would_give_a_bus_per_function() {
    // The stage is reached only where a header type has its top bit set.
    let frame = Frame { stage: Stage::RootVendor, addr: at(0, 0, 3), class: 0, subclass: 0, vendor: 0 };
    let present = frame.advance(0x8086);
    assert_eq!(present.call, Some(Frame { stage: Stage::Bus, addr: at(3, 0, 0), class: 0, subclass: 0, vendor: 0 }));
    assert_eq!(present.keep.unwrap().addr, at(0, 0, 4));
    assert_eq!(present.keep.unwrap().stage, Stage::RootFunctions);
    let absent = frame.advance(NOT_A_VENDOR);
    assert_eq!(absent.call, None);
    assert_eq!(absent.keep, present.keep);
    let end = Frame { stage: Stage::RootFunctions, addr: at(0, 0, 8), class: 0, subclass: 0, vendor: 0 };
    assert_eq!(end.advance(0).keep, None);
    assert_eq!(end.advance(0).read, None);
}

#[test]
fn device_with_several_functions_would_have_functions_1_to_7_probed() {
    let header = Frame { stage: Stage::DeviceHeaderType, addr: at(1, 2, 0), class: 0, subclass: 0, vendor: 0 };
    // Whatever the word, four bits are kept, so the top bit is never seen.
    assert_eq!(header.advance(0x0080).keep, None);
    assert_eq!(header.advance(0xFFFF).keep, None);
    let probing = Frame { stage: Stage::DeviceFunctions, addr: at(1, 2, 1), class: 0, subclass: 0, vendor: 0 };
    let asked = probing.advance(0);
    assert_eq!(asked.read, Some(ConfigRead { addr: at(1, 2, 1), offset: 0 }));
    let answered = asked.keep.unwrap().advance(0x1234);
    assert_eq!(answered.call.unwrap().stage, Stage::Function);
    assert_eq!(answered.call.unwrap().addr, at(1, 2, 1));
    assert_eq!(answered.keep.unwrap().addr, at(1, 2, 2));
}
