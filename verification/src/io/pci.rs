//! Enumeration of the PCI bus. The walk over buses, devices and functions is
//! a machine that asks for one configuration word at a time; reading the word
//! from the hardware is the caller's part.
use vstd::prelude::*;

verus! {

/// Vendor code that an empty slot answers with.
pub const NOT_A_VENDOR: u16 = 0xFFFF;

/// Port that takes the address of a configuration register.
pub const CONFIG_ADDRESS: u16 = 0xCF8;

/// Port that gives the register's contents.
pub const CONFIG_DATA: u16 = 0xCFC;

/// Offset of the vendor code in configuration space.
pub const VENDOR_ID: u8 = 0x00;

/// Offset of the device code.
pub const DEVICE_ID: u8 = 0x02;

/// Offset read for the sub-class.
pub const SUB_CLASS: u8 = 0x0A;

/// Offset read for the base class.
pub const BASE_CLASS: u8 = 0x0B;

/// Offset read for the header type.
pub const HEADER_TYPE: u8 = 0x0E;

/// Offset read for the bus behind a bridge.
pub const SECONDARY_BUS: u8 = 0x19;

/// Base class of a bridge.
pub const CLASS_BRIDGE: u8 = 0x06;

/// Sub-class of a bridge from one PCI bus to another.
pub const SUBCLASS_PCI_BRIDGE: u8 = 0x04;

/// Bit of a header type that marks a device with several functions.
pub const MULTI_FUNCTION: u8 = 0x80;

/// Devices on one bus.
pub const DEVICES: u8 = 32;

/// Functions of one device.
pub const FUNCTIONS: u8 = 8;

/// Where a function sits: bus, slot on the bus, function in the slot.
#[derive(Clone, Copy, Debug, PartialEq, Eq, Structural)]
pub struct PciAddr {
    pub bus: u8,
    pub slot: u8,
    pub function: u8,
}

/// What the walk records of a function it found.
#[derive(Clone, Copy, Debug, PartialEq, Eq, Structural)]
pub struct PciDeviceHeader {
    pub device_id: u16,
    pub vendor_id: u16,
    pub class: u8,
    pub subclass: u8,
    pub addr: PciAddr,
}

/// One configuration word to read: the word at `offset` of the function at
/// `addr`.
#[derive(Clone, Copy, Debug, PartialEq, Eq, Structural)]
pub struct ConfigRead {
    pub addr: PciAddr,
    pub offset: u8,
}

/// Byte `n` of a word, counted from the low end.
pub open spec fn spec_nth_byte(word: u16, n: usize) -> u8 {
    if n == 0 {
        (word % 256) as u8
    } else {
        (word / 256) as u8
    }
}

#[verifier::when_used_as_spec(spec_nth_byte)]
pub fn nth_byte(word: u16, n: usize) -> (byte: u8)
    requires
        n < 2,
    ensures
        byte == spec_nth_byte(word, n),
{
    if n == 0 {
        assert((word >> 0) & 0xFF == word % 256) by (bit_vector);
        ((word >> 0) & 0xFF) as u8
    } else {
        assert((word >> 8) & 0xFF == word / 256) by (bit_vector);
        ((word >> 8) & 0xFF) as u8
    }
}

/// The value to write to the address port to select the register that holds
/// the word at `offset`: the enable bit, then bus, device and function, then
/// the offset cut down to a multiple of four. A device number above 31 or a
/// function number above 7 runs into the field above it.
pub open spec fn spec_config_address(bus: u8, device: u8, func: u8, offset: u8) -> u32 {
    ((bus as u32) << 16) | ((device as u32) << 11) | ((func as u32) << 8) | ((offset & 0xFC) as u32) | 0x80000000u32
}

#[verifier::when_used_as_spec(spec_config_address)]
pub fn config_address(bus: u8, device: u8, func: u8, offset: u8) -> (address: u32)
    ensures
        address == spec_config_address(bus, device, func, offset),
        device < 32 && func < 8 ==> address == 0x80000000 + bus * 0x10000 + device * 0x800 + func * 0x100 + (offset
            - offset % 4),
{
    let lbus = bus as u32;
    let lslot = device as u32;
    let lfunc = func as u32;
    assert(device < 32 && func < 8 ==> ((bus as u32) << 16) | ((device as u32) << 11) | ((func as u32) << 8) | ((
    offset & 0xFC) as u32) | 0x80000000u32 == 0x80000000 + bus * 0x10000 + device * 0x800 + func * 0x100 + (
    offset - offset % 4)) by (bit_vector);
    (lbus << 16) | (lslot << 11) | (lfunc << 8) | ((offset & 0xFC) as u32) | 0x80000000u32
}

/// The word at `offset` within the register read from the data port: the
/// high half where bit 1 of the offset is set, else the low half.
pub open spec fn spec_select_word(data: u32, offset: u8) -> u16 {
    if (offset / 2) % 2 == 1 {
        (data / 0x10000) as u16
    } else {
        (data % 0x10000) as u16
    }
}

#[verifier::when_used_as_spec(spec_select_word)]
pub fn select_word(data: u32, offset: u8) -> (word: u16)
    ensures
        word == spec_select_word(data, offset),
{
    assert(offset & 2 == if (offset / 2) % 2 == 1 {
        2u8
    } else {
        0u8
    }) by (bit_vector);
    let shift = (offset & 2) * 8;
    assert((data >> 16) & 0xFFFF == data / 0x10000) by (bit_vector);
    assert((data >> 0) & 0xFFFF == data % 0x10000) by (bit_vector);
    ((data >> shift) & 0xFFFF) as u16
}

/// The header type as the walk sees it: the low four bits of the word read
/// at the header type's offset.
pub open spec fn spec_header_type(word: u16) -> u8 {
    (word % 16) as u8
}

#[verifier::when_used_as_spec(spec_header_type)]
pub fn header_type(word: u16) -> (kind: u8)
    ensures
        kind == spec_header_type(word),
{
    assert(word & 0x0F == word % 16) by (bit_vector);
    (word & 0x0F) as u8
}

/// Whether a header type marks a device with several functions.
pub open spec fn spec_is_multi_function(kind: u8) -> bool {
    kind >= 128
}

#[verifier::when_used_as_spec(spec_is_multi_function)]
pub fn is_multi_function(kind: u8) -> (multi: bool)
    ensures
        multi == spec_is_multi_function(kind),
{
    assert((kind & 0x80 != 0) == (kind >= 128)) by (bit_vector);
    (kind & MULTI_FUNCTION) != 0
}

/// Where the walk stands inside one of its visits.
#[derive(Clone, Copy, Debug, PartialEq, Eq, Structural)]
pub enum Stage {
    /// The whole walk, not yet begun.
    Root,
    /// The whole walk awaits the header type of the host controller.
    RootHeaderType,
    /// The whole walk goes through the functions of the host controller.
    RootFunctions,
    /// The whole walk awaits the vendor of one function of the host controller.
    RootVendor,
    /// A bus is gone through, device by device.
    Bus,
    /// A device, not yet looked at.
    Device,
    /// A device awaits the vendor of its first function.
    DeviceVendor,
    /// A device whose first function was looked at.
    DeviceRest,
    /// A device awaits its header type.
    DeviceHeaderType,
    /// A device goes through its further functions.
    DeviceFunctions,
    /// A device awaits the vendor of one of its further functions.
    DeviceFunctionVendor,
    /// A function, not yet looked at.
    Function,
    /// A function awaits its base class.
    FunctionClass,
    /// A function awaits its sub-class.
    FunctionSubclass,
    /// A function awaits its vendor.
    FunctionVendor,
    /// A bridge awaits the number of the bus behind it.
    FunctionSecondary,
    /// A function awaits its device code.
    FunctionDevice,
}

/// One visit of the walk and what it has learnt so far.
#[derive(Clone, Copy, Debug, PartialEq, Eq, Structural)]
pub struct Frame {
    pub stage: Stage,
    pub addr: PciAddr,
    pub class: u8,
    pub subclass: u8,
    pub vendor: u16,
}

/// What one move of a visit comes to.
#[derive(Clone, Copy, Debug, PartialEq, Eq, Structural)]
pub struct Outcome {
    /// The visit as it goes on; `None` where it is finished.
    pub keep: Option<Frame>,
    /// A visit to carry out before the first goes on.
    pub call: Option<Frame>,
    /// A function found.
    pub found: Option<PciDeviceHeader>,
    /// The word that the next move needs.
    pub read: Option<ConfigRead>,
}

/// What the walk asks of its caller.
#[derive(Clone, Copy, Debug, PartialEq, Eq, Structural)]
pub enum PciStep {
    /// Read this word and hand it to the next move.
    Read(ConfigRead),
    /// Move again; no word is needed.
    Idle,
    /// The walk is over.
    Done,
}

impl Frame {
    /// A visit at `addr` that has learnt nothing yet.
    pub open spec fn spec_at(stage: Stage, addr: PciAddr) -> Frame {
        Frame { stage, addr, class: 0, subclass: 0, vendor: 0 }
    }

    #[verifier::when_used_as_spec(spec_at)]
    pub fn at(stage: Stage, addr: PciAddr) -> (frame: Frame)
        ensures
            frame == Frame::spec_at(stage, addr),
    {
        Frame { stage, addr, class: 0, subclass: 0, vendor: 0 }
    }

    /// The same visit at another stage.
    pub open spec fn spec_to(self, stage: Stage) -> Frame {
        Frame { stage, ..self }
    }

    #[verifier::when_used_as_spec(spec_to)]
    pub fn to(self, stage: Stage) -> (frame: Frame)
        ensures
            frame == self.spec_to(stage),
    {
        Frame { stage, ..self }
    }

    /// The word at `offset` of this visit's function.
    pub open spec fn spec_word(self, offset: u8) -> ConfigRead {
        ConfigRead { addr: self.addr, offset }
    }

    #[verifier::when_used_as_spec(spec_word)]
    pub fn word(self, offset: u8) -> (read: ConfigRead)
        ensures
            read == self.spec_word(offset),
    {
        ConfigRead { addr: self.addr, offset }
    }

    /// One move of a visit. `answer` is the word last asked for; a stage that
    /// awaits none does not look at it.
    ///
    /// The whole walk reads the header type of function 0 of device 0 on
    /// bus 0. With one host controller it goes through bus 0; with several,
    /// through the bus numbered like each function of that device that has a
    /// vendor.
    ///
    /// A bus is gone through from device 0 to 31.
    ///
    /// A device whose first function has no vendor is left at once. Else the
    /// first function is looked at, then the header type is read, and where
    /// it marks several functions, each of functions 1 to 7 that has a vendor
    /// is looked at.
    ///
    /// A function has its base class, sub-class and vendor read. A bridge to
    /// another PCI bus has the bus number behind it read, and that bus is gone
    /// through in its place. Any other function has its device code read and
    /// is recorded.
    pub open spec fn transition(self, answer: u16) -> Outcome {
        let idle = Outcome { keep: None, call: None, found: None, read: None };
        match self.stage {
            Stage::Root => Outcome {
                keep: Some(self.spec_to(Stage::RootHeaderType)),
                read: Some(self.spec_word(HEADER_TYPE)),
                ..idle
            },
            Stage::RootHeaderType => if !spec_is_multi_function(spec_header_type(answer)) {
                Outcome { keep: Some(Frame::spec_at(Stage::Bus, PciAddr { bus: 0, slot: 0, function: 0 })), ..idle }
            } else {
                Outcome { keep: Some(self.spec_to(Stage::RootFunctions)), ..idle }
            },
            Stage::RootFunctions => if self.addr.function >= FUNCTIONS {
                idle
            } else {
                Outcome {
                    keep: Some(self.spec_to(Stage::RootVendor)),
                    read: Some(self.spec_word(VENDOR_ID)),
                    ..idle
                }
            },
            Stage::RootVendor => {
                let next = Frame {
                    stage: Stage::RootFunctions,
                    addr: PciAddr { function: self.addr.function.wrapping_add(1), ..self.addr },
                    ..self
                };
                if answer != NOT_A_VENDOR {
                    Outcome {
                        keep: Some(next),
                        call: Some(
                            Frame::spec_at(Stage::Bus, PciAddr { bus: self.addr.function, slot: 0, function: 0 }),
                        ),
                        ..idle
                    }
                } else {
                    Outcome { keep: Some(next), ..idle }
                }
            },
            Stage::Bus => if self.addr.slot >= DEVICES {
                idle
            } else {
                Outcome {
                    keep: Some(
                        Frame { addr: PciAddr { slot: self.addr.slot.wrapping_add(1), ..self.addr }, ..self },
                    ),
                    call: Some(Frame::spec_at(Stage::Device, PciAddr { function: 0, ..self.addr })),
                    ..idle
                }
            },
            Stage::Device => Outcome {
                keep: Some(self.spec_to(Stage::DeviceVendor)),
                read: Some(self.spec_word(VENDOR_ID)),
                ..idle
            },
            Stage::DeviceVendor => if answer == NOT_A_VENDOR {
                idle
            } else {
                Outcome {
                    keep: Some(self.spec_to(Stage::DeviceRest)),
                    call: Some(Frame::spec_at(Stage::Function, self.addr)),
                    ..idle
                }
            },
            Stage::DeviceRest => Outcome {
                keep: Some(self.spec_to(Stage::DeviceHeaderType)),
                read: Some(self.spec_word(HEADER_TYPE)),
                ..idle
            },
            Stage::DeviceHeaderType => if spec_is_multi_function(spec_header_type(answer)) {
                Outcome {
                    keep: Some(
                        Frame { stage: Stage::DeviceFunctions, addr: PciAddr { function: 1, ..self.addr }, ..self },
                    ),
                    ..idle
                }
            } else {
                idle
            },
            Stage::DeviceFunctions => if self.addr.function >= FUNCTIONS {
                idle
            } else {
                Outcome {
                    keep: Some(self.spec_to(Stage::DeviceFunctionVendor)),
                    read: Some(self.spec_word(VENDOR_ID)),
                    ..idle
                }
            },
            Stage::DeviceFunctionVendor => {
                let next = Frame {
                    stage: Stage::DeviceFunctions,
                    addr: PciAddr { function: self.addr.function.wrapping_add(1), ..self.addr },
                    ..self
                };
                if answer != NOT_A_VENDOR {
                    Outcome { keep: Some(next), call: Some(Frame::spec_at(Stage::Function, self.addr)), ..idle }
                } else {
                    Outcome { keep: Some(next), ..idle }
                }
            },
            Stage::Function => Outcome {
                keep: Some(self.spec_to(Stage::FunctionClass)),
                read: Some(self.spec_word(BASE_CLASS)),
                ..idle
            },
            Stage::FunctionClass => Outcome {
                keep: Some(Frame { stage: Stage::FunctionSubclass, class: spec_nth_byte(answer, 1), ..self }),
                read: Some(self.spec_word(SUB_CLASS)),
                ..idle
            },
            Stage::FunctionSubclass => Outcome {
                keep: Some(Frame { stage: Stage::FunctionVendor, subclass: spec_nth_byte(answer, 0), ..self }),
                read: Some(self.spec_word(VENDOR_ID)),
                ..idle
            },
            Stage::FunctionVendor => if self.class == CLASS_BRIDGE && self.subclass == SUBCLASS_PCI_BRIDGE {
                Outcome {
                    keep: Some(Frame { stage: Stage::FunctionSecondary, vendor: answer, ..self }),
                    read: Some(self.spec_word(SECONDARY_BUS)),
                    ..idle
                }
            } else {
                Outcome {
                    keep: Some(Frame { stage: Stage::FunctionDevice, vendor: answer, ..self }),
                    read: Some(self.spec_word(DEVICE_ID)),
                    ..idle
                }
            },
            Stage::FunctionSecondary => Outcome {
                keep: Some(
                    Frame::spec_at(Stage::Bus, PciAddr { bus: spec_nth_byte(answer, 0), slot: 0, function: 0 }),
                ),
                ..idle
            },
            Stage::FunctionDevice => Outcome {
                found: Some(
                    PciDeviceHeader {
                        device_id: answer,
                        vendor_id: self.vendor,
                        class: self.class,
                        subclass: self.subclass,
                        addr: self.addr,
                    },
                ),
                ..idle
            },
        }
    }

    /// Makes one move of a visit.
    pub fn advance(self, answer: u16) -> (outcome: Outcome)
        ensures
            outcome == self.transition(answer),
    {
        let idle = Outcome { keep: None, call: None, found: None, read: None };
        match self.stage {
            Stage::Root => Outcome {
                keep: Some(self.to(Stage::RootHeaderType)),
                read: Some(self.word(HEADER_TYPE)),
                ..idle
            },
            Stage::RootHeaderType => if !is_multi_function(header_type(answer)) {
                Outcome { keep: Some(Frame::at(Stage::Bus, PciAddr { bus: 0, slot: 0, function: 0 })), ..idle }
            } else {
                Outcome { keep: Some(self.to(Stage::RootFunctions)), ..idle }
            },
            Stage::RootFunctions => if self.addr.function >= FUNCTIONS {
                idle
            } else {
                Outcome { keep: Some(self.to(Stage::RootVendor)), read: Some(self.word(VENDOR_ID)), ..idle }
            },
            Stage::RootVendor => {
                let next = Frame {
                    stage: Stage::RootFunctions,
                    addr: PciAddr { function: self.addr.function.wrapping_add(1), ..self.addr },
                    ..self
                };
                if answer != NOT_A_VENDOR {
                    Outcome {
                        keep: Some(next),
                        call: Some(Frame::at(Stage::Bus, PciAddr { bus: self.addr.function, slot: 0, function: 0 })),
                        ..idle
                    }
                } else {
                    Outcome { keep: Some(next), ..idle }
                }
            },
            Stage::Bus => if self.addr.slot >= DEVICES {
                idle
            } else {
                Outcome {
                    keep: Some(
                        Frame { addr: PciAddr { slot: self.addr.slot.wrapping_add(1), ..self.addr }, ..self },
                    ),
                    call: Some(Frame::at(Stage::Device, PciAddr { function: 0, ..self.addr })),
                    ..idle
                }
            },
            Stage::Device => Outcome {
                keep: Some(self.to(Stage::DeviceVendor)),
                read: Some(self.word(VENDOR_ID)),
                ..idle
            },
            Stage::DeviceVendor => if answer == NOT_A_VENDOR {
                idle
            } else {
                Outcome {
                    keep: Some(self.to(Stage::DeviceRest)),
                    call: Some(Frame::at(Stage::Function, self.addr)),
                    ..idle
                }
            },
            Stage::DeviceRest => Outcome {
                keep: Some(self.to(Stage::DeviceHeaderType)),
                read: Some(self.word(HEADER_TYPE)),
                ..idle
            },
            Stage::DeviceHeaderType => if is_multi_function(header_type(answer)) {
                Outcome {
                    keep: Some(
                        Frame { stage: Stage::DeviceFunctions, addr: PciAddr { function: 1, ..self.addr }, ..self },
                    ),
                    ..idle
                }
            } else {
                idle
            },
            Stage::DeviceFunctions => if self.addr.function >= FUNCTIONS {
                idle
            } else {
                Outcome {
                    keep: Some(self.to(Stage::DeviceFunctionVendor)),
                    read: Some(self.word(VENDOR_ID)),
                    ..idle
                }
            },
            Stage::DeviceFunctionVendor => {
                let next = Frame {
                    stage: Stage::DeviceFunctions,
                    addr: PciAddr { function: self.addr.function.wrapping_add(1), ..self.addr },
                    ..self
                };
                if answer != NOT_A_VENDOR {
                    Outcome { keep: Some(next), call: Some(Frame::at(Stage::Function, self.addr)), ..idle }
                } else {
                    Outcome { keep: Some(next), ..idle }
                }
            },
            Stage::Function => Outcome {
                keep: Some(self.to(Stage::FunctionClass)),
                read: Some(self.word(BASE_CLASS)),
                ..idle
            },
            Stage::FunctionClass => Outcome {
                keep: Some(Frame { stage: Stage::FunctionSubclass, class: nth_byte(answer, 1), ..self }),
                read: Some(self.word(SUB_CLASS)),
                ..idle
            },
            Stage::FunctionSubclass => Outcome {
                keep: Some(Frame { stage: Stage::FunctionVendor, subclass: nth_byte(answer, 0), ..self }),
                read: Some(self.word(VENDOR_ID)),
                ..idle
            },
            Stage::FunctionVendor => if self.class == CLASS_BRIDGE && self.subclass == SUBCLASS_PCI_BRIDGE {
                Outcome {
                    keep: Some(Frame { stage: Stage::FunctionSecondary, vendor: answer, ..self }),
                    read: Some(self.word(SECONDARY_BUS)),
                    ..idle
                }
            } else {
                Outcome {
                    keep: Some(Frame { stage: Stage::FunctionDevice, vendor: answer, ..self }),
                    read: Some(self.word(DEVICE_ID)),
                    ..idle
                }
            },
            Stage::FunctionSecondary => Outcome {
                keep: Some(Frame::at(Stage::Bus, PciAddr { bus: nth_byte(answer, 0), slot: 0, function: 0 })),
                ..idle
            },
            Stage::FunctionDevice => Outcome {
                found: Some(
                    PciDeviceHeader {
                        device_id: answer,
                        vendor_id: self.vendor,
                        class: self.class,
                        subclass: self.subclass,
                        addr: self.addr,
                    },
                ),
                ..idle
            },
        }
    }
}

/// The state of a walk: the visits under way, innermost last, and the
/// functions found so far, in the order they were found.
pub ghost struct Walk {
    pub stack: Seq<Frame>,
    pub found: Seq<PciDeviceHeader>,
}

impl Walk {
    /// A walk that has one visit before it.
    pub open spec fn begin(visit: Frame) -> Walk {
        Walk { stack: seq![visit], found: Seq::empty() }
    }

    /// The walk after one move of its innermost visit: the visit is replaced by
    /// its continuation, if it has one; the visit it calls for, if any, goes
    /// on top; the function it found, if any, is recorded. A walk without
    /// visits stays as it is.
    pub open spec fn after(self, answer: u16) -> Walk {
        if self.stack.len() == 0 {
            self
        } else {
            let outcome = self.stack.last().transition(answer);
            let below = self.stack.drop_last();
            let kept = match outcome.keep {
                Some(frame) => below.push(frame),
                None => below,
            };
            let called = match outcome.call {
                Some(frame) => kept.push(frame),
                None => kept,
            };
            let found = match outcome.found {
                Some(header) => self.found.push(header),
                None => self.found,
            };
            Walk { stack: called, found }
        }
    }

    /// What the move asks of the caller: the word that the visit needs next,
    /// or nothing but another move, or, with no visit left, nothing more.
    pub open spec fn request(self, answer: u16) -> PciStep {
        if self.stack.len() == 0 {
            PciStep::Done
        } else {
            match self.stack.last().transition(answer).read {
                Some(read) => PciStep::Read(read),
                None => if self.after(answer).stack.len() == 0 {
                    PciStep::Done
                } else {
                    PciStep::Idle
                },
            }
        }
    }

    /// A move never takes back what was found, and adds one function at most.
    pub proof fn lemma_found_grows(self, answer: u16)
        ensures
            self.found.is_prefix_of(self.after(answer).found),
            self.after(answer).found.len() <= self.found.len() + 1,
    {
    }

    /// A move that asks for a word leaves a visit to take it.
    pub proof fn lemma_read_is_awaited(self, answer: u16)
        ensures
            self.request(answer) is Read ==> self.after(answer).stack.len() > 0,
    {
    }
}

/// The header type as it is read never marks several functions: a device
/// with a vendor has its first function looked at and no other.
pub proof fn theorem_single_function_only(word: u16)
    ensures
        !spec_is_multi_function(spec_header_type(word)),
{
}

/// A walk over the PCI bus, driven by its caller: `next` is called again and
/// again, each time with the word that the call before asked for, until it
/// answers that the walk is over.
pub struct PciScan {
    stack: Vec<Frame>,
    found: Vec<PciDeviceHeader>,
}

impl View for PciScan {
    type V = Walk;

    closed spec fn view(&self) -> Walk {
        Walk { stack: self.stack@, found: self.found@ }
    }
}

impl PciScan {
    /// A walk with one visit before it.
    pub fn begin(visit: Frame) -> (scan: PciScan)
        ensures
            scan@ == Walk::begin(visit),
    {
        let mut stack: Vec<Frame> = Vec::new();
        stack.push(visit);
        let scan = PciScan { stack, found: Vec::new() };
        proof {
            assert(scan@.stack =~= seq![visit]);
        }
        scan
    }

    /// Makes one move. `answer` is the word that the move before asked for;
    /// where it asked for none, `answer` is not looked at.
    pub fn next(&mut self, answer: u16) -> (step: PciStep)
        ensures
            final(self)@ == old(self)@.after(answer),
            step == old(self)@.request(answer),
    {
        match self.stack.pop() {
            None => PciStep::Done,
            Some(top) => {
                let outcome = top.advance(answer);
                if let Some(frame) = outcome.keep {
                    self.stack.push(frame);
                }
                if let Some(frame) = outcome.call {
                    self.stack.push(frame);
                }
                if let Some(header) = outcome.found {
                    self.found.push(header);
                }
                proof {
                    assert(self@.stack =~= old(self)@.after(answer).stack);
                    assert(self@.found =~= old(self)@.after(answer).found);
                }
                match outcome.read {
                    Some(read) => PciStep::Read(read),
                    None => if self.stack.len() == 0 {
                        PciStep::Done
                    } else {
                        PciStep::Idle
                    },
                }
            },
        }
    }

    /// Whether no visit is left.
    pub fn is_done(&self) -> (done: bool)
        ensures
            done == (self@.stack.len() == 0),
    {
        self.stack.len() == 0
    }

    /// The functions found so far, in the order they were found.
    pub fn found(&self) -> (list: Vec<PciDeviceHeader>)
        ensures
            list@ == self@.found,
    {
        let mut list: Vec<PciDeviceHeader> = Vec::new();
        let mut i: usize = 0;
        while i < self.found.len()
            invariant
                0 <= i <= self.found.len(),
                list@ == self.found@.take(i as int),
            decreases self.found.len() - i,
        {
            list.push(self.found[i]);
            proof {
                assert(self.found@.take(i + 1) =~= self.found@.take(i as int).push(self.found@[i as int]));
            }
            i = i + 1;
        }
        proof {
            assert(self.found@.take(i as int) =~= self.found@);
        }
        list
    }
}

/// Starts the walk over everything that can be reached from the host
/// controller.
pub fn check_all_buses_smart() -> (scan: PciScan)
    ensures
        scan@ == Walk::begin(Frame::spec_at(Stage::Root, PciAddr { bus: 0, slot: 0, function: 0 })),
{
    PciScan::begin(Frame::at(Stage::Root, PciAddr { bus: 0, slot: 0, function: 0 }))
}

/// Starts the walk over one bus.
pub fn check_bus(bus: u8) -> (scan: PciScan)
    ensures
        scan@ == Walk::begin(Frame::spec_at(Stage::Bus, PciAddr { bus, slot: 0, function: 0 })),
{
    PciScan::begin(Frame::at(Stage::Bus, PciAddr { bus, slot: 0, function: 0 }))
}

/// Starts the walk over one device.
pub fn check_device(bus: u8, device: u8) -> (scan: PciScan)
    ensures
        scan@ == Walk::begin(Frame::spec_at(Stage::Device, PciAddr { bus, slot: device, function: 0 })),
{
    PciScan::begin(Frame::at(Stage::Device, PciAddr { bus, slot: device, function: 0 }))
}

/// Starts the walk over one function.
pub fn check_function(bus: u8, device: u8, function: u8) -> (scan: PciScan)
    ensures
        scan@ == Walk::begin(Frame::spec_at(Stage::Function, PciAddr { bus, slot: device, function })),
{
    PciScan::begin(Frame::at(Stage::Function, PciAddr { bus, slot: device, function }))
}

} // verus!
