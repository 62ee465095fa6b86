//! What the walk over the PCI bus finds, said without the machine: by
//! descent through buses, devices and functions. The walk of `pci`, driven
//! against a configuration space, finds exactly this.
use crate::io::pci::{
    spec_nth_byte, ConfigRead, Frame, PciAddr, PciDeviceHeader, PciStep, Stage, Walk, BASE_CLASS, CLASS_BRIDGE,
    DEVICES, DEVICE_ID, HEADER_TYPE, NOT_A_VENDOR, SECONDARY_BUS, SUBCLASS_PCI_BRIDGE, SUB_CLASS, VENDOR_ID,
};
use vstd::prelude::*;

verus! {

/// The word that a configuration space holds at `offset` of the function at
/// `addr`.
pub open spec fn word_at(space: spec_fn(ConfigRead) -> u16, addr: PciAddr, offset: u8) -> u16 {
    space(ConfigRead { addr, offset })
}

/// What looking at one function finds. A bridge to another PCI bus stands
/// for what the bus behind it holds; any other function is found itself.
/// `depth` bounds how many bridges may lie one behind the other; beyond it
/// nothing is said.
pub open spec fn function_finds(space: spec_fn(ConfigRead) -> u16, addr: PciAddr, depth: nat) -> Option<
    Seq<PciDeviceHeader>,
>
    decreases depth, 0nat, 0nat,
{
    let class = spec_nth_byte(word_at(space, addr, BASE_CLASS), 1);
    let subclass = spec_nth_byte(word_at(space, addr, SUB_CLASS), 0);
    if class == CLASS_BRIDGE && subclass == SUBCLASS_PCI_BRIDGE {
        if depth == 0 {
            None
        } else {
            bus_finds(space, spec_nth_byte(word_at(space, addr, SECONDARY_BUS), 0), 0, (depth - 1) as nat)
        }
    } else {
        Some(
            seq![
                PciDeviceHeader {
                    device_id: word_at(space, addr, DEVICE_ID),
                    vendor_id: word_at(space, addr, VENDOR_ID),
                    class,
                    subclass,
                    addr,
                },
            ],
        )
    }
}

/// What looking at one device finds: nothing where its first function has no
/// vendor, else what its first function finds.
pub open spec fn device_finds(space: spec_fn(ConfigRead) -> u16, bus: u8, device: u8, depth: nat) -> Option<
    Seq<PciDeviceHeader>,
>
    decreases depth, 1nat, 0nat,
{
    let addr = PciAddr { bus, slot: device, function: 0 };
    if word_at(space, addr, VENDOR_ID) == NOT_A_VENDOR {
        Some(Seq::empty())
    } else {
        function_finds(space, addr, depth)
    }
}

/// What going through a bus finds from device `from` on: what each device
/// finds, in the order of the devices.
pub open spec fn bus_finds(space: spec_fn(ConfigRead) -> u16, bus: u8, from: u8, depth: nat) -> Option<
    Seq<PciDeviceHeader>,
>
    decreases depth, 2nat, DEVICES - from,
{
    if from >= DEVICES {
        Some(Seq::empty())
    } else {
        match device_finds(space, bus, from, depth) {
            None => None,
            Some(first) => match bus_finds(space, bus, (from + 1) as u8, depth) {
                None => None,
                Some(rest) => Some(first + rest),
            },
        }
    }
}

/// The walk and the word in hand after `moves` moves against a
/// configuration space: each word asked for is read from the space and
/// handed to the next move.
pub open spec fn run(walk: Walk, space: spec_fn(ConfigRead) -> u16, answer: u16, moves: nat) -> (Walk, u16)
    decreases moves,
{
    if moves == 0 {
        (walk, answer)
    } else {
        let next = match walk.request(answer) {
            PciStep::Read(read) => space(read),
            _ => answer,
        };
        run(walk.after(answer), space, next, (moves - 1) as nat)
    }
}

/// Moves can be made in two runs.
pub proof fn lemma_run_add(walk: Walk, space: spec_fn(ConfigRead) -> u16, answer: u16, n: nat, m: nat)
    ensures
        run(walk, space, answer, n + m) == run(run(walk, space, answer, n).0, space, run(walk, space, answer, n).1, m),
    decreases n,
{
    if n > 0 {
        let next = match walk.request(answer) {
            PciStep::Read(read) => space(read),
            _ => answer,
        };
        lemma_run_add(walk.after(answer), space, next, (n - 1) as nat, m);
        assert(run(walk, space, answer, n + m) == run(walk.after(answer), space, next, (n + m - 1) as nat));
    }
}

/// A walk with `frame` on top of the stack `below`.
pub open spec fn atop(below: Seq<Frame>, frame: Frame, found: Seq<PciDeviceHeader>) -> Walk {
    Walk { stack: below.push(frame), found }
}

/// The stack after one move of the frame on top of `below`: the frame's
/// continuation, if it has one, then the frame it calls for, if any.
pub open spec fn moved_stack(below: Seq<Frame>, frame: Frame, answer: u16) -> Seq<Frame> {
    let outcome = frame.transition(answer);
    let kept = match outcome.keep {
        Some(next) => below.push(next),
        None => below,
    };
    match outcome.call {
        Some(next) => kept.push(next),
        None => kept,
    }
}

/// One move of the frame on top of a stack, against a configuration space.
proof fn lemma_one_move(
    space: spec_fn(ConfigRead) -> u16,
    below: Seq<Frame>,
    frame: Frame,
    found: Seq<PciDeviceHeader>,
    answer: u16,
)
    ensures
        run(atop(below, frame, found), space, answer, 1).0.stack == moved_stack(below, frame, answer),
        run(atop(below, frame, found), space, answer, 1).0.found == match frame.transition(answer).found {
            Some(header) => found.push(header),
            None => found,
        },
        run(atop(below, frame, found), space, answer, 1).1 == match frame.transition(answer).read {
            Some(read) => space(read),
            None => answer,
        },
{
    let walk = atop(below, frame, found);
    assert(walk.stack.drop_last() =~= below);
    assert(walk.stack.last() == frame);
    reveal_with_fuel(run, 2);
}

/// The moves so far, and then some: where `n` moves lead to a walk with a
/// frame on top, `n + m` moves lead where `m` moves lead from there.
proof fn lemma_then(
    space: spec_fn(ConfigRead) -> u16,
    start: Walk,
    first: u16,
    n: nat,
    below: Seq<Frame>,
    frame: Frame,
    found: Seq<PciDeviceHeader>,
    answer: u16,
    m: nat,
)
    requires
        run(start, space, first, n) == (atop(below, frame, found), answer),
    ensures
        run(start, space, first, n + m) == run(atop(below, frame, found), space, answer, m),
{
    lemma_run_add(start, space, first, n, m);
}

/// A function that is no bridge is found in five moves.
proof fn lemma_plain_function_runs(
    space: spec_fn(ConfigRead) -> u16,
    below: Seq<Frame>,
    found: Seq<PciDeviceHeader>,
    addr: PciAddr,
    answer: u16,
)
    requires
        !(spec_nth_byte(word_at(space, addr, BASE_CLASS), 1) == CLASS_BRIDGE && spec_nth_byte(
            word_at(space, addr, SUB_CLASS),
            0,
        ) == SUBCLASS_PCI_BRIDGE),
    ensures
        run(atop(below, Frame::spec_at(Stage::Function, addr), found), space, answer, 5).0 == (Walk {
            stack: below,
            found: found.push(
                PciDeviceHeader {
                    device_id: word_at(space, addr, DEVICE_ID),
                    vendor_id: word_at(space, addr, VENDOR_ID),
                    class: spec_nth_byte(word_at(space, addr, BASE_CLASS), 1),
                    subclass: spec_nth_byte(word_at(space, addr, SUB_CLASS), 0),
                    addr,
                },
            ),
        }),
{
    let start = atop(below, Frame::spec_at(Stage::Function, addr), found);
    let class = spec_nth_byte(word_at(space, addr, BASE_CLASS), 1);
    let subclass = spec_nth_byte(word_at(space, addr, SUB_CLASS), 0);
    let vendor = word_at(space, addr, VENDOR_ID);
    let f0 = Frame::spec_at(Stage::Function, addr);
    let f1 = Frame { stage: Stage::FunctionClass, ..f0 };
    let f2 = Frame { stage: Stage::FunctionSubclass, class, ..f0 };
    let f3 = Frame { stage: Stage::FunctionVendor, class, subclass, ..f0 };
    let f4 = Frame { stage: Stage::FunctionDevice, class, subclass, vendor, addr };
    lemma_one_move(space, below, f0, found, answer);
    assert(run(start, space, answer, 1) == (atop(below, f1, found), word_at(space, addr, BASE_CLASS)));
    lemma_then(space, start, answer, 1, below, f1, found, word_at(space, addr, BASE_CLASS), 1);
    lemma_one_move(space, below, f1, found, word_at(space, addr, BASE_CLASS));
    assert(run(start, space, answer, 2) == (atop(below, f2, found), word_at(space, addr, SUB_CLASS)));
    lemma_then(space, start, answer, 2, below, f2, found, word_at(space, addr, SUB_CLASS), 1);
    lemma_one_move(space, below, f2, found, word_at(space, addr, SUB_CLASS));
    assert(run(start, space, answer, 3) == (atop(below, f3, found), vendor));
    lemma_then(space, start, answer, 3, below, f3, found, vendor, 1);
    lemma_one_move(space, below, f3, found, vendor);
    assert(run(start, space, answer, 4) == (atop(below, f4, found), word_at(space, addr, DEVICE_ID)));
    lemma_then(space, start, answer, 4, below, f4, found, word_at(space, addr, DEVICE_ID), 1);
    lemma_one_move(space, below, f4, found, word_at(space, addr, DEVICE_ID));
}

/// A bridge is replaced, in five moves, by the bus that it names.
proof fn lemma_bridge_runs(
    space: spec_fn(ConfigRead) -> u16,
    below: Seq<Frame>,
    found: Seq<PciDeviceHeader>,
    addr: PciAddr,
    answer: u16,
)
    requires
        spec_nth_byte(word_at(space, addr, BASE_CLASS), 1) == CLASS_BRIDGE,
        spec_nth_byte(word_at(space, addr, SUB_CLASS), 0) == SUBCLASS_PCI_BRIDGE,
    ensures
        run(atop(below, Frame::spec_at(Stage::Function, addr), found), space, answer, 5).0 == atop(
            below,
            Frame::spec_at(
                Stage::Bus,
                PciAddr { bus: spec_nth_byte(word_at(space, addr, SECONDARY_BUS), 0), slot: 0, function: 0 },
            ),
            found,
        ),
{
    let start = atop(below, Frame::spec_at(Stage::Function, addr), found);
    let class = spec_nth_byte(word_at(space, addr, BASE_CLASS), 1);
    let subclass = spec_nth_byte(word_at(space, addr, SUB_CLASS), 0);
    let vendor = word_at(space, addr, VENDOR_ID);
    let behind = word_at(space, addr, SECONDARY_BUS);
    let f0 = Frame::spec_at(Stage::Function, addr);
    let f1 = Frame { stage: Stage::FunctionClass, ..f0 };
    let f2 = Frame { stage: Stage::FunctionSubclass, class, ..f0 };
    let f3 = Frame { stage: Stage::FunctionVendor, class, subclass, ..f0 };
    let f4 = Frame { stage: Stage::FunctionSecondary, class, subclass, vendor, addr };
    lemma_one_move(space, below, f0, found, answer);
    assert(run(start, space, answer, 1) == (atop(below, f1, found), word_at(space, addr, BASE_CLASS)));
    lemma_then(space, start, answer, 1, below, f1, found, word_at(space, addr, BASE_CLASS), 1);
    lemma_one_move(space, below, f1, found, word_at(space, addr, BASE_CLASS));
    assert(run(start, space, answer, 2) == (atop(below, f2, found), word_at(space, addr, SUB_CLASS)));
    lemma_then(space, start, answer, 2, below, f2, found, word_at(space, addr, SUB_CLASS), 1);
    lemma_one_move(space, below, f2, found, word_at(space, addr, SUB_CLASS));
    assert(run(start, space, answer, 3) == (atop(below, f3, found), vendor));
    lemma_then(space, start, answer, 3, below, f3, found, vendor, 1);
    lemma_one_move(space, below, f3, found, vendor);
    assert(run(start, space, answer, 4) == (atop(below, f4, found), behind));
    lemma_then(space, start, answer, 4, below, f4, found, behind, 1);
    lemma_one_move(space, below, f4, found, behind);
}

/// Looking at a function takes the walk where the descent says: the frame
/// is gone and what the function finds is recorded.
pub proof fn lemma_function_runs(
    space: spec_fn(ConfigRead) -> u16,
    below: Seq<Frame>,
    found: Seq<PciDeviceHeader>,
    addr: PciAddr,
    depth: nat,
    answer: u16,
) -> (moves: nat)
    requires
        function_finds(space, addr, depth) is Some,
    ensures
        run(atop(below, Frame::spec_at(Stage::Function, addr), found), space, answer, moves).0 == (Walk {
            stack: below,
            found: found + function_finds(space, addr, depth).unwrap(),
        }),
    decreases depth, 0nat, 0nat,
{
    let start = atop(below, Frame::spec_at(Stage::Function, addr), found);
    let class = spec_nth_byte(word_at(space, addr, BASE_CLASS), 1);
    let subclass = spec_nth_byte(word_at(space, addr, SUB_CLASS), 0);
    if class == CLASS_BRIDGE && subclass == SUBCLASS_PCI_BRIDGE {
        let bus = spec_nth_byte(word_at(space, addr, SECONDARY_BUS), 0);
        lemma_bridge_runs(space, below, found, addr, answer);
        let there = run(start, space, answer, 5);
        let more = lemma_bus_runs(space, below, found, bus, 0, (depth - 1) as nat, there.1);
        lemma_run_add(start, space, answer, 5, more);
        5 + more
    } else {
        lemma_plain_function_runs(space, below, found, addr, answer);
        let header = PciDeviceHeader {
            device_id: word_at(space, addr, DEVICE_ID),
            vendor_id: word_at(space, addr, VENDOR_ID),
            class,
            subclass,
            addr,
        };
        assert(found.push(header) =~= found + seq![header]);
        5
    }
}

/// Looking at a device takes the walk where the descent says.
pub proof fn lemma_device_runs(
    space: spec_fn(ConfigRead) -> u16,
    below: Seq<Frame>,
    found: Seq<PciDeviceHeader>,
    bus: u8,
    device: u8,
    depth: nat,
    answer: u16,
) -> (moves: nat)
    requires
        device_finds(space, bus, device, depth) is Some,
    ensures
        run(
            atop(below, Frame::spec_at(Stage::Device, PciAddr { bus, slot: device, function: 0 }), found),
            space,
            answer,
            moves,
        ).0 == (Walk { stack: below, found: found + device_finds(space, bus, device, depth).unwrap() }),
    decreases depth, 1nat, 0nat,
{
    let addr = PciAddr { bus, slot: device, function: 0 };
    let f0 = Frame::spec_at(Stage::Device, addr);
    let f1 = Frame { stage: Stage::DeviceVendor, ..f0 };
    let start = atop(below, f0, found);
    let vendor = word_at(space, addr, VENDOR_ID);
    lemma_one_move(space, below, f0, found, answer);
    assert(run(start, space, answer, 1) == (atop(below, f1, found), vendor));
    lemma_then(space, start, answer, 1, below, f1, found, vendor, 1);
    lemma_one_move(space, below, f1, found, vendor);
    if vendor == NOT_A_VENDOR {
        assert(found + Seq::<PciDeviceHeader>::empty() =~= found);
        2
    } else {
        let f2 = Frame { stage: Stage::DeviceRest, ..f0 };
        let f3 = Frame { stage: Stage::DeviceHeaderType, ..f0 };
        let inner = Frame::spec_at(Stage::Function, addr);
        let first = function_finds(space, addr, depth).unwrap();
        assert(run(start, space, answer, 2) == (atop(below.push(f2), inner, found), vendor));
        let n = lemma_function_runs(space, below.push(f2), found, addr, depth, vendor);
        lemma_then(space, start, answer, 2, below.push(f2), inner, found, vendor, n);
        let back = run(start, space, answer, 2 + n);
        assert(back.0 == atop(below, f2, found + first));
        lemma_then(space, start, answer, 2 + n, below, f2, found + first, back.1, 1);
        lemma_one_move(space, below, f2, found + first, back.1);
        let kind = word_at(space, addr, HEADER_TYPE);
        assert(run(start, space, answer, 2 + n + 1) == (atop(below, f3, found + first), kind));
        lemma_then(space, start, answer, 2 + n + 1, below, f3, found + first, kind, 1);
        lemma_one_move(space, below, f3, found + first, kind);
        2 + n + 2
    }
}

/// Going through a bus takes the walk where the descent says.
pub proof fn lemma_bus_runs(
    space: spec_fn(ConfigRead) -> u16,
    below: Seq<Frame>,
    found: Seq<PciDeviceHeader>,
    bus: u8,
    from: u8,
    depth: nat,
    answer: u16,
) -> (moves: nat)
    requires
        bus_finds(space, bus, from, depth) is Some,
    ensures
        run(
            atop(below, Frame::spec_at(Stage::Bus, PciAddr { bus, slot: from, function: 0 }), found),
            space,
            answer,
            moves,
        ).0 == (Walk { stack: below, found: found + bus_finds(space, bus, from, depth).unwrap() }),
    decreases depth, 2nat, DEVICES - from,
{
    let f0 = Frame::spec_at(Stage::Bus, PciAddr { bus, slot: from, function: 0 });
    let start = atop(below, f0, found);
    lemma_one_move(space, below, f0, found, answer);
    if from >= DEVICES {
        assert(found + Seq::<PciDeviceHeader>::empty() =~= found);
        1
    } else {
        let next = Frame::spec_at(Stage::Bus, PciAddr { bus, slot: (from + 1) as u8, function: 0 });
        let inner = Frame::spec_at(Stage::Device, PciAddr { bus, slot: from, function: 0 });
        let first = device_finds(space, bus, from, depth).unwrap();
        let rest = bus_finds(space, bus, (from + 1) as u8, depth).unwrap();
        assert(f0.addr.slot.wrapping_add(1) == (from + 1) as u8);
        assert(run(start, space, answer, 1) == (atop(below.push(next), inner, found), answer));
        let n = lemma_device_runs(space, below.push(next), found, bus, from, depth, answer);
        lemma_then(space, start, answer, 1, below.push(next), inner, found, answer, n);
        let back = run(start, space, answer, 1 + n);
        assert(back.0 == atop(below, next, found + first));
        let m = lemma_bus_runs(space, below, found + first, bus, (from + 1) as u8, depth, back.1);
        lemma_then(space, start, answer, 1 + n, below, next, found + first, back.1, m);
        assert((found + first) + rest =~= found + (first + rest));
        1 + n + m
    }
}

/// The whole walk finds what the descent from bus 0 finds: driven against
/// a configuration space in which bridges lie no deeper than `depth` one
/// behind the other, it comes to an end, and what it has recorded then is
/// what going through bus 0 finds.
pub proof fn theorem_walk_finds(space: spec_fn(ConfigRead) -> u16, depth: nat) -> (moves: nat)
    requires
        bus_finds(space, 0, 0, depth) is Some,
    ensures
        run(
            Walk::begin(Frame::spec_at(Stage::Root, PciAddr { bus: 0, slot: 0, function: 0 })),
            space,
            0,
            moves,
        ).0 == (Walk { stack: Seq::empty(), found: bus_finds(space, 0, 0, depth).unwrap() }),
{
    let origin = PciAddr { bus: 0, slot: 0, function: 0 };
    let f0 = Frame::spec_at(Stage::Root, origin);
    let f1 = Frame { stage: Stage::RootHeaderType, ..f0 };
    let f2 = Frame::spec_at(Stage::Bus, origin);
    let none = Seq::<Frame>::empty();
    let nothing = Seq::<PciDeviceHeader>::empty();
    let start = Walk::begin(f0);
    let kind = word_at(space, origin, HEADER_TYPE);
    assert(start.stack =~= none.push(f0));
    assert(start == atop(none, f0, nothing));
    lemma_one_move(space, none, f0, nothing, 0);
    assert(run(start, space, 0, 1) == (atop(none, f1, nothing), kind));
    lemma_then(space, start, 0, 1, none, f1, nothing, kind, 1);
    lemma_one_move(space, none, f1, nothing, kind);
    assert(run(start, space, 0, 2) == (atop(none, f2, nothing), kind));
    let m = lemma_bus_runs(space, none, nothing, 0, 0, depth, kind);
    lemma_then(space, start, 0, 2, none, f2, nothing, kind, m);
    assert(nothing + bus_finds(space, 0, 0, depth).unwrap() =~= bus_finds(space, 0, 0, depth).unwrap());
    2 + m
}

} // verus!
