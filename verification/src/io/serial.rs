//! The serial line: which registers are written with what to bring the chip
//! up, and how its answers are read.
use vstd::prelude::*;

verus! {

/// Base port of the first serial line.
pub const PORT: u16 = 0x3f8;

/// The byte sent through the chip in loopback mode to test it.
pub const PROBE: u8 = 0xAE;

/// Bit of the line status register that is set while the transmit buffer is
/// empty.
pub const TRANSMIT_EMPTY: u8 = 0x20;

/// A writer to the serial line at one base port.
#[derive(Clone, Copy, Debug, PartialEq, Eq, Structural)]
pub struct SerialWriter {
    pub port: u16,
}

/// The chip did not echo the probe byte.
#[derive(Clone, Copy, Debug, PartialEq, Eq, Structural)]
pub struct SerialWriterInitError;

/// One register write: the value goes to the port at `offset` from the base.
#[derive(Clone, Copy, Debug, PartialEq, Eq, Structural)]
pub struct RegisterWrite {
    pub offset: u16,
    pub value: u8,
}

/// The writes that set the line up and send the probe, in order: interrupts
/// off; divisor latch on; divisor 3, low byte then high byte (38400 baud);
/// eight bits, no parity, one stop bit; FIFO on and cleared, threshold 14;
/// interrupts on with RTS and DSR set; loopback mode; the probe byte.
pub open spec fn setup_writes() -> Seq<RegisterWrite> {
    seq![
        RegisterWrite { offset: 1, value: 0x00 },
        RegisterWrite { offset: 3, value: 0x80 },
        RegisterWrite { offset: 0, value: 0x03 },
        RegisterWrite { offset: 1, value: 0x00 },
        RegisterWrite { offset: 3, value: 0x03 },
        RegisterWrite { offset: 2, value: 0xC7 },
        RegisterWrite { offset: 4, value: 0x0B },
        RegisterWrite { offset: 4, value: 0x1E },
        RegisterWrite { offset: 0, value: PROBE },
    ]
}

/// The first half of bringing the line up: write number `step` of those to
/// make, in order, before the echo of the probe is read back from the base
/// port; `None` once all are made.
pub fn init(step: usize) -> (write: Option<RegisterWrite>)
    ensures
        write == if step < setup_writes().len() {
            Some(setup_writes()[step as int])
        } else {
            None
        },
{
    if step == 0 {
        Some(RegisterWrite { offset: 1, value: 0x00 })
    } else if step == 1 {
        Some(RegisterWrite { offset: 3, value: 0x80 })
    } else if step == 2 {
        Some(RegisterWrite { offset: 0, value: 0x03 })
    } else if step == 3 {
        Some(RegisterWrite { offset: 1, value: 0x00 })
    } else if step == 4 {
        Some(RegisterWrite { offset: 3, value: 0x03 })
    } else if step == 5 {
        Some(RegisterWrite { offset: 2, value: 0xC7 })
    } else if step == 6 {
        Some(RegisterWrite { offset: 4, value: 0x0B })
    } else if step == 7 {
        Some(RegisterWrite { offset: 4, value: 0x1E })
    } else if step == 8 {
        Some(RegisterWrite { offset: 0, value: PROBE })
    } else {
        None
    }
}

/// The second half: judges the echo. A chip that gave the probe back is put
/// into normal operation by the write returned; any other answer is a
/// faulty chip.
pub fn confirm(echo: u8) -> (outcome: Result<RegisterWrite, SerialWriterInitError>)
    ensures
        echo == PROBE ==> outcome == Ok::<RegisterWrite, SerialWriterInitError>(
            RegisterWrite { offset: 4, value: 0x0F },
        ),
        echo != PROBE ==> outcome is Err,
{
    if echo != PROBE {
        return Err(SerialWriterInitError);
    }
    Ok(RegisterWrite { offset: 4, value: 0x0F })
}

impl SerialWriter {
    pub fn new(port: u16) -> (writer: SerialWriter)
        ensures
            writer.port == port,
    {
        SerialWriter { port }
    }

    /// Port of the line status register.
    pub fn status_port(&self) -> (port: u16)
        requires
            self.port <= u16::MAX - 5,
        ensures
            port == self.port + 5,
    {
        self.port + 5
    }

    /// Picks the transmit-empty bit out of a line status: zero while the chip
    /// is still sending.
    pub fn is_transmit_empty(&self, status: u8) -> (bit: u8)
        ensures
            bit == status & TRANSMIT_EMPTY,
            bit == 0 || bit == TRANSMIT_EMPTY,
    {
        assert(status & 0x20 == 0 || status & 0x20 == 0x20) by (bit_vector);
        status & TRANSMIT_EMPTY
    }
}

} // verus!
