//! Wire-level model of the SPI NOR flash chip.
//!
//! A transaction is framed by the chip select: it is asserted, opcode
//! and argument bytes are written, response bytes may be read, and the
//! deassertion commits the command.  `ChipState` is the abstract state
//! of the chip, `PortState` adds the state of the ongoing transaction.
//! The `FlashPort` trait is the byte-level bus interface the driver is
//! verified against; its contracts are exactly the transition functions
//! defined here.

use vstd::prelude::*;

verus! {

/// Page program opcode: clears bits of up to one page.
pub const OP_PROGRAM: u8 = 0x02;

/// Sequential read opcode; the chip auto-increments the address.
pub const OP_READ: u8 = 0x03;

/// Write disable opcode.  Part of the chip's command set; the driver
/// never needs it because the chip clears the write-enable latch itself
/// after every program or erase.
pub const OP_WRITE_DISABLE: u8 = 0x04;

/// Read status register opcode; bit 0 of the response is the busy flag.
pub const OP_READ_STATUS: u8 = 0x05;

/// Write enable opcode: sets the write-enable latch.
pub const OP_WRITE_ENABLE: u8 = 0x06;

/// Block erase opcode: sets every bit of one erase block.
pub const OP_BLOCK_ERASE: u8 = 0xD8;

/// Release-from-power-down opcode; required once after power-up.
pub const OP_WAKE: u8 = 0xAB;

/// The atomic unit of a program operation, in bytes.
pub const PAGE_SIZE: usize = 256;

/// The atomic unit of an erase operation, in bytes.
pub const BLOCK_SIZE: usize = 65536;

/// Size of the 3-byte linear address space.
pub const ADDRESS_SPACE: usize = 16777216;

/// Abstract state of the flash chip.
///
/// `busy` counts how many further status polls will still report the
/// busy flag; every committed program or erase resets it to
/// `busy_per_op`.  `wel` is the write-enable latch and `awake` records
/// whether the chip has been released from power-down.  The operation
/// counters only grow and exist so that the programming algorithm's
/// contracts can pin down exactly how many operations it issues.
pub struct ChipState {
    pub mem: Seq<u8>,
    pub busy: nat,
    pub busy_per_op: nat,
    pub wel: bool,
    pub awake: bool,
    pub erases: nat,
    pub programs: nat,
    pub status_reads: nat,
}

/// State of the bus: the chip state plus the ongoing transaction.
/// `txn` holds the bytes written since the chip select was asserted,
/// `reads` counts the response bytes read since then.
pub struct PortState {
    pub selected: bool,
    pub txn: Seq<u8>,
    pub reads: nat,
    pub chip: ChipState,
}

/// The fixed geometry every contract relies on: whole erase blocks, and
/// everything reachable through 3-byte addresses.
pub open spec fn geometry_ok(c: ChipState) -> bool {
    &&& (c.mem.len() as int) % (BLOCK_SIZE as int) == 0
    &&& c.mem.len() <= ADDRESS_SPACE
}

/// The 24-bit address carried by three big-endian bytes.
pub open spec fn addr_val(b2: u8, b1: u8, b0: u8) -> int {
    (b2 as int) * 0x10000 + (b1 as int) * 0x100 + (b0 as int)
}

/// The address field of a transaction that carries one.
pub open spec fn txn_addr(t: Seq<u8>) -> int {
    addr_val(t[1], t[2], t[3])
}

/// Start of the erase block containing address `a`.
pub open spec fn block_base(a: int) -> int {
    (a / (BLOCK_SIZE as int)) * (BLOCK_SIZE as int)
}

/// Memory after erasing the block containing `a`: every byte of that
/// block is set to 0xFF, all other bytes keep their value.
pub open spec fn erased_block(mem: Seq<u8>, a: int) -> Seq<u8> {
    Seq::new(
        mem.len(),
        |i: int|
            if block_base(a) <= i < block_base(a) + BLOCK_SIZE {
                0xFFu8
            } else {
                mem[i]
            },
    )
}

/// Memory after programming `data` at `a`: programming can only clear
/// bits, so each targeted byte becomes the bitwise and of its old value
/// and the data byte.
pub open spec fn programmed(mem: Seq<u8>, a: int, data: Seq<u8>) -> Seq<u8> {
    Seq::new(
        mem.len(),
        |i: int|
            if a <= i < a + data.len() {
                mem[i] & data[i - a]
            } else {
                mem[i]
            },
    )
}

/// A release-from-power-down transaction.
pub open spec fn is_wake(t: Seq<u8>) -> bool {
    t.len() == 1 && t[0] == OP_WAKE
}

/// A write-enable transaction.
pub open spec fn is_write_enable(t: Seq<u8>) -> bool {
    t.len() == 1 && t[0] == OP_WRITE_ENABLE
}

/// A read-status transaction.
pub open spec fn is_status(t: Seq<u8>) -> bool {
    t.len() == 1 && t[0] == OP_READ_STATUS
}

/// A sequential-read transaction: opcode plus 3 address bytes.
pub open spec fn is_read(t: Seq<u8>) -> bool {
    t.len() == 4 && t[0] == OP_READ
}

/// A page-program transaction: opcode, 3 address bytes, and at most one
/// page of data.
pub open spec fn is_program(t: Seq<u8>) -> bool {
    4 <= t.len() <= 4 + PAGE_SIZE && t[0] == OP_PROGRAM
}

/// A block-erase transaction: opcode plus 3 address bytes.
pub open spec fn is_erase(t: Seq<u8>) -> bool {
    t.len() == 4 && t[0] == OP_BLOCK_ERASE
}

/// Whether deasserting the chip select now commits a well-formed
/// command the chip will execute.  Program and erase demand an idle
/// chip with the write-enable latch set, and targets inside the memory;
/// a program must stay within one page.  Apart from wake itself, every
/// command requires the chip to be awake.
pub open spec fn can_commit(s: PortState) -> bool {
    let t = s.txn;
    let c = s.chip;
    ||| t.len() == 0
    ||| is_wake(t)
    ||| (is_write_enable(t) && c.awake)
    ||| (is_status(t) && c.awake)
    ||| (is_read(t) && c.awake)
    ||| (is_program(t) && c.awake && c.busy == 0 && c.wel && 0 <= txn_addr(t) && txn_addr(t) + (
    t.len() - 4) <= c.mem.len() && txn_addr(t) % (PAGE_SIZE as int) + (t.len() - 4)
        <= PAGE_SIZE)
    ||| (is_erase(t) && c.awake && c.busy == 0 && c.wel && 0 <= txn_addr(t)
        && block_base(txn_addr(t)) + BLOCK_SIZE <= c.mem.len())
}

/// Chip state after the commit of a transaction satisfying
/// `can_commit`.  Program and erase clear the write-enable latch, make
/// the chip busy for `busy_per_op` polls and bump their counter; wake
/// and write-enable set their flag; status and read commit nothing.
pub open spec fn commit(s: PortState) -> ChipState {
    let t = s.txn;
    let c = s.chip;
    if is_wake(t) {
        ChipState { awake: true, ..c }
    } else if is_write_enable(t) {
        ChipState { wel: true, ..c }
    } else if is_program(t) {
        ChipState {
            mem: programmed(c.mem, txn_addr(t), t.subrange(4, t.len() as int)),
            wel: false,
            busy: c.busy_per_op,
            programs: c.programs + 1,
            ..c
        }
    } else if is_erase(t) {
        ChipState {
            mem: erased_block(c.mem, txn_addr(t)),
            wel: false,
            busy: c.busy_per_op,
            erases: c.erases + 1,
            ..c
        }
    } else {
        c
    }
}

/// Whether a response byte can be read now: either the single status
/// byte of a read-status transaction, or the next byte of a sequential
/// read from an idle chip, while it stays inside the memory.
pub open spec fn can_read(s: PortState) -> bool {
    &&& s.selected
    &&& s.chip.awake
    &&& {
        ||| (is_status(s.txn) && s.reads == 0)
        ||| (is_read(s.txn) && s.chip.busy == 0 && txn_addr(s.txn) + s.reads < s.chip.mem.len())
    }
}

/// The response byte the chip drives: the busy flag for a status read,
/// or the memory byte at the auto-incremented address.
pub open spec fn read_value(s: PortState) -> u8 {
    if is_status(s.txn) {
        if s.chip.busy > 0 {
            1u8
        } else {
            0u8
        }
    } else {
        s.chip.mem[txn_addr(s.txn) + s.reads]
    }
}

/// Port state after one response byte was read.  A status read counts
/// as one poll: it decrements the remaining busy polls and bumps the
/// status-read counter.  A memory read only advances the read position.
pub open spec fn after_read(s: PortState) -> PortState {
    let c = if is_status(s.txn) {
        ChipState {
            busy: if s.chip.busy > 0 {
                (s.chip.busy - 1) as nat
            } else {
                0
            },
            status_reads: s.chip.status_reads + 1,
            ..s.chip
        }
    } else {
        s.chip
    };
    PortState { reads: s.reads + 1, chip: c, ..s }
}

/// The byte-level bus interface to the flash chip.
///
/// The driver is verified against these contracts; the in-memory chip
/// is an implementation proved to meet them, and a hardware binding
/// that bit-bangs real lines takes their place at the physical
/// boundary.
pub trait FlashPort: Sized {
    /// Abstract view of the bus and the chip behind it.
    spec fn st(&self) -> PortState;

    /// Assert the chip select, opening an empty transaction.
    fn select(&mut self)
        requires
            !old(self).st().selected,
        ensures
            final(self).st() == (PortState {
                selected: true,
                txn: Seq::empty(),
                reads: 0,
                chip: old(self).st().chip,
            }),
    ;

    /// Ship one byte to the chip; it is appended to the transaction.
    fn write_byte(&mut self, b: u8)
        requires
            old(self).st().selected,
            old(self).st().reads == 0,
        ensures
            final(self).st() == (PortState { txn: old(self).st().txn.push(b), ..old(self).st() }),
    ;

    /// Read one response byte from the chip.
    fn read_byte(&mut self) -> (r: u8)
        requires
            can_read(old(self).st()),
        ensures
            r == read_value(old(self).st()),
            final(self).st() == after_read(old(self).st()),
    ;

    /// Deassert the chip select, committing the transaction.
    fn deselect(&mut self)
        requires
            old(self).st().selected,
            can_commit(old(self).st()),
        ensures
            final(self).st() == (PortState {
                selected: false,
                txn: Seq::empty(),
                reads: 0,
                chip: commit(old(self).st()),
            }),
    ;
}

/// The port state between transactions: deselected with nothing
/// pending, over the given chip state.
pub open spec fn idle_st(c: ChipState) -> PortState {
    PortState { selected: false, txn: Seq::empty(), reads: 0, chip: c }
}

/// Most significant byte of a 24-bit address.
pub open spec fn addr_byte2(a: int) -> u8 {
    ((a / 0x10000) % 0x100) as u8
}

/// Middle byte of a 24-bit address.
pub open spec fn addr_byte1(a: int) -> u8 {
    ((a / 0x100) % 0x100) as u8
}

/// Least significant byte of a 24-bit address.
pub open spec fn addr_byte0(a: int) -> u8 {
    (a % 0x100) as u8
}

/// The three big-endian address bytes carry the address exactly.
pub proof fn lemma_addr_bytes(a: int)
    requires
        0 <= a < ADDRESS_SPACE as int,
    ensures
        addr_val(addr_byte2(a), addr_byte1(a), addr_byte0(a)) == a,
{
    vstd::arithmetic::div_mod::lemma_fundamental_div_mod(a, 0x100);
    vstd::arithmetic::div_mod::lemma_fundamental_div_mod(a / 0x100, 0x100);
    assert((a / 0x100) / 0x100 == a / 0x10000) by {
        vstd::arithmetic::div_mod::lemma_div_denominator(a, 0x100, 0x100);
    }
    assert(0 <= a % 0x100 < 0x100);
    assert(0 <= (a / 0x100) % 0x100 < 0x100);
    assert(0 <= a / 0x10000 < 0x100) by {
        vstd::arithmetic::div_mod::lemma_div_nonincreasing(a, 0x10000);
        vstd::arithmetic::div_mod::lemma_div_is_ordered(a, ADDRESS_SPACE as int - 1, 0x10000);
    }
}

/// Chip state after one status poll: one fewer busy poll remains and
/// one more status read happened.
pub open spec fn status_polled(c: ChipState) -> ChipState {
    ChipState {
        busy: if c.busy > 0 {
            (c.busy - 1) as nat
        } else {
            0
        },
        status_reads: c.status_reads + 1,
        ..c
    }
}

/// Chip state after `n` status polls.
pub open spec fn polled(c: ChipState, n: nat) -> ChipState {
    ChipState {
        busy: if c.busy >= n {
            (c.busy - n) as nat
        } else {
            0
        },
        status_reads: c.status_reads + n,
        ..c
    }
}

/// Chip state after a committed block erase at `a`.
pub open spec fn erase_committed(c: ChipState, a: int) -> ChipState {
    ChipState {
        mem: erased_block(c.mem, a),
        wel: false,
        busy: c.busy_per_op,
        erases: c.erases + 1,
        ..c
    }
}

/// Chip state after a committed page program of `data` at `a`.
pub open spec fn program_committed(c: ChipState, a: int, data: Seq<u8>) -> ChipState {
    ChipState {
        mem: programmed(c.mem, a, data),
        wel: false,
        busy: c.busy_per_op,
        programs: c.programs + 1,
        ..c
    }
}

/// How many erase blocks a buffer of `len` bytes touches.
pub open spec fn n_blocks(len: int) -> int {
    (len + BLOCK_SIZE - 1) / (BLOCK_SIZE as int)
}

/// How many pages a buffer of `len` bytes touches.
pub open spec fn n_pages(len: int) -> int {
    (len + PAGE_SIZE - 1) / (PAGE_SIZE as int)
}

/// Memory after a whole programming pass of `data` at block-aligned
/// `a`: the written range holds the data, the rest of every touched
/// block is left erased, and everything else is untouched.
pub open spec fn flashed_mem(mem: Seq<u8>, a: int, data: Seq<u8>) -> Seq<u8> {
    Seq::new(
        mem.len(),
        |i: int|
            if a <= i < a + data.len() {
                data[i - a]
            } else if a <= i < a + n_blocks(data.len() as int) * BLOCK_SIZE {
                0xFFu8
            } else {
                mem[i]
            },
    )
}

/// Chip state after a successful programming pass: the memory as in
/// `flashed_mem`, the write-enable latch spent by the last operation,
/// the chip busy from the last program, one erase per touched block,
/// one program per touched page, and one status poll per wait the pass
/// performed (the first wait consumes the initial busy polls and each
/// of the remaining ones the `busy_per_op` polls of the operation
/// before it).
pub open spec fn flash_committed(c: ChipState, a: int, data: Seq<u8>) -> ChipState {
    if data.len() == 0 {
        c
    } else {
        let waits = n_blocks(data.len() as int) + n_pages(data.len() as int);
        ChipState {
            mem: flashed_mem(c.mem, a, data),
            wel: false,
            busy: c.busy_per_op,
            erases: (c.erases + n_blocks(data.len() as int)) as nat,
            programs: (c.programs + n_pages(data.len() as int)) as nat,
            status_reads: (c.status_reads + c.busy + waits + (waits - 1) * c.busy_per_op) as nat,
            ..c
        }
    }
}

/// Programming can only clear bits, never set them: every byte of the
/// programmed memory, old memory, and data satisfies `new == old & d`,
/// so the new byte has no bit the old byte lacked.
pub proof fn lemma_program_only_clears(mem: Seq<u8>, a: int, data: Seq<u8>, i: int)
    requires
        0 <= i < mem.len(),
    ensures
        programmed(mem, a, data)[i] & mem[i] == programmed(mem, a, data)[i],
{
    if a <= i < a + data.len() {
        let m = mem[i];
        let d = data[i - a];
        assert((m & d) & m == m & d) by (bit_vector);
    } else {
        let m = mem[i];
        assert(m & m == m) by (bit_vector);
    }
}

} // verus!
