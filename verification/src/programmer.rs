//! The flash programmer: protocol framing and the programming
//! algorithm, generic over the byte-level port it drives.
//!
//! Every public operation starts and ends with the chip deselected.
//! The contracts describe each operation's effect on the abstract chip
//! state; the programming pass's contract pins down the final memory
//! image, the exact number of erase, program and status-poll operations
//! issued, and the conditions under which it succeeds.

use vstd::prelude::*;
use vstd::slice::slice_index_get;
use vstd::slice::slice_subrange;

use crate::model::addr_byte0;
use crate::model::addr_byte1;
use crate::model::addr_byte2;
use crate::model::block_base;
use crate::model::erase_committed;
use crate::model::erased_block;
use crate::model::flash_committed;
use crate::model::flashed_mem;
use crate::model::geometry_ok;
use crate::model::idle_st;
use crate::model::is_erase;
use crate::model::is_program;
use crate::model::is_read;
use crate::model::is_status;
use crate::model::is_wake;
use crate::model::is_write_enable;
use crate::model::lemma_addr_bytes;
use crate::model::n_blocks;
use crate::model::n_pages;
use crate::model::polled;
use crate::model::program_committed;
use crate::model::programmed;
use crate::model::status_polled;
use crate::model::txn_addr;
use crate::model::ChipState;
use crate::model::FlashPort;
use crate::model::PortState;
use crate::model::ADDRESS_SPACE;
use crate::model::BLOCK_SIZE;
use crate::model::OP_BLOCK_ERASE;
use crate::model::OP_PROGRAM;
use crate::model::OP_READ;
use crate::model::OP_READ_STATUS;
use crate::model::OP_WAKE;
use crate::model::OP_WRITE_ENABLE;
use crate::model::PAGE_SIZE;

verus! {

/// Why a flash operation failed.
#[derive(Debug, PartialEq, Eq)]
pub enum FlashError {
    /// A page program was handed more than one page of data; nothing
    /// was sent to the chip.
    InvalidArgument,
    /// The chip still reported busy after the driver's whole poll
    /// budget was spent.
    DeviceNotResponding,
    /// The readback differed from the expected image, first at byte
    /// `index` of the buffer, which lies in page `index / 256`; the
    /// buffer expected `expected` and the chip returned `actual`.
    Verification { page: usize, index: usize, expected: u8, actual: u8 },
}

/// A session with the flash chip over a byte-level port.
///
/// `poll_limit` bounds every busy wait: an operation that needs the
/// chip idle polls the status register at most that many times before
/// giving up with `DeviceNotResponding`.
pub struct FlashProgrammer<P: FlashPort> {
    pub port: P,
    pub poll_limit: u64,
}

impl<P: FlashPort> FlashProgrammer<P> {
    /// The abstract state of the chip behind the port.
    pub open spec fn chip(self) -> ChipState {
        self.port.st().chip
    }

    /// Between operations the chip is deselected with no transaction
    /// pending, the chip is awake, and the poll budget is positive.
    pub open spec fn ready(self) -> bool {
        &&& self.port.st() == idle_st(self.port.st().chip)
        &&& self.chip().awake
        &&& self.poll_limit >= 1
    }

    /// Open a session on `port`: wake the chip from power-down.
    /// `poll_limit` becomes the session's busy-poll budget.
    pub fn new(port: P, poll_limit: u64) -> (r: Self)
        requires
            !port.st().selected,
            poll_limit >= 1,
        ensures
            r.ready(),
            r.poll_limit == poll_limit,
            r.chip() == (ChipState { awake: true, ..port.st().chip }),
    {
        let mut r = FlashProgrammer { port, poll_limit };
        r.wake();
        r
    }

    /// Release the chip from power-down; required once before any
    /// other command is honoured.
    pub fn wake(&mut self)
        requires
            !old(self).port.st().selected,
            old(self).poll_limit >= 1,
        ensures
            final(self).ready(),
            final(self).poll_limit == old(self).poll_limit,
            final(self).chip() == (ChipState { awake: true, ..old(self).chip() }),
    {
        self.port.select();
        self.port.write_byte(OP_WAKE);
        proof {
            assert(is_wake(self.port.st().txn));
        }
        self.port.deselect();
    }

    /// Read the status register.  Bit 0 of the result is the busy
    /// flag; one poll is consumed.
    pub fn read_status(&mut self) -> (r: u8)
        requires
            old(self).ready(),
        ensures
            final(self).ready(),
            final(self).poll_limit == old(self).poll_limit,
            final(self).chip() == status_polled(old(self).chip()),
            r == 1u8 <==> old(self).chip().busy > 0,
            r == 0u8 <==> old(self).chip().busy == 0,
    {
        self.port.select();
        self.port.write_byte(OP_READ_STATUS);
        proof {
            assert(is_status(self.port.st().txn));
        }
        let r = self.port.read_byte();
        self.port.deselect();
        r
    }

    /// Set the write-enable latch; must immediately precede every
    /// program or erase, since the chip clears the latch again after
    /// executing one.
    pub fn write_enable(&mut self)
        requires
            old(self).ready(),
        ensures
            final(self).ready(),
            final(self).poll_limit == old(self).poll_limit,
            final(self).chip() == (ChipState { wel: true, ..old(self).chip() }),
    {
        self.port.select();
        self.port.write_byte(OP_WRITE_ENABLE);
        proof {
            assert(is_write_enable(self.port.st().txn));
        }
        self.port.deselect();
    }

    /// Poll the status register until the busy flag clears, but at
    /// most `poll_limit` times.  If the chip reports busy for `k`
    /// polls and `k < poll_limit`, exactly `k + 1` status reads happen
    /// and the wait succeeds; otherwise the whole budget is spent and
    /// the wait fails.
    pub fn await_ready(&mut self) -> (r: Result<(), FlashError>)
        requires
            old(self).ready(),
        ensures
            final(self).ready(),
            final(self).poll_limit == old(self).poll_limit,
            r is Ok <==> old(self).chip().busy < old(self).poll_limit,
            r is Ok ==> final(self).chip() == polled(old(self).chip(), old(self).chip().busy + 1),
            !(r is Ok) ==> r == Err::<(), FlashError>(FlashError::DeviceNotResponding),
            !(r is Ok) ==> final(self).chip() == polled(
                old(self).chip(),
                old(self).poll_limit as nat,
            ),
    {
        let mut polls: u64 = 0;
        while polls < self.poll_limit
            invariant
                self.ready(),
                self.poll_limit == old(self).poll_limit,
                polls <= self.poll_limit,
                polls as nat <= old(self).chip().busy,
                self.chip() == polled(old(self).chip(), polls as nat),
            decreases self.poll_limit - polls,
        {
            let s = self.read_status();
            polls = polls + 1;
            proof {
                assert(0u8 & 1 == 0) by (bit_vector);
                assert(1u8 & 1 == 1) by (bit_vector);
            }
            if s & 1 == 0 {
                proof {
                    assert(old(self).chip().busy == polls - 1);
                    assert(self.chip() == polled(old(self).chip(), old(self).chip().busy + 1));
                }
                return Ok(());
            }
        }
        Err(FlashError::DeviceNotResponding)
    }

    /// Ship the 3 big-endian bytes of a 24-bit address.
    fn write_address(&mut self, address: usize)
        requires
            old(self).port.st().selected,
            old(self).port.st().reads == 0,
            address < ADDRESS_SPACE,
        ensures
            final(self).poll_limit == old(self).poll_limit,
            final(self).port.st() == (PortState {
                txn: old(self).port.st().txn.push(addr_byte2(address as int)).push(
                    addr_byte1(address as int),
                ).push(addr_byte0(address as int)),
                ..old(self).port.st()
            }),
    {
        let a: u64 = address as u64;
        let b2: u8 = (a >> 16) as u8;
        let b1: u8 = (a >> 8) as u8;
        let b0: u8 = a as u8;
        proof {
            assert((a >> 16) as u8 == ((a / 0x10000) % 0x100) as u8) by (bit_vector);
            assert((a >> 8) as u8 == ((a / 0x100) % 0x100) as u8) by (bit_vector);
            assert(a as u8 == (a % 0x100) as u8) by (bit_vector);
            assert(b2 == addr_byte2(address as int));
            assert(b1 == addr_byte1(address as int));
            assert(b0 == addr_byte0(address as int));
        }
        self.port.write_byte(b2);
        self.port.write_byte(b1);
        self.port.write_byte(b0);
    }

    /// Erase the block containing `address`: every byte of that block
    /// becomes 0xFF, destroying whatever else the block held.  The
    /// chip rounds the address down to its block; callers should pass
    /// a block-aligned address for clarity.  Issues the write enable
    /// itself; the chip must already be idle.
    pub fn erase_block(&mut self, address: usize)
        requires
            old(self).ready(),
            old(self).chip().busy == 0,
            address < ADDRESS_SPACE,
            block_base(address as int) + BLOCK_SIZE <= old(self).chip().mem.len(),
        ensures
            final(self).ready(),
            final(self).poll_limit == old(self).poll_limit,
            final(self).chip() == erase_committed(old(self).chip(), address as int),
    {
        self.write_enable();
        self.port.select();
        self.port.write_byte(OP_BLOCK_ERASE);
        self.write_address(address);
        proof {
            let t = self.port.st().txn;
            assert(is_erase(t));
            assert(txn_addr(t) == address as int) by {
                lemma_addr_bytes(address as int);
            }
        }
        self.port.deselect();
    }

    /// Program at most one page of data at `address`: each targeted
    /// byte becomes the bitwise and of its old value and the data
    /// byte, so only a previously erased page takes the data verbatim.
    /// More than one page of data is rejected before any bus activity.
    /// Issues the write enable itself; the chip must already be idle,
    /// and the data must not run past the page boundary, which the
    /// chip would wrap around.
    pub fn program_page(&mut self, data: &[u8], address: usize) -> (r: Result<(), FlashError>)
        requires
            old(self).ready(),
            data@.len() <= PAGE_SIZE ==> {
                &&& old(self).chip().busy == 0
                &&& address < ADDRESS_SPACE
                &&& address + data@.len() <= old(self).chip().mem.len()
                &&& (address as int) % (PAGE_SIZE as int) + data@.len() <= PAGE_SIZE
            },
        ensures
            final(self).poll_limit == old(self).poll_limit,
            r is Err <==> data@.len() > PAGE_SIZE,
            r is Err ==> r == Err::<(), FlashError>(FlashError::InvalidArgument) && *final(self)
                == *old(self),
            r is Ok ==> final(self).ready() && final(self).chip() == program_committed(
                old(self).chip(),
                address as int,
                data@,
            ),
    {
        if data.len() > PAGE_SIZE {
            return Err(FlashError::InvalidArgument);
        }
        self.write_enable();
        self.port.select();
        self.port.write_byte(OP_PROGRAM);
        self.write_address(address);
        let ghost header = self.port.st().txn;
        proof {
            assert(header + data@.subrange(0, 0) =~= header);
        }
        let mut k: usize = 0;
        while k < data.len()
            invariant
                k <= data@.len(),
                data@.len() <= PAGE_SIZE,
                self.poll_limit == old(self).poll_limit,
                self.poll_limit >= 1,
                old(self).chip().busy == 0,
                old(self).chip().awake,
                address < ADDRESS_SPACE,
                address + data@.len() <= old(self).chip().mem.len(),
                (address as int) % (PAGE_SIZE as int) + data@.len() <= PAGE_SIZE,
                header == seq![OP_PROGRAM, addr_byte2(address as int), addr_byte1(address as int), addr_byte0(address as int)],
                self.port.st() == (PortState {
                    selected: true,
                    txn: header + data@.subrange(0, k as int),
                    reads: 0,
                    chip: ChipState { wel: true, ..old(self).chip() },
                }),
            decreases data@.len() - k,
        {
            let b = *vstd::slice::slice_index_get(data, k);
            self.port.write_byte(b);
            proof {
                assert((header + data@.subrange(0, k as int)).push(b) =~= header + data@.subrange(
                    0,
                    k + 1,
                ));
            }
            k = k + 1;
        }
        proof {
            let t = self.port.st().txn;
            assert(data@.subrange(0, data@.len() as int) =~= data@);
            assert(t == header + data@);
            assert(t[0] == OP_PROGRAM);
            assert(is_program(t));
            assert(txn_addr(t) == address as int) by {
                lemma_addr_bytes(address as int);
            }
            assert(t.subrange(4, t.len() as int) =~= data@);
        }
        self.port.deselect();
        Ok(())
    }

    /// Read `length` bytes starting at `address` in one transaction;
    /// the chip auto-increments the address, so the span may cross any
    /// number of page or block boundaries.  The chip must be idle.
    pub fn read_bytes(&mut self, address: usize, length: usize) -> (r: Vec<u8>)
        requires
            old(self).ready(),
            old(self).chip().busy == 0,
            address < ADDRESS_SPACE,
            address + length <= old(self).chip().mem.len(),
        ensures
            final(self).ready(),
            final(self).poll_limit == old(self).poll_limit,
            final(self).chip() == old(self).chip(),
            r@ == old(self).chip().mem.subrange(address as int, address + length),
    {
        let mut out: Vec<u8> = Vec::new();
        self.port.select();
        self.port.write_byte(OP_READ);
        self.write_address(address);
        proof {
            let t = self.port.st().txn;
            assert(is_read(t));
            assert(txn_addr(t) == address as int) by {
                lemma_addr_bytes(address as int);
            }
        }
        let ghost header = self.port.st().txn;
        proof {
            assert(out@ =~= old(self).chip().mem.subrange(address as int, address as int));
        }
        let mut k: usize = 0;
        while k < length
            invariant
                k <= length,
                self.poll_limit == old(self).poll_limit,
                self.poll_limit >= 1,
                old(self).chip().busy == 0,
                old(self).chip().awake,
                address + length <= old(self).chip().mem.len(),
                address < ADDRESS_SPACE,
                self.port.st() == (PortState {
                    selected: true,
                    txn: header,
                    reads: k as nat,
                    chip: old(self).chip(),
                }),
                is_read(header),
                txn_addr(header) == address as int,
                out@ =~= old(self).chip().mem.subrange(address as int, address + k),
            decreases length - k,
        {
            let b = self.port.read_byte();
            out.push(b);
            proof {
                assert(out@ =~= old(self).chip().mem.subrange(address as int, address + k + 1));
            }
            k = k + 1;
        }
        self.port.deselect();
        proof {
            assert(out@ =~= old(self).chip().mem.subrange(address as int, address + length));
        }
        out
    }

    /// Read `length` bytes at `address` for diagnostic dumping: a
    /// direct passthrough to the read command, independent of page and
    /// block boundaries.
    pub fn read_arbitrary(&mut self, address: usize, length: usize) -> (r: Vec<u8>)
        requires
            old(self).ready(),
            old(self).chip().busy == 0,
            address < ADDRESS_SPACE,
            address + length <= old(self).chip().mem.len(),
        ensures
            final(self).ready(),
            final(self).poll_limit == old(self).poll_limit,
            final(self).chip() == old(self).chip(),
            r@ == old(self).chip().mem.subrange(address as int, address + length),
            r@.len() == length,
    {
        self.read_bytes(address, length)
    }
}

/// Memory in the middle of a programming pass at `a`: `data` written up
/// to `off`, the first `eb` blocks erased (still 0xFF past `off`), and
/// everything outside the touched blocks untouched.
spec fn partial_mem(mem: Seq<u8>, a: int, data: Seq<u8>, off: int, eb: int) -> Seq<u8> {
    Seq::new(
        mem.len(),
        |i: int|
            if a <= i < a + off {
                data[i - a]
            } else if a <= i < a + eb * (BLOCK_SIZE as int) {
                0xFFu8
            } else {
                mem[i]
            },
    )
}

/// Status polls consumed by the first `w` busy waits of a programming
/// pass on a chip that had `b` busy polls pending: the first wait takes
/// `b + 1` polls and each further one `p + 1`.
spec fn wait_polls(b: nat, p: nat, w: int) -> int {
    if w <= 0 {
        0
    } else {
        b + w + (w - 1) * p
    }
}

/// The chip in the middle of a programming pass that started on `c0`:
/// `eb` blocks erased and `np` pages programmed so far, `data` written
/// up to `off`.
spec fn pass_state(c0: ChipState, a: int, data: Seq<u8>, off: int, eb: int, np: int) -> ChipState {
    ChipState {
        mem: partial_mem(c0.mem, a, data, off, eb),
        busy: if eb + np == 0 {
            c0.busy
        } else {
            c0.busy_per_op
        },
        busy_per_op: c0.busy_per_op,
        wel: if eb + np == 0 {
            c0.wel
        } else {
            false
        },
        awake: c0.awake,
        erases: (c0.erases + eb) as nat,
        programs: (c0.programs + np) as nat,
        status_reads: (c0.status_reads + wait_polls(c0.busy, c0.busy_per_op, eb + np)) as nat,
    }
}

/// Rounding up to `q` multiples of `d` covers exactly the lengths in
/// the last multiple's span.
proof fn lemma_ceil_div(x: int, d: int, q: int)
    requires
        d > 0,
        (q - 1) * d < x,
        x <= q * d,
    ensures
        (x + d - 1) / d == q,
{
    let r = x + d - 1 - q * d;
    assert(0 <= r < d && x + d - 1 == q * d + r) by (nonlinear_arith)
        requires
            d > 0,
            (q - 1) * d < x,
            x <= q * d,
            r == x + d - 1 - q * d,
    ;
    vstd::arithmetic::div_mod::lemma_fundamental_div_mod_converse(x + d - 1, d, q, r);
}

/// A multiple of the block size is also a multiple of the page size.
proof fn lemma_block_implies_page_aligned(x: int)
    requires
        x % (BLOCK_SIZE as int) == 0,
    ensures
        x % (PAGE_SIZE as int) == 0,
{
    vstd::arithmetic::div_mod::lemma_fundamental_div_mod(x, BLOCK_SIZE as int);
    let q = x / (BLOCK_SIZE as int);
    assert(x == (256 * q) * 256 + 0) by (nonlinear_arith)
        requires
            x == (BLOCK_SIZE as int) * q,
    ;
    vstd::arithmetic::div_mod::lemma_fundamental_div_mod_converse(x, PAGE_SIZE as int, 256 * q, 0);
}

/// The sum of two multiples of `d` is a multiple of `d`.
proof fn lemma_mod_zero_add(x: int, y: int, d: int)
    requires
        d > 0,
        x % d == 0,
        y % d == 0,
    ensures
        (x + y) % d == 0,
{
    vstd::arithmetic::div_mod::lemma_fundamental_div_mod(x, d);
    vstd::arithmetic::div_mod::lemma_fundamental_div_mod(y, d);
    assert(x + y == (x / d + y / d) * d + 0) by (nonlinear_arith)
        requires
            x == d * (x / d),
            y == d * (y / d),
    ;
    vstd::arithmetic::div_mod::lemma_fundamental_div_mod_converse(x + y, d, x / d + y / d, 0);
}

/// Below a larger multiple of `d`, a multiple of `d` has room for one
/// more `d`.
proof fn lemma_next_multiple(x: int, l: int, d: int)
    requires
        d > 0,
        0 <= x < l,
        x % d == 0,
        l % d == 0,
    ensures
        x + d <= l,
{
    vstd::arithmetic::div_mod::lemma_fundamental_div_mod(x, d);
    vstd::arithmetic::div_mod::lemma_fundamental_div_mod(l, d);
    vstd::arithmetic::div_mod::lemma_div_is_ordered(x, l, d);
    assert(x / d + 1 <= l / d) by {
        if x / d == l / d {
            assert(x == l);
        }
    }
    assert(x + d <= l) by (nonlinear_arith)
        requires
            d > 0,
            x == d * (x / d),
            l == d * (l / d),
            x / d + 1 <= l / d,
    ;
}

/// An address that is a multiple of the block size is the base of its
/// block.
proof fn lemma_block_base_aligned(x: int)
    requires
        0 <= x,
        x % (BLOCK_SIZE as int) == 0,
    ensures
        block_base(x) == x,
{
    vstd::arithmetic::div_mod::lemma_fundamental_div_mod(x, BLOCK_SIZE as int);
}

/// Before anything happened, the partial image is the untouched memory.
proof fn lemma_partial_mem_initial(mem: Seq<u8>, a: int, data: Seq<u8>)
    ensures
        partial_mem(mem, a, data, 0, 0) =~= mem,
{
}

/// Erasing the next block extends the erased region of the partial
/// image by one block.
proof fn lemma_erase_step(mem: Seq<u8>, a: int, data: Seq<u8>, off: int, eb: int)
    requires
        0 <= a,
        a % (BLOCK_SIZE as int) == 0,
        0 <= off <= data.len(),
        off == eb * (BLOCK_SIZE as int),
    ensures
        erased_block(partial_mem(mem, a, data, off, eb), a + off) =~= partial_mem(
            mem,
            a,
            data,
            off,
            eb + 1,
        ),
{
    lemma_mod_zero_add(a, off, BLOCK_SIZE as int);
    assert(off % (BLOCK_SIZE as int) == 0) by {
        vstd::arithmetic::div_mod::lemma_fundamental_div_mod_converse(off, BLOCK_SIZE as int, eb, 0);
    }
    lemma_block_base_aligned(a + off);
    assert((eb + 1) * (BLOCK_SIZE as int) == eb * (BLOCK_SIZE as int) + (BLOCK_SIZE as int))
        by (nonlinear_arith);
}

/// Programming the next page into the erased region writes the data
/// verbatim: an erased byte is 0xFF and programming ands the data in.
proof fn lemma_program_step(mem: Seq<u8>, a: int, data: Seq<u8>, off: int, eb: int, pe: int)
    requires
        0 <= a,
        0 <= off < pe <= data.len(),
        pe <= eb * (BLOCK_SIZE as int),
    ensures
        programmed(partial_mem(mem, a, data, off, eb), a + off, data.subrange(off, pe))
            =~= partial_mem(mem, a, data, pe, eb),
{
    let before = partial_mem(mem, a, data, off, eb);
    let sub = data.subrange(off, pe);
    let lhs = programmed(before, a + off, sub);
    let rhs = partial_mem(mem, a, data, pe, eb);
    assert forall|i: int| 0 <= i < mem.len() implies lhs[i] == rhs[i] by {
        if a + off <= i < a + pe {
            assert(before[i] == 0xFFu8);
            assert(lhs[i] == 0xFFu8 & data[i - a]);
            let d = data[i - a];
            assert(0xFFu8 & d == d) by (bit_vector);
        }
    }
}

impl<P: FlashPort> FlashProgrammer<P> {
    /// Program `data` at the block-aligned `address`: for each touched
    /// erase block, wait for the chip to go idle and erase it, then
    /// wait and program each of its pages in turn.  On success the
    /// written range holds `data` exactly, the rest of every touched
    /// block is erased to 0xFF (erasing is destructive at block
    /// granularity), untouched memory keeps its contents, and the chip
    /// executed exactly one erase per touched block and one program
    /// per touched page, still busy from the final program.  The pass
    /// fails with `DeviceNotResponding`, leaving the chip in the
    /// corresponding earlier state, exactly when a busy wait runs out
    /// of polls: at the first wait if the chip starts with at least
    /// `poll_limit` busy polls, else at the wait after the first erase
    /// if each operation's busy span reaches `poll_limit`.
    pub fn flash_data(&mut self, data: &[u8], address: usize) -> (r: Result<(), FlashError>)
        requires
            old(self).ready(),
            geometry_ok(old(self).chip()),
            (address as int) % (BLOCK_SIZE as int) == 0,
            address + data@.len() <= old(self).chip().mem.len(),
        ensures
            final(self).ready(),
            final(self).poll_limit == old(self).poll_limit,
            r is Ok <==> (data@.len() == 0 || (old(self).chip().busy < old(self).poll_limit && old(
                self,
            ).chip().busy_per_op < old(self).poll_limit)),
            r is Ok ==> final(self).chip() == flash_committed(
                old(self).chip(),
                address as int,
                data@,
            ),
            !(r is Ok) ==> r == Err::<(), FlashError>(FlashError::DeviceNotResponding),
            (!(r is Ok) && old(self).chip().busy >= old(self).poll_limit) ==> final(self).chip()
                == polled(old(self).chip(), old(self).poll_limit as nat),
            (!(r is Ok) && old(self).chip().busy < old(self).poll_limit) ==> final(self).chip()
                == polled(
                erase_committed(
                    polled(old(self).chip(), old(self).chip().busy + 1),
                    address as int,
                ),
                old(self).poll_limit as nat,
            ),
    {
        let ghost c0 = old(self).chip();
        let ghost a = address as int;
        let ghost d = data@;
        let len: usize = data.len();
        proof {
            lemma_block_implies_page_aligned(a);
        }
        let mut off: usize = 0;
        let ghost mut eb: int = 0;
        let ghost mut np: int = 0;
        proof {
            lemma_partial_mem_initial(c0.mem, a, d);
            assert(self.chip() == pass_state(c0, a, d, 0, 0, 0));
        }
        while off < len
            invariant
                self.ready(),
                self.poll_limit == old(self).poll_limit,
                c0 == old(self).chip(),
                a == address as int,
                d == data@,
                len == d.len(),
                geometry_ok(c0),
                a % (BLOCK_SIZE as int) == 0,
                a % (PAGE_SIZE as int) == 0,
                a + len <= c0.mem.len(),
                0 <= off <= len,
                0 <= eb,
                0 <= np,
                off == eb * (BLOCK_SIZE as int) || (off == len && eb == n_blocks(len as int)),
                off == np * (PAGE_SIZE as int) || (off == len && np == n_pages(len as int)),
                eb + np == 0 ==> off == 0 && eb == 0 && np == 0,
                self.chip() == pass_state(c0, a, d, off as int, eb, np),
                eb >= 1 ==> c0.busy < self.poll_limit,
                eb + np >= 2 ==> c0.busy_per_op < self.poll_limit,
            decreases len - off,
        {
            match self.await_ready() {
                Err(e) => {
                    proof {
                        if eb + np == 0 {
                            lemma_partial_mem_initial(c0.mem, a, d);
                            assert(pass_state(c0, a, d, 0, 0, 0) == c0);
                            assert(self.chip() == polled(c0, old(self).poll_limit as nat));
                        } else {
                            assert(eb >= 1) by {
                                if eb == 0 {
                                    assert(off == 0);
                                }
                            }
                            assert(eb * (BLOCK_SIZE as int) >= (BLOCK_SIZE as int))
                                by (nonlinear_arith)
                                requires
                                    eb >= 1,
                            ;
                            assert(np >= 1);
                            assert(false);
                        }
                    }
                    return Err(e);
                },
                Ok(()) => {},
            }
            self.erase_block(address + off);
            proof {
                lemma_erase_step(c0.mem, a, d, off as int, eb);
                eb = eb + 1;
                assert(self.chip() == pass_state(c0, a, d, off as int, eb, np)) by {
                    let p = c0.busy_per_op as int;
                    let w = eb + np;
                    assert((w - 1 - 1) * p + p == (w - 1) * p && (w - 1) * p + p == w * p && 0 * p
                        == 0) by (nonlinear_arith);
                }
            }
            let block_end: usize = if len - off < BLOCK_SIZE {
                len
            } else {
                off + BLOCK_SIZE
            };
            let ghost bs = off as int;
            while off < block_end
                invariant
                    self.ready(),
                    self.poll_limit == old(self).poll_limit,
                    c0 == old(self).chip(),
                    a == address as int,
                    d == data@,
                    len == d.len(),
                    geometry_ok(c0),
                    a % (BLOCK_SIZE as int) == 0,
                    a % (PAGE_SIZE as int) == 0,
                    a + len <= c0.mem.len(),
                    0 <= bs <= off <= block_end <= len,
                    bs == (eb - 1) * (BLOCK_SIZE as int),
                    block_end <= bs + BLOCK_SIZE,
                    block_end == len || block_end == bs + BLOCK_SIZE,
                    eb >= 1,
                    0 <= np,
                    off == np * (PAGE_SIZE as int) || (off == len && off == block_end && np
                        == n_pages(len as int)),
                    self.chip() == pass_state(c0, a, d, off as int, eb, np),
                    c0.busy < self.poll_limit,
                    eb + np >= 2 ==> c0.busy_per_op < self.poll_limit,
                decreases block_end - off,
            {
                match self.await_ready() {
                    Err(e) => {
                        proof {
                            assert(0 * (BLOCK_SIZE as int) == 0 && 0 * (PAGE_SIZE as int) == 0 && 0
                                * (c0.busy_per_op as int) == 0) by (nonlinear_arith);
                            assert(eb + np == 1);
                            assert(off == 0 && np == 0 && eb == 1 && bs == 0);
                            let c1 = polled(c0, c0.busy + 1);
                            let c2 = erase_committed(c1, a);
                            assert(erased_block(c0.mem, a) =~= partial_mem(c0.mem, a, d, 0, 1))
                                by {
                                lemma_partial_mem_initial(c0.mem, a, d);
                                lemma_erase_step(c0.mem, a, d, 0, 0);
                                assert(erased_block(partial_mem(c0.mem, a, d, 0, 0), a)
                                    =~= erased_block(c0.mem, a));
                            }
                            assert(self.chip() == polled(c2, old(self).poll_limit as nat));
                        }
                        return Err(e);
                    },
                    Ok(()) => {},
                }
                let page_end: usize = if block_end - off < PAGE_SIZE {
                    block_end
                } else {
                    off + PAGE_SIZE
                };
                let page = slice_subrange(data, off, page_end);
                proof {
                    vstd::arithmetic::div_mod::lemma_fundamental_div_mod_converse(
                        off as int,
                        PAGE_SIZE as int,
                        np,
                        0,
                    );
                    lemma_mod_zero_add(a, off as int, PAGE_SIZE as int);
                }
                match self.program_page(page, address + off) {
                    Err(e) => {
                        return Err(e);
                    },
                    Ok(()) => {},
                }
                proof {
                    assert((eb - 1) * (BLOCK_SIZE as int) + (BLOCK_SIZE as int) == eb * (
                    BLOCK_SIZE as int)) by (nonlinear_arith);
                    assert(page_end <= eb * (BLOCK_SIZE as int));
                    lemma_program_step(c0.mem, a, d, off as int, eb, page_end as int);
                    np = np + 1;
                    assert(self.chip() == pass_state(c0, a, d, page_end as int, eb, np)) by {
                        let p = c0.busy_per_op as int;
                        let w = eb + np;
                        assert((w - 1 - 1) * p + p == (w - 1) * p && (w - 1) * p + p == w * p && 0
                            * p == 0) by (nonlinear_arith);
                    }
                    assert((np - 1) * (PAGE_SIZE as int) + (PAGE_SIZE as int) == np * (
                    PAGE_SIZE as int)) by (nonlinear_arith);
                    if page_end == len {
                        lemma_ceil_div(len as int, PAGE_SIZE as int, np);
                    }
                }
                off = page_end;
            }
            proof {
                assert((eb - 1) * (BLOCK_SIZE as int) + (BLOCK_SIZE as int) == eb * (
                BLOCK_SIZE as int)) by (nonlinear_arith);
                if block_end == len && block_end < bs + BLOCK_SIZE {
                    lemma_ceil_div(len as int, BLOCK_SIZE as int, eb);
                } else {
                    assert(block_end as int == eb * (BLOCK_SIZE as int));
                    if block_end == len {
                        lemma_ceil_div(len as int, BLOCK_SIZE as int, eb);
                    }
                }
            }
        }
        proof {
            if len == 0 {
                lemma_partial_mem_initial(c0.mem, a, d);
                assert(self.chip() == c0);
                assert(self.chip() == flash_committed(c0, a, d));
            } else {
                assert(partial_mem(c0.mem, a, d, len as int, eb) =~= flashed_mem(c0.mem, a, d));
                assert(self.chip() == flash_committed(c0, a, d));
            }
        }
        Ok(())
    }

    /// Compare `data` against the chip's memory at the page-aligned
    /// `address`, reading it back page by page after a single busy
    /// wait.  Succeeds exactly when the wait succeeds and the whole
    /// range matches; on the first divergence it stops and reports the
    /// byte's index in the buffer, its page, and both bytes.  The
    /// chip's memory is never changed.
    pub fn verify_data(&mut self, data: &[u8], address: usize) -> (r: Result<(), FlashError>)
        requires
            old(self).ready(),
            geometry_ok(old(self).chip()),
            (address as int) % (PAGE_SIZE as int) == 0,
            address + data@.len() <= old(self).chip().mem.len(),
        ensures
            final(self).ready(),
            final(self).poll_limit == old(self).poll_limit,
            r is Ok <==> (old(self).chip().busy < old(self).poll_limit && data@ == old(
                self,
            ).chip().mem.subrange(address as int, address + data@.len())),
            old(self).chip().busy >= old(self).poll_limit ==> r == Err::<(), FlashError>(
                FlashError::DeviceNotResponding,
            ) && final(self).chip() == polled(old(self).chip(), old(self).poll_limit as nat),
            old(self).chip().busy < old(self).poll_limit ==> final(self).chip() == polled(
                old(self).chip(),
                old(self).chip().busy + 1,
            ),
            (old(self).chip().busy < old(self).poll_limit && data@ != old(self).chip().mem.subrange(
                address as int,
                address + data@.len(),
            )) ==> (r matches Err(FlashError::Verification { page, index, expected, actual })
                && index < data@.len() && data@[index as int] != old(self).chip().mem[address
                + index] && (forall|j: int|
                0 <= j < index ==> data@[j] == old(self).chip().mem[address + j]) && page == index
                / 256 && expected == data@[index as int] && actual == old(self).chip().mem[address
                + index]),
    {
        let ghost c0 = old(self).chip();
        let ghost a = address as int;
        match self.await_ready() {
            Err(e) => {
                return Err(e);
            },
            Ok(()) => {},
        }
        let len: usize = data.len();
        let mut off: usize = 0;
        while off < len
            invariant
                self.ready(),
                self.poll_limit == old(self).poll_limit,
                c0 == old(self).chip(),
                a == address as int,
                len == data@.len(),
                geometry_ok(c0),
                a % (PAGE_SIZE as int) == 0,
                a + len <= c0.mem.len(),
                0 <= off <= len,
                (off as int) % (PAGE_SIZE as int) == 0 || off == len,
                c0.busy < self.poll_limit,
                self.chip() == polled(c0, c0.busy + 1),
                forall|j: int| 0 <= j < off ==> data@[j] == c0.mem[a + j],
            decreases len - off,
        {
            proof {
                lemma_mod_zero_add(a, off as int, PAGE_SIZE as int);
                assert((c0.mem.len() as int) % (PAGE_SIZE as int) == 0) by {
                    lemma_block_implies_page_aligned(c0.mem.len() as int);
                }
                lemma_next_multiple(a + off, c0.mem.len() as int, PAGE_SIZE as int);
            }
            let readback = self.read_bytes(address + off, PAGE_SIZE);
            let chunk_end: usize = if len - off < PAGE_SIZE {
                len
            } else {
                off + PAGE_SIZE
            };
            let mut i: usize = 0;
            while i < chunk_end - off
                invariant
                    len == data@.len(),
                    a == address as int,
                    0 <= off <= len,
                    off + i <= chunk_end <= len,
                    chunk_end as int - off as int <= PAGE_SIZE,
                    (off as int) % (PAGE_SIZE as int) == 0,
                    a + len <= c0.mem.len(),
                    a + off + PAGE_SIZE <= c0.mem.len(),
                    readback@.len() == PAGE_SIZE,
                    readback@ == c0.mem.subrange(a + off, a + off + PAGE_SIZE),
                    c0 == old(self).chip(),
                    c0.busy < old(self).poll_limit,
                    self.poll_limit == old(self).poll_limit,
                    self.ready(),
                    self.chip() == polled(c0, c0.busy + 1),
                    forall|j: int| 0 <= j < off + i ==> data@[j] == c0.mem[a + j],
                decreases chunk_end - off - i,
            {
                let expected: u8 = *slice_index_get(data, off + i);
                let actual: u8 = readback[i];
                proof {
                    assert(actual == c0.mem[a + off + i]);
                }
                if expected != actual {
                    let index: usize = off + i;
                    let page: usize = off / PAGE_SIZE;
                    proof {
                        assert(data@[index as int] != c0.mem.subrange(a, a + len as int)[
                        index as int]);
                        assert(data@ != c0.mem.subrange(a, a + len as int));
                        vstd::arithmetic::div_mod::lemma_fundamental_div_mod(
                            off as int,
                            PAGE_SIZE as int,
                        );
                        vstd::arithmetic::div_mod::lemma_fundamental_div_mod_converse(
                            index as int,
                            256,
                            (off as int) / (PAGE_SIZE as int),
                            i as int,
                        );
                    }
                    return Err(
                        FlashError::Verification { page, index, expected, actual },
                    );
                }
                i = i + 1;
            }
            proof {
                if chunk_end < len {
                    lemma_mod_zero_add(off as int, PAGE_SIZE as int, PAGE_SIZE as int);
                }
            }
            off = chunk_end;
        }
        proof {
            assert(data@ =~= c0.mem.subrange(a, a + len as int));
        }
        Ok(())
    }

    /// Program `data` at the block-aligned `address` and verify it by
    /// readback.  The round trip is proved here: when the programming
    /// pass succeeds, the verify pass cannot report a mismatch, so the
    /// whole operation fails only with `DeviceNotResponding`, and only
    /// when a busy wait runs out of polls.
    pub fn flash_and_verify(&mut self, data: &[u8], address: usize) -> (r: Result<
        (),
        FlashError,
    >)
        requires
            old(self).ready(),
            geometry_ok(old(self).chip()),
            (address as int) % (BLOCK_SIZE as int) == 0,
            address + data@.len() <= old(self).chip().mem.len(),
        ensures
            final(self).ready(),
            final(self).poll_limit == old(self).poll_limit,
            r is Ok <==> (old(self).chip().busy < old(self).poll_limit && (data@.len() == 0 || old(
                self,
            ).chip().busy_per_op < old(self).poll_limit)),
            !(r is Ok) ==> r == Err::<(), FlashError>(FlashError::DeviceNotResponding),
            r is Ok ==> {
                let fc = flash_committed(old(self).chip(), address as int, data@);
                final(self).chip() == polled(fc, fc.busy + 1)
            },
    {
        let ghost c0 = old(self).chip();
        let ghost a = address as int;
        match self.flash_data(data, address) {
            Err(e) => {
                return Err(e);
            },
            Ok(()) => {},
        }
        proof {
            lemma_block_implies_page_aligned(a);
            lemma_flash_then_verify(c0, a, data@);
        }
        let v = self.verify_data(data, address);
        proof {
            if c0.busy < self.poll_limit && (data@.len() == 0 || c0.busy_per_op
                < self.poll_limit) {
                assert(v is Ok);
            }
        }
        v
    }
}

/// Wake the chip on `port` and dump `length` bytes starting at
/// `address`, independent of page and block boundaries.
pub fn dump<P: FlashPort>(port: P, address: usize, length: usize) -> (r: Vec<u8>)
    requires
        !port.st().selected,
        port.st().chip.busy == 0,
        address < ADDRESS_SPACE,
        address + length <= port.st().chip.mem.len(),
    ensures
        r@ == port.st().chip.mem.subrange(address as int, address + length),
        r@.len() == length,
{
    let mut programmer = FlashProgrammer::new(port, 1);
    programmer.read_arbitrary(address, length)
}

/// Round trip: after a successful programming pass of `data` at a
/// block-aligned `address`, the chip's memory over the written range
/// is exactly `data`, and the chip is busy for `busy_per_op` further
/// polls.  A verify pass of the same buffer at the same address
/// therefore succeeds whenever its poll budget exceeds `busy_per_op`,
/// by the contracts of `flash_data` and `verify_data`.
pub proof fn lemma_flash_then_verify(c: ChipState, a: int, data: Seq<u8>)
    requires
        geometry_ok(c),
        0 <= a,
        a % (BLOCK_SIZE as int) == 0,
        a + data.len() <= c.mem.len(),
    ensures
        flash_committed(c, a, data).mem.subrange(a, a + data.len()) == data,
        data.len() > 0 ==> flash_committed(c, a, data).busy == c.busy_per_op,
{
    assert(flash_committed(c, a, data).mem.subrange(a, a + data.len()) =~= data);
}

} // verus!
