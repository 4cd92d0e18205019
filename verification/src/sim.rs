//! In-memory flash chip: a verified implementation of `FlashPort`.
//!
//! It executes the modelled protocol exactly: erase sets every bit of a
//! block, program clears bits, the busy flag is reported for a
//! configurable number of polls after each operation, and commands are
//! only honoured under the modelled preconditions.  The driver is
//! proved against the port contracts, so everything proved of it holds
//! when it runs against this chip; tests use it to exercise the driver
//! end to end and to count the operations it issues.

use vstd::prelude::*;

use crate::model::block_base;
use crate::model::commit;
use crate::model::erased_block;
use crate::model::programmed;
use crate::model::ChipState;
use crate::model::FlashPort;
use crate::model::PortState;
use crate::model::BLOCK_SIZE;
use crate::model::OP_BLOCK_ERASE;
use crate::model::OP_PROGRAM;
use crate::model::OP_READ;
use crate::model::OP_READ_STATUS;
use crate::model::OP_WAKE;
use crate::model::OP_WRITE_ENABLE;

verus! {

/// Saturate a mathematical counter at the largest `u64`.
pub open spec fn sat64(n: nat) -> nat {
    if n < u64::MAX as nat {
        n
    } else {
        u64::MAX as nat
    }
}

/// An operation counter: the value it hands out saturates at
/// `u64::MAX`, while the mathematical count it stands for is exact.
pub struct SatCounter {
    val: u64,
    total: Ghost<nat>,
}

impl SatCounter {
    /// The saturating value always mirrors the exact count.
    #[verifier::type_invariant]
    closed spec fn inv(self) -> bool {
        self.val as nat == sat64(self.total@)
    }

    /// The exact count.
    pub closed spec fn total(self) -> nat {
        self.total@
    }

    /// A counter at zero.
    pub fn new() -> (r: Self)
        ensures
            r.total() == 0,
    {
        SatCounter { val: 0, total: Ghost(0) }
    }

    /// Count one more event.
    pub fn inc(&mut self)
        ensures
            final(self).total() == old(self).total() + 1,
    {
        proof {
            use_type_invariant(&*self);
        }
        let v: u64 = if self.val < u64::MAX {
            self.val + 1
        } else {
            self.val
        };
        let ghost t = self.total@ + 1;
        *self = SatCounter { val: v, total: Ghost(t) };
    }

    /// The count, saturating at `u64::MAX`.
    pub fn get(&self) -> (r: u64)
        ensures
            self.total() <= u64::MAX as nat ==> r as nat == self.total(),
            r as nat <= self.total(),
    {
        proof {
            use_type_invariant(self);
        }
        self.val
    }
}

/// A simulated NOR flash chip on a byte-level SPI port.
///
/// The operation counters saturate; the mathematical counts they mirror
/// are exact and are what the abstract `ChipState` exposes.
pub struct SimFlash {
    mem: Vec<u8>,
    busy: u32,
    busy_per_op: u32,
    wel: bool,
    awake: bool,
    selected: bool,
    txn: Vec<u8>,
    reads: usize,
    erases: SatCounter,
    programs: SatCounter,
    status_reads: SatCounter,
}

impl SimFlash {
    /// A fresh chip holding `mem`, deselected, in power-down, with the
    /// write-enable latch clear.  It reports busy for the next `busy`
    /// status polls, and for `busy_per_op` polls after each program or
    /// erase.
    pub fn new(mem: Vec<u8>, busy: u32, busy_per_op: u32) -> (r: Self)
        ensures
            r.st() == (PortState {
                selected: false,
                txn: Seq::empty(),
                reads: 0,
                chip: ChipState {
                    mem: mem@,
                    busy: busy as nat,
                    busy_per_op: busy_per_op as nat,
                    wel: false,
                    awake: false,
                    erases: 0,
                    programs: 0,
                    status_reads: 0,
                },
            }),
    {
        SimFlash {
            mem,
            busy,
            busy_per_op,
            wel: false,
            awake: false,
            selected: false,
            txn: Vec::new(),
            reads: 0,
            erases: SatCounter::new(),
            programs: SatCounter::new(),
            status_reads: SatCounter::new(),
        }
    }

    /// How many block erases the chip has executed, saturating at
    /// `u64::MAX`.
    pub fn erase_ops(&self) -> (r: u64)
        ensures
            self.st().chip.erases <= u64::MAX as nat ==> r as nat == self.st().chip.erases,
    {
        self.erases.get()
    }

    /// How many page programs the chip has executed, saturating at
    /// `u64::MAX`.
    pub fn program_ops(&self) -> (r: u64)
        ensures
            self.st().chip.programs <= u64::MAX as nat ==> r as nat == self.st().chip.programs,
    {
        self.programs.get()
    }

    /// How many status polls the chip has answered, saturating at
    /// `u64::MAX`.
    pub fn status_read_ops(&self) -> (r: u64)
        ensures
            self.st().chip.status_reads <= u64::MAX as nat ==> r as nat
                == self.st().chip.status_reads,
    {
        self.status_reads.get()
    }

    /// The byte stored at `index`, bypassing the bus.
    pub fn memory_byte(&self, index: usize) -> (r: u8)
        requires
            index < self.st().chip.mem.len(),
        ensures
            r == self.st().chip.mem[index as int],
    {
        self.mem[index]
    }

    /// How many bytes the chip holds.
    pub fn memory_len(&self) -> (r: usize)
        ensures
            r == self.st().chip.mem.len(),
    {
        self.mem.len()
    }

    /// Bitwise-and `data` (the bytes of `txn` from `from` on) into
    /// `mem` starting at `a`: the memory half of a page program.
    fn apply_program(mem: &mut Vec<u8>, a: usize, txn: &Vec<u8>, from: usize)
        requires
            from <= txn@.len(),
            a + (txn@.len() - from) <= old(mem)@.len(),
        ensures
            final(mem)@ == programmed(old(mem)@, a as int, txn@.subrange(
                from as int,
                txn@.len() as int,
            )),
    {
        let count: usize = txn.len() - from;
        let mut k: usize = 0;
        proof {
            assert(mem@.len() == mem.len());
            assert(txn@.len() == txn.len());
        }
        while k < count
            invariant
                k <= count,
                count == txn@.len() - from,
                a + count <= mem@.len(),
                mem@.len() <= usize::MAX,
                txn@.len() <= usize::MAX,
                mem@.len() == old(mem)@.len(),
                mem@ =~= programmed(old(mem)@, a as int, txn@.subrange(
                    from as int,
                    (from + k) as int,
                )),
            decreases count - k,
        {
            let ghost prev = mem@;
            let b: u8 = mem[a + k] & txn[from + k];
            mem[a + k] = b;
            proof {
                assert(prev[(a + k) as int] == old(mem)@[(a + k) as int]);
                assert(mem@ =~= programmed(old(mem)@, a as int, txn@.subrange(
                    from as int,
                    (from + k + 1) as int,
                )));
            }
            k = k + 1;
        }
        proof {
            assert(txn@.subrange(from as int, (from + count) as int) =~= txn@.subrange(
                from as int,
                txn@.len() as int,
            ));
        }
    }

    /// Set every byte of the block starting at `base` to 0xFF: the
    /// memory half of a block erase.
    fn apply_erase(mem: &mut Vec<u8>, base: usize)
        requires
            base + BLOCK_SIZE <= old(mem)@.len(),
            (base as int) % (BLOCK_SIZE as int) == 0,
        ensures
            final(mem)@ == erased_block(old(mem)@, base as int),
    {
        let mut k: usize = 0;
        proof {
            assert(mem@.len() == mem.len());
        }
        while k < BLOCK_SIZE
            invariant
                k <= BLOCK_SIZE,
                base + BLOCK_SIZE <= mem@.len(),
                mem@.len() <= usize::MAX,
                mem@.len() == old(mem)@.len(),
                forall|i: int|
                    0 <= i < mem@.len() ==> mem@[i] == if base <= i < base + k {
                        0xFFu8
                    } else {
                        old(mem)@[i]
                    },
            decreases BLOCK_SIZE - k,
        {
            mem[base + k] = 0xFF;
            k = k + 1;
        }
        proof {
            assert(block_base(base as int) == base as int) by {
                vstd::arithmetic::div_mod::lemma_fundamental_div_mod(
                    base as int,
                    BLOCK_SIZE as int,
                );
            }
            assert(mem@ =~= erased_block(old(mem)@, base as int));
        }
    }

    /// The 24-bit address carried in bytes 1 to 3 of the transaction.
    fn txn_address(txn: &Vec<u8>) -> (r: usize)
        requires
            txn@.len() >= 4,
        ensures
            r as int == crate::model::txn_addr(txn@),
            r < crate::model::ADDRESS_SPACE,
    {
        (txn[1] as usize) * 65536 + (txn[2] as usize) * 256 + (txn[3] as usize)
    }
}

impl FlashPort for SimFlash {
    closed spec fn st(&self) -> PortState {
        PortState {
            selected: self.selected,
            txn: self.txn@,
            reads: self.reads as nat,
            chip: ChipState {
                mem: self.mem@,
                busy: self.busy as nat,
                busy_per_op: self.busy_per_op as nat,
                wel: self.wel,
                awake: self.awake,
                erases: self.erases.total(),
                programs: self.programs.total(),
                status_reads: self.status_reads.total(),
            },
        }
    }

    fn select(&mut self) {
        self.selected = true;
        self.txn.clear();
        self.reads = 0;
    }

    fn write_byte(&mut self, b: u8) {
        self.txn.push(b);
    }

    fn read_byte(&mut self) -> (r: u8) {
        let op: u8 = self.txn[0];
        if op == OP_READ_STATUS {
            let r: u8 = if self.busy > 0 {
                self.busy = self.busy - 1;
                1
            } else {
                0
            };
            self.status_reads.inc();
            self.reads = self.reads + 1;
            r
        } else {
            proof {
                assert(self.mem@.len() == self.mem.len());
            }
            let a: usize = Self::txn_address(&self.txn) + self.reads;
            let r: u8 = self.mem[a];
            self.reads = self.reads + 1;
            r
        }
    }

    fn deselect(&mut self) {
        let ghost entry = self.st();
        self.selected = false;
        if self.txn.len() > 0 {
            let op: u8 = self.txn[0];
            if op == OP_WAKE {
                self.awake = true;
            } else if op == OP_WRITE_ENABLE {
                self.wel = true;
            } else if op == OP_PROGRAM {
                let a: usize = Self::txn_address(&self.txn);
                Self::apply_program(&mut self.mem, a, &self.txn, 4);
                self.wel = false;
                self.busy = self.busy_per_op;
                self.programs.inc();
            } else if op == OP_BLOCK_ERASE {
                let a: usize = Self::txn_address(&self.txn);
                let base: usize = (a / 65536) * 65536;
                Self::apply_erase(&mut self.mem, base);
                self.wel = false;
                self.busy = self.busy_per_op;
                self.erases.inc();
            }
        }
        self.txn.clear();
        self.reads = 0;
        proof {
            assert(self.st().chip == commit(entry));
        }
    }
}

} // verus!
