//! Bus arbitration and session pin handling.
//!
//! The flash chip shares its SPI lines with an FPGA, so a programming
//! session must first force the FPGA off the bus: claim the six lines,
//! then hold the FPGA's reset low so it abandons configuration and
//! releases its chip select.  At the end of a session every line is
//! returned to a neutral input state so that neither a later session
//! nor the FPGA's own boot is blocked by a stale output.  These
//! functions compute the exact ordered action lists; the hardware
//! binding executes them against the physical lines.

use vstd::prelude::*;

verus! {

/// Which physical GPIO line serves each logical role.  Injected at
/// session start so the same logic runs against any wiring.
#[derive(Debug, Clone, Copy, PartialEq, Eq)]
pub struct PinMap {
    pub fpga_reset: u8,
    pub fpga_cs: u8,
    pub flash_cs: u8,
    pub flash_sdi: u8,
    pub flash_sdo: u8,
    pub flash_sck: u8,
}

impl PinMap {
    /// The board's wiring: FPGA reset on line 6, FPGA chip select on
    /// 13, flash chip select on 5, flash data in on 9, flash data out
    /// on 10, flash clock on 11.
    pub fn default_wiring() -> (r: PinMap)
        ensures
            r == (PinMap {
                fpga_reset: 6u8,
                fpga_cs: 13u8,
                flash_cs: 5u8,
                flash_sdi: 9u8,
                flash_sdo: 10u8,
                flash_sck: 11u8,
            }),
    {
        PinMap { fpga_reset: 6, fpga_cs: 13, flash_cs: 5, flash_sdi: 9, flash_sdo: 10, flash_sck: 11 }
    }
}

/// One step of a pin sequence: configure a line as an output at a
/// level, as a floating input, drive an already-configured output, or
/// pause.
#[derive(Debug, Clone, Copy, PartialEq, Eq)]
pub enum PinAction {
    MakeOutput { line: u8, high: bool },
    MakeInput { line: u8 },
    SetLevel { line: u8, high: bool },
    SleepMillis { millis: u64 },
}

/// The session-start sequence: claim every line in its idle state
/// (both chip selects deasserted, clock low, FPGA reset still high),
/// wait, then pull the FPGA reset low and hold it, which makes the
/// FPGA release the shared SPI bus so the flash chip can be driven.
pub fn startup_actions(m: &PinMap) -> (r: Vec<PinAction>)
    ensures
        r@ == seq![
            PinAction::MakeOutput { line: m.fpga_reset, high: true },
            PinAction::MakeInput { line: m.fpga_cs },
            PinAction::MakeOutput { line: m.flash_cs, high: true },
            PinAction::MakeOutput { line: m.flash_sdi, high: true },
            PinAction::MakeOutput { line: m.flash_sck, high: false },
            PinAction::MakeInput { line: m.flash_sdo },
            PinAction::SleepMillis { millis: 1u64 },
            PinAction::SetLevel { line: m.fpga_reset, high: false },
            PinAction::SleepMillis { millis: 1u64 },
        ],
{
    let mut r: Vec<PinAction> = Vec::new();
    r.push(PinAction::MakeOutput { line: m.fpga_reset, high: true });
    r.push(PinAction::MakeInput { line: m.fpga_cs });
    r.push(PinAction::MakeOutput { line: m.flash_cs, high: true });
    r.push(PinAction::MakeOutput { line: m.flash_sdi, high: true });
    r.push(PinAction::MakeOutput { line: m.flash_sck, high: false });
    r.push(PinAction::MakeInput { line: m.flash_sdo });
    r.push(PinAction::SleepMillis { millis: 1 });
    r.push(PinAction::SetLevel { line: m.fpga_reset, high: false });
    r.push(PinAction::SleepMillis { millis: 1 });
    proof {
        assert(r@ =~= seq![
            PinAction::MakeOutput { line: m.fpga_reset, high: true },
            PinAction::MakeInput { line: m.fpga_cs },
            PinAction::MakeOutput { line: m.flash_cs, high: true },
            PinAction::MakeOutput { line: m.flash_sdi, high: true },
            PinAction::MakeOutput { line: m.flash_sck, high: false },
            PinAction::MakeInput { line: m.flash_sdo },
            PinAction::SleepMillis { millis: 1u64 },
            PinAction::SetLevel { line: m.fpga_reset, high: false },
            PinAction::SleepMillis { millis: 1u64 },
        ]);
    }
    r
}

/// The session-end sequence: return every owned line to a neutral
/// input, without forcing a final level, so a later session or the
/// FPGA's own boot starts from a clean bus.
pub fn release_actions(m: &PinMap) -> (r: Vec<PinAction>)
    ensures
        r@ == seq![
            PinAction::MakeInput { line: m.fpga_reset },
            PinAction::MakeInput { line: m.fpga_cs },
            PinAction::MakeInput { line: m.flash_cs },
            PinAction::MakeInput { line: m.flash_sdi },
            PinAction::MakeInput { line: m.flash_sck },
            PinAction::MakeInput { line: m.flash_sdo },
        ],
{
    let mut r: Vec<PinAction> = Vec::new();
    r.push(PinAction::MakeInput { line: m.fpga_reset });
    r.push(PinAction::MakeInput { line: m.fpga_cs });
    r.push(PinAction::MakeInput { line: m.flash_cs });
    r.push(PinAction::MakeInput { line: m.flash_sdi });
    r.push(PinAction::MakeInput { line: m.flash_sck });
    r.push(PinAction::MakeInput { line: m.flash_sdo });
    proof {
        assert(r@ =~= seq![
            PinAction::MakeInput { line: m.fpga_reset },
            PinAction::MakeInput { line: m.fpga_cs },
            PinAction::MakeInput { line: m.flash_cs },
            PinAction::MakeInput { line: m.flash_sdi },
            PinAction::MakeInput { line: m.flash_sck },
            PinAction::MakeInput { line: m.flash_sdo },
        ]);
    }
    r
}

} // verus!
