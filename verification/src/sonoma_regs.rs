//! Register layouts of the Sonoma FPGA peripherals: pin types in the IO
//! table, frequency-counter control and status words, the vector status
//! word, and the addresses of each peripheral's registers.
//!
//! Reading and writing the registers themselves is memory-mapped I/O and
//! is done by the caller; this module computes what is written and decodes
//! what is read.

use vstd::prelude::*;

verus! {

pub const AXI_IO_TABLE_BASE: usize = 0x4004_0000;
pub const AXI_PULSE_CTRL_BASE: usize = 0x4005_0000;
pub const AXI_FREQ_COUNTER_BASE: usize = 0x4006_0000;
pub const AXI_VECTOR_STATUS_BASE: usize = 0x4007_0000;

pub const FPGA_VERSION: u32 = 0x0916_010F;
pub const PIN_COUNT: usize = 160;
pub const VECTOR_WIDTH: usize = 128;
pub const EXTRA_GPIO_WIDTH: usize = 32;
pub const MAX_ERROR_COUNT: usize = 1024;
pub const NUM_FREQ_COUNTERS: usize = 8;

/// Pin type in the IO table (4 bits per pin).
#[derive(Clone, Copy, Debug, PartialEq, Eq, Structural)]
pub enum PinType {
    /// Bidirectional {1,0,H,L}: the default.
    Bidi,
    /// Input only {X,X,H,L}.
    Input,
    /// Output only {1,0,Z,Z}.
    Output,
    /// Open collector {1,0,X,L}.
    OpenCollector,
    /// Positive pulse.
    Pulse,
    /// Negative pulse.
    NPulse,
    /// Error trigger output.
    ErrorTrig,
    /// Vector clock output.
    VecClk,
    /// Vector clock enable output.
    VecClkEn,
}

impl PinType {
    /// The 4-bit code of a pin type.
    pub open spec fn code(self) -> u32 {
        match self {
            PinType::Bidi => 0,
            PinType::Input => 1,
            PinType::Output => 2,
            PinType::OpenCollector => 3,
            PinType::Pulse => 4,
            PinType::NPulse => 5,
            PinType::ErrorTrig => 6,
            PinType::VecClk => 7,
            PinType::VecClkEn => 8,
        }
    }

    /// The pin type of a code's low 4 bits; unknown codes read as `Bidi`.
    pub open spec fn of_code(v: int) -> PinType {
        let c = v % 16;
        if c == 1 {
            PinType::Input
        } else if c == 2 {
            PinType::Output
        } else if c == 3 {
            PinType::OpenCollector
        } else if c == 4 {
            PinType::Pulse
        } else if c == 5 {
            PinType::NPulse
        } else if c == 6 {
            PinType::ErrorTrig
        } else if c == 7 {
            PinType::VecClk
        } else if c == 8 {
            PinType::VecClkEn
        } else {
            PinType::Bidi
        }
    }

    pub fn to_u32(self) -> (r: u32)
        ensures
            r == self.code(),
    {
        match self {
            PinType::Bidi => 0,
            PinType::Input => 1,
            PinType::Output => 2,
            PinType::OpenCollector => 3,
            PinType::Pulse => 4,
            PinType::NPulse => 5,
            PinType::ErrorTrig => 6,
            PinType::VecClk => 7,
            PinType::VecClkEn => 8,
        }
    }
}

impl From<u8> for PinType {
    fn from(val: u8) -> (r: PinType) {
        let c = val & 0xF;
        assert(c == val % 16) by (bit_vector)
            requires c == val & 0xF;
        match c {
            1 => PinType::Input,
            2 => PinType::Output,
            3 => PinType::OpenCollector,
            4 => PinType::Pulse,
            5 => PinType::NPulse,
            6 => PinType::ErrorTrig,
            7 => PinType::VecClk,
            8 => PinType::VecClkEn,
            _ => PinType::Bidi,
        }
    }
}

impl vstd::std_specs::convert::FromSpecImpl<u8> for PinType {
    open spec fn obeys_from_spec() -> bool {
        true
    }

    open spec fn from_spec(v: u8) -> PinType {
        PinType::of_code(v as int)
    }
}

/// Every pin type is read back from its code.
pub proof fn lemma_pin_type_code(t: PinType)
    ensures
        PinType::of_code(t.code() as int) == t,
        t.code() < 16,
{
}

/// Pin select of a frequency counter.
#[derive(Clone, Copy, Debug)]
pub enum PinSelect {
    /// Vector pin 0-127.
    VectorPin(u8),
    /// Extra GPIO pin 0-31.
    ExtraGpio(u8),
    /// Immediate trigger (no pin wait).
    Immediate,
    /// Disabled.
    Disabled,
}

impl PinSelect {
    /// The select code: vector pins 0-127 (clamped), extra GPIO 128-159
    /// (clamped), 0xFE immediate, 0xFF disabled.
    pub open spec fn code(self) -> u8 {
        match self {
            PinSelect::VectorPin(n) => if n < 127 { n } else { 127 },
            PinSelect::ExtraGpio(n) => (128 + if n < 31 { n as int } else { 31 }) as u8,
            PinSelect::Immediate => 0xFE,
            PinSelect::Disabled => 0xFF,
        }
    }

    /// The pin select a code names; codes 160-253 read as disabled.
    pub open spec fn of_code(v: u8) -> PinSelect {
        if v <= 127 {
            PinSelect::VectorPin(v)
        } else if v <= 159 {
            PinSelect::ExtraGpio((v - 128) as u8)
        } else if v == 0xFE {
            PinSelect::Immediate
        } else {
            PinSelect::Disabled
        }
    }

    pub fn to_u8(self) -> (r: u8)
        ensures
            r == self.code(),
    {
        match self {
            PinSelect::VectorPin(n) => if n < 127 { n } else { 127 },
            PinSelect::ExtraGpio(n) => 128 + if n < 31 { n } else { 31 },
            PinSelect::Immediate => 0xFE,
            PinSelect::Disabled => 0xFF,
        }
    }

    pub fn from_u8(val: u8) -> (r: Self)
        ensures
            r == PinSelect::of_code(val),
    {
        if val <= 127 {
            PinSelect::VectorPin(val)
        } else if val <= 159 {
            PinSelect::ExtraGpio(val - 128)
        } else if val == 0xFE {
            PinSelect::Immediate
        } else {
            PinSelect::Disabled
        }
    }

    /// Encoding then decoding a select clamps its pin number into range;
    /// decoding then encoding keeps every code but those 160-253, which
    /// come back as 0xFF.
    pub proof fn lemma_pin_select_roundtrip(p: PinSelect, v: u8)
        ensures
            PinSelect::of_code(p.code()) == (match p {
                PinSelect::VectorPin(n) => PinSelect::VectorPin(if n < 127 { n } else { 127 }),
                PinSelect::ExtraGpio(n) => PinSelect::ExtraGpio(if n < 31 { n } else { 31 }),
                _ => p,
            }),
            PinSelect::of_code(v).code() == (if v < 160 || v == 0xFE { v } else { 0xFF }),
    {
    }
}

/// Frequency counter control register.
#[derive(Clone, Copy, Debug, PartialEq, Eq, Structural)]
pub struct FreqControlReg {
    pub enable: bool,
    pub irq_enable: bool,
    pub signal_select: u8,
    pub trigger_select: u8,
}

impl Default for FreqControlReg {
    fn default() -> (r: Self)
        ensures
            r == (FreqControlReg { enable: false, irq_enable: false, signal_select: 0, trigger_select: 0 }),
    {
        FreqControlReg { enable: false, irq_enable: false, signal_select: 0, trigger_select: 0 }
    }
}

/// The control word: bit 0 enable, bit 1 IRQ enable, bits 8-15 signal
/// select, bits 16-23 trigger select, and 0x01 in the top byte.
pub open spec fn control_word(c: FreqControlReg) -> u32 {
    (if c.enable { 1u32 } else { 0u32 }) | (if c.irq_enable { 2u32 } else { 0u32 }) | ((
    c.signal_select as u32) << 8u32) | ((c.trigger_select as u32) << 16u32) | 0x0100_0000u32
}

/// The control register a word holds.
pub open spec fn control_of(val: u32) -> FreqControlReg {
    FreqControlReg {
        enable: val & 1u32 != 0,
        irq_enable: val & 2u32 != 0,
        signal_select: ((val >> 8u32) & 0xFFu32) as u8,
        trigger_select: ((val >> 16u32) & 0xFFu32) as u8,
    }
}

impl FreqControlReg {
    pub fn to_u32(self) -> (r: u32)
        ensures
            r == control_word(self),
    {
        let e: u32 = if self.enable { 1 } else { 0 };
        let i: u32 = if self.irq_enable { 2 } else { 0 };
        let s = self.signal_select as u32;
        let t = self.trigger_select as u32;
        let val = e | i | (s << 8) | (t << 16) | (0x01u32 << 24);
        assert(0x01u32 << 24u32 == 0x0100_0000u32) by (bit_vector);
        val
    }

    pub fn from_u32(val: u32) -> (r: Self)
        ensures
            r == control_of(val),
    {
        FreqControlReg {
            enable: (val & 1) != 0,
            irq_enable: (val & 2) != 0,
            signal_select: ((val >> 8) & 0xFF) as u8,
            trigger_select: ((val >> 16) & 0xFF) as u8,
        }
    }

    /// Reading back a written control word gives the register back.
    pub proof fn lemma_control_roundtrip(c: FreqControlReg)
        ensures
            control_of(control_word(c)) == c,
    {
        let e: u32 = if c.enable { 1 } else { 0 };
        let i: u32 = if c.irq_enable { 2 } else { 0 };
        let s = c.signal_select as u32;
        let t = c.trigger_select as u32;
        let w = e | i | (s << 8u32) | (t << 16u32) | 0x0100_0000u32;
        assert(w & 1u32 != 0 <==> e == 1) by (bit_vector)
            requires
                w == e | i | (s << 8u32) | (t << 16u32) | 0x0100_0000u32,
                e == 0 || e == 1,
                i == 0 || i == 2,
                s < 256,
                t < 256;
        assert(w & 2u32 != 0 <==> i == 2) by (bit_vector)
            requires
                w == e | i | (s << 8u32) | (t << 16u32) | 0x0100_0000u32,
                e == 0 || e == 1,
                i == 0 || i == 2,
                s < 256,
                t < 256;
        assert((w >> 8u32) & 0xFFu32 == s && (w >> 16u32) & 0xFFu32 == t) by (bit_vector)
            requires
                w == e | i | (s << 8u32) | (t << 16u32) | 0x0100_0000u32,
                e == 0 || e == 1,
                i == 0 || i == 2,
                s < 256,
                t < 256;
    }
}

/// Frequency counter status register (read only).
#[derive(Clone, Copy, Debug, PartialEq, Eq, Structural)]
pub struct FreqStatusReg {
    pub done: bool,
    pub idle: bool,
    pub waiting: bool,
    pub running: bool,
    pub irq_en_shadow: bool,
    pub invalid_test: bool,
    pub signal_timeout: bool,
    pub timeout: bool,
    pub signal_select_shadow: u8,
    pub trigger_select_shadow: u8,
}

impl Default for FreqStatusReg {
    fn default() -> (r: Self)
        ensures
            r == FreqStatusReg::of_word(0),
    {
        let r = FreqStatusReg {
            done: false,
            idle: false,
            waiting: false,
            running: false,
            irq_en_shadow: false,
            invalid_test: false,
            signal_timeout: false,
            timeout: false,
            signal_select_shadow: 0,
            trigger_select_shadow: 0,
        };
        assert(r == FreqStatusReg::of_word(0)) by {
            assert(0u32 & 1u32 == 0u32 && 0u32 & 2u32 == 0u32 && 0u32 & 4u32 == 0u32 && 0u32 & 8u32 == 0u32) by (bit_vector);
            assert(0u32 & 16u32 == 0u32 && 0u32 & 32u32 == 0u32 && 0u32 & 64u32 == 0u32 && 0u32 & 128u32 == 0u32) by (bit_vector);
            assert((0u32 >> 8u32) & 0xFFu32 == 0u32 && (0u32 >> 16u32) & 0xFFu32 == 0u32) by (bit_vector);
        }
        r
    }
}

/// Frequency counter states.
#[derive(Clone, Copy, Debug, PartialEq, Eq, Structural)]
pub enum FreqState {
    Idle,
    Waiting,
    Running,
    Done,
    Unknown,
}

impl FreqStatusReg {
    /// The status a word holds: bits 0-7 flags, bits 8-15 and 16-23 the
    /// select shadows.
    pub open spec fn of_word(val: u32) -> FreqStatusReg {
        FreqStatusReg {
            done: val & 1u32 != 0,
            idle: val & 2u32 != 0,
            waiting: val & 4u32 != 0,
            running: val & 8u32 != 0,
            irq_en_shadow: val & 16u32 != 0,
            invalid_test: val & 32u32 != 0,
            signal_timeout: val & 64u32 != 0,
            timeout: val & 128u32 != 0,
            signal_select_shadow: ((val >> 8u32) & 0xFFu32) as u8,
            trigger_select_shadow: ((val >> 16u32) & 0xFFu32) as u8,
        }
    }

    /// The state the flags show, the first set of done, running, waiting,
    /// idle.
    pub open spec fn state_spec(self) -> FreqState {
        if self.done {
            FreqState::Done
        } else if self.running {
            FreqState::Running
        } else if self.waiting {
            FreqState::Waiting
        } else if self.idle {
            FreqState::Idle
        } else {
            FreqState::Unknown
        }
    }

    pub fn from_u32(val: u32) -> (r: Self)
        ensures
            r == FreqStatusReg::of_word(val),
    {
        FreqStatusReg {
            done: (val & 1) != 0,
            idle: (val & 2) != 0,
            waiting: (val & 4) != 0,
            running: (val & 8) != 0,
            irq_en_shadow: (val & 16) != 0,
            invalid_test: (val & 32) != 0,
            signal_timeout: (val & 64) != 0,
            timeout: (val & 128) != 0,
            signal_select_shadow: ((val >> 8) & 0xFF) as u8,
            trigger_select_shadow: ((val >> 16) & 0xFF) as u8,
        }
    }

    pub fn state(&self) -> (r: FreqState)
        ensures
            r == self.state_spec(),
    {
        if self.done {
            FreqState::Done
        } else if self.running {
            FreqState::Running
        } else if self.waiting {
            FreqState::Waiting
        } else if self.idle {
            FreqState::Idle
        } else {
            FreqState::Unknown
        }
    }
}

/// Vector status register.
#[derive(Clone, Copy, Debug, PartialEq, Eq, Structural)]
pub struct VectorStatusReg {
    pub repeat_count_done: bool,
    pub errors_detected: bool,
}

impl Default for VectorStatusReg {
    fn default() -> (r: Self)
        ensures
            r == (VectorStatusReg { repeat_count_done: false, errors_detected: false }),
    {
        VectorStatusReg { repeat_count_done: false, errors_detected: false }
    }
}

impl VectorStatusReg {
    pub fn from_u32(val: u32) -> (r: Self)
        ensures
            r.repeat_count_done == (val & 1u32 != 0),
            r.errors_detected == (val & 2u32 != 0),
    {
        VectorStatusReg { repeat_count_done: (val & 1) != 0, errors_detected: (val & 2) != 0 }
    }
}

/// IO table peripheral: pin types of the 128 vector pins, 8 per 32-bit
/// register.
pub struct IoTable {
    base: usize,
}

/// Register word `reg` with the 4-bit field at `shift` set to `t`.
pub open spec fn with_pin_type(reg: u32, shift: u32, t: PinType) -> u32 {
    (reg & !(0xFu32 << shift)) | (t.code() << shift)
}

/// The pin type in the 4-bit field at `shift` of `reg`.
pub open spec fn pin_type_at(reg: u32, shift: u32) -> PinType {
    PinType::of_code(((reg >> shift) & 0xFu32) as int)
}

impl IoTable {
    pub closed spec fn base_view(&self) -> usize {
        self.base
    }

    pub fn new() -> (r: Self)
        ensures
            r.base_view() == AXI_IO_TABLE_BASE,
    {
        IoTable { base: AXI_IO_TABLE_BASE }
    }

    /// Where pin `pin`'s type lives: the register address and the bit
    /// offset of its 4-bit field (`None` for pins 128 and up).
    pub fn pin_type_slot(&self, pin: u8) -> (r: Option<(usize, u32)>)
        requires
            self.base_view() + 64 <= usize::MAX,
        ensures
            pin >= 128 ==> r is None,
            pin < 128 ==> r == Some(((self.base_view() + (pin / 8) * 4) as usize, ((pin % 8) * 4) as u32)),
    {
        if pin >= 128 {
            return None;
        }
        let reg_idx = (pin / 8) as usize;
        let bit_offset = ((pin % 8) * 4) as u32;
        Some((self.base + reg_idx * 4, bit_offset))
    }

    /// The register word after setting the field at `shift` to `t`.
    pub fn set_pin_type_value(reg: u32, shift: u32, t: PinType) -> (r: u32)
        requires
            shift <= 28,
        ensures
            r == with_pin_type(reg, shift, t),
    {
        (reg & !(0xFu32 << shift)) | (t.to_u32() << shift)
    }

    /// The pin type in the field at `shift` of a register word.
    pub fn pin_type_value(reg: u32, shift: u32) -> (r: PinType)
        requires
            shift <= 28,
        ensures
            r == pin_type_at(reg, shift),
    {
        let code = ((reg >> shift) & 0xF) as u8;
        let r = PinType::from(code);
        assert(code as int % 16 == ((reg >> shift) & 0xFu32) as int) by (bit_vector)
            requires code == ((reg >> shift) & 0xFu32) as u8;
        r
    }

    /// Reading a pin's type after setting it gives the type set; the other
    /// fields of the register are unchanged.
    pub proof fn lemma_pin_type_get_after_set(reg: u32, shift: u32, other: u32, t: PinType)
        requires
            shift <= 28,
            shift % 4 == 0,
            other <= 28,
            other % 4 == 0,
            other != shift,
        ensures
            pin_type_at(with_pin_type(reg, shift, t), shift) == t,
            pin_type_at(with_pin_type(reg, shift, t), other) == pin_type_at(reg, other),
    {
        let c = t.code();
        assert(c < 16);
        let w = (reg & !(0xFu32 << shift)) | (c << shift);
        assert((w >> shift) & 0xFu32 == c) by (bit_vector)
            requires
                w == (reg & !(0xFu32 << shift)) | (c << shift),
                c < 16,
                shift <= 28;
        assert((w >> other) & 0xFu32 == (reg >> other) & 0xFu32) by (bit_vector)
            requires
                w == (reg & !(0xFu32 << shift)) | (c << shift),
                c < 16,
                shift <= 28,
                other <= 28,
                shift % 4 == 0,
                other % 4 == 0,
                other != shift;
        lemma_pin_type_code(t);
    }
}

/// The IO table register words that give every vector pin the type
/// `pin_type`: each of the 16 registers holds the type's code in all 8 of
/// its 4-bit fields. Writing them to the table is the caller's.
pub fn set_all_pins(pin_type: PinType) -> (r: Vec<u32>)
    ensures
        r@.len() == VECTOR_WIDTH / 8,
        forall|i: int, s: u32|
            0 <= i < r@.len() && s <= 28 && s % 4 == 0 ==> #[trigger] pin_type_at(r@[i], s) == pin_type,
{
    let c = pin_type.to_u32();
    proof {
        lemma_pin_type_code(pin_type);
    }
    let w: u32 = c * 0x1111_1111;
    assert forall|s: u32| s <= 28 && s % 4 == 0 implies pin_type_at(w, s) == pin_type by {
        assert((w >> s) & 0xFu32 == c) by (bit_vector)
            requires
                w == c * 0x1111_1111u32,
                c < 16,
                s <= 28,
                s % 4 == 0;
    }
    let mut out: Vec<u32> = Vec::new();
    let mut i: usize = 0;
    while i < VECTOR_WIDTH / 8
        invariant
            i <= VECTOR_WIDTH / 8,
            out@.len() == i,
            forall|j: int| 0 <= j < i ==> #[trigger] out@[j] == w,
        decreases VECTOR_WIDTH / 8 - i,
    {
        out.push(w);
        i = i + 1;
    }
    out
}

/// Pulse control peripheral: 64 registers.
pub struct PulseCtrl {
    base: usize,
}

impl PulseCtrl {
    pub closed spec fn base_view(&self) -> usize {
        self.base
    }

    pub fn new() -> (r: Self)
        ensures
            r.base_view() == AXI_PULSE_CTRL_BASE,
    {
        PulseCtrl { base: AXI_PULSE_CTRL_BASE }
    }

    /// The address of register `reg` (`None` for 64 and up).
    pub fn register_addr(&self, reg: u8) -> (r: Option<usize>)
        requires
            self.base_view() + 256 <= usize::MAX,
        ensures
            reg >= 64 ==> r is None,
            reg < 64 ==> r == Some((self.base_view() + reg * 4) as usize),
    {
        if reg >= 64 {
            return None;
        }
        Some(self.base + (reg as usize) * 4)
    }
}

/// One frequency counter: eight registers at a 0x20 stride.
pub struct FreqCounter {
    base: usize,
}

impl FreqCounter {
    pub closed spec fn base_view(&self) -> usize {
        self.base
    }

    /// The base address of counter `counter_idx`.
    pub fn counter_base(counter_idx: usize) -> (r: usize)
        requires
            AXI_FREQ_COUNTER_BASE + counter_idx * 0x20 <= usize::MAX,
        ensures
            r == AXI_FREQ_COUNTER_BASE + counter_idx * 0x20,
    {
        AXI_FREQ_COUNTER_BASE + counter_idx * 0x20
    }

    pub fn new(counter_idx: usize) -> (r: Self)
        requires
            AXI_FREQ_COUNTER_BASE + counter_idx * 0x20 <= usize::MAX,
        ensures
            r.base_view() == AXI_FREQ_COUNTER_BASE + counter_idx * 0x20,
    {
        FreqCounter { base: Self::counter_base(counter_idx) }
    }

    pub fn base(&self) -> (r: usize)
        ensures
            r == self.base_view(),
    {
        self.base
    }

    /// The control word that enables the counter on `signal` and
    /// `trigger`.
    pub fn enable(signal: PinSelect, trigger: PinSelect, irq: bool) -> (r: FreqControlReg)
        ensures
            r == (FreqControlReg {
                enable: true,
                irq_enable: irq,
                signal_select: signal.code(),
                trigger_select: trigger.code(),
            }),
    {
        FreqControlReg {
            enable: true,
            irq_enable: irq,
            signal_select: signal.to_u8(),
            trigger_select: trigger.to_u8(),
        }
    }

    /// The control word read back, with the enable bit cleared.
    pub fn disable(current: FreqControlReg) -> (r: FreqControlReg)
        ensures
            r == (FreqControlReg { enable: false, ..current }),
    {
        let mut ctrl = current;
        ctrl.enable = false;
        ctrl
    }
}

/// What a frequency measurement on counter `counter_idx` yields, given
/// the status, cycle count and time count read once it finished: nothing
/// for a counter index of 8 or more (no counter is touched then), on a
/// timeout or on an invalid test; else the two counts.
pub fn measure_frequency(counter_idx: usize, status: FreqStatusReg, cycles: u32, time: u32) -> (r: Option<(u32, u32)>)
    ensures
        r == (if counter_idx >= NUM_FREQ_COUNTERS || status.timeout || status.invalid_test {
            None
        } else {
            Some((cycles, time))
        }),
{
    if counter_idx >= NUM_FREQ_COUNTERS || status.timeout || status.invalid_test {
        None
    } else {
        Some((cycles, time))
    }
}

/// Vector status peripheral.
pub struct VectorStatus {
    base: usize,
}

impl VectorStatus {
    pub closed spec fn base_view(&self) -> usize {
        self.base
    }

    pub fn new() -> (r: Self)
        ensures
            r.base_view() == AXI_VECTOR_STATUS_BASE,
    {
        VectorStatus { base: AXI_VECTOR_STATUS_BASE }
    }

    pub fn base(&self) -> (r: usize)
        ensures
            r == self.base_view(),
    {
        self.base
    }

    /// Whether a status word reports vector execution complete.
    pub fn is_done(status: u32) -> (r: bool)
        ensures
            r == (status & 1u32 != 0),
    {
        VectorStatusReg::from_u32(status).repeat_count_done
    }

    /// Whether a status word reports errors.
    pub fn has_errors(status: u32) -> (r: bool)
        ensures
            r == (status & 2u32 != 0),
    {
        VectorStatusReg::from_u32(status).errors_detected
    }
}

} // verus!
