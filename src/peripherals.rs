//! The device's peripheral controller: who owns each pin, the pools of GPIO
//! outputs and PWM slices, and the PIO blocks. Each change that must reach the
//! hardware is queued as a `HwOp`, which the firmware carries out in order.
use vstd::prelude::*;
use crate::slot::Slot;

verus! {

/// Number of pins.
pub const PIN_COUNT: usize = 30;

/// Number of PWM slices.
pub const PWM_SLICE_COUNT: u8 = 12;

/// Number of PIO blocks.
pub const PIO_BLOCK_COUNT: usize = 3;

/// Number of state machines in each PIO block.
pub const SM_PER_BLOCK: usize = 4;

/// Largest duty cycle, in percent.
pub const MAX_DUTY_PERCENT: u8 = 100;

/// Why a PIO operation was refused.
#[derive(Debug, Clone, Copy, PartialEq, Eq, Structural)]
pub enum ControlError {
    /// A block, state machine or pin number is out of range.
    IndexOutOfRange,
    /// The pin already has a role.
    WrongPinState,
    /// The block has no program loaded.
    NoProgram,
}

/// The role a pin has been given.
#[derive(Debug, Clone, Copy, PartialEq, Eq, Structural)]
pub enum PinState {
    Unowned,
    GpioInput,
    GpioOutput,
    PwmOut,
    PwmIn,
    PioOwned,
}

/// A pin's role and, when it has one, the index of its resource in the pool
/// that owns it.
#[derive(Debug, Clone, Copy, PartialEq, Eq, Structural)]
pub struct Pin {
    pub state: PinState,
    pub resource_index: usize,
}

impl Pin {
    pub fn new() -> (r: Self)
        ensures
            r == (Pin { state: PinState::Unowned, resource_index: 0 }),
    {
        Pin { state: PinState::Unowned, resource_index: 0 }
    }
}

/// A pin driven as a digital output.
#[derive(Debug, Clone, Copy, PartialEq, Eq, Structural)]
pub struct GpioOutput {
    pub pin: u8,
    pub level: bool,
}

/// A PWM slice and the pins bound to its two channels.
#[derive(Debug, Clone, Copy, PartialEq, Eq, Structural)]
pub struct PwmSlice {
    pub slice: u8,
    pub a: Option<u8>,
    pub b: Option<u8>,
    pub divider: u8,
    pub compare_a: u16,
    pub compare_b: u16,
    pub top: u16,
    pub duty_percent: Option<u8>,
}

/// A PIO program: up to sixteen instruction words and how to run them.
#[derive(Debug, Clone, PartialEq, Eq)]
pub struct PioProgram {
    pub code: Vec<u16>,
    pub origin: Option<u8>,
    pub wrap_source: u8,
    pub wrap_target: u8,
    pub side_set_opt: bool,
    pub side_set_bits: u8,
    pub side_set_pindirs: bool,
    pub version_v0: bool,
}

/// One PIO state machine.
#[derive(Debug, Clone, Copy, PartialEq, Eq, Structural)]
pub struct StateMachine {
    pub pin: Option<u8>,
    pub configured: bool,
    pub enabled: bool,
}

/// A change the firmware makes to the hardware.
#[derive(Debug, Clone, Copy, PartialEq, Eq, Structural)]
pub enum HwOp {
    /// Drive `pin` as an output at `level`.
    DriveOutput { pin: u8, level: bool },
    /// Configure a slice from entry `index` of the PWM pool.
    ConfigurePwm { index: usize },
    /// Set the duty cycle of entry `index` of the PWM pool.
    SetDutyCycle { index: usize, percent: u8 },
    /// Load the program of PIO block `block` into its instruction memory.
    LoadProgram { block: usize },
    /// Bind `pin` to a state machine, attach its block's program and make the pin an output.
    ConfigureSm { block: usize, sm: usize, pin: u8 },
    /// Start or stop a state machine.
    SetSmEnable { block: usize, sm: usize, enable: bool },
    /// Push one word into a state machine's transmit queue; dropped when it is full.
    PushWord { block: usize, sm: usize, word: u32 },
    /// Run one raw instruction on a state machine at once.
    ExecInstr { block: usize, sm: usize, instr: u16 },
}

/// The index of state machine `sm` of block `block` among all state machines.
pub open spec fn sm_index(block: int, sm: int) -> int {
    block * SM_PER_BLOCK + sm
}

/// Well-formedness depends on the pins and pools alone.
proof fn lemma_same_wf(a: PeripheralController, b: PeripheralController)
    requires
        a.wf(),
        b.pins@ == a.pins@,
        b.gpio_outputs@ == a.gpio_outputs@,
        b.pwms@ == a.pwms@,
        b.programs@.len() == PIO_BLOCK_COUNT,
        b.sms@.len() == PIO_BLOCK_COUNT * SM_PER_BLOCK,
        b.gpio_outputs.wf(),
        b.pwms.wf(),
    ensures
        b.wf(),
{
    assert forall|p: int| 0 <= p < PIN_COUNT implies #[trigger] b.pin_ok(p) by {
        assert(a.pin_ok(p));
    }
    assert forall|i: int| 0 <= i < 30 implies #[trigger] b.gpio_entry_ok(i) by {
        assert(a.gpio_entry_ok(i));
    }
    assert forall|i: int| 0 <= i < 8 implies #[trigger] b.pwm_entry_ok(i) by {
        assert(a.pwm_entry_ok(i));
    }
}

/// Giving a free pin a role that no pool entry names keeps every pool
/// entry's back-pointer.
proof fn lemma_entries_after_claim(a: PeripheralController, b: PeripheralController, pin: int)
    requires
        a.wf(),
        a.is_free(pin),
        b.pins@ == a.pins@.update(pin, b.pins@[pin]),
        b.pins@[pin].state != PinState::Unowned,
        b.pins@.len() == PIN_COUNT,
    ensures
        forall|i: int|
            0 <= i < 30 && a.gpio_outputs@[i] == b.gpio_outputs@[i] ==> #[trigger] b.gpio_entry_ok(i),
        forall|i: int| 0 <= i < 8 && a.pwms@[i] == b.pwms@[i] ==> #[trigger] b.pwm_entry_ok(i),
{
    assert forall|i: int|
        0 <= i < 30 && a.gpio_outputs@[i] == b.gpio_outputs@[i] implies #[trigger] b.gpio_entry_ok(
        i,
    ) by {
        assert(a.gpio_entry_ok(i));
    }
    assert forall|i: int| 0 <= i < 8 && a.pwms@[i] == b.pwms@[i] implies #[trigger] b.pwm_entry_ok(
        i,
    ) by {
        assert(a.pwm_entry_ok(i));
    }
}

/// What a successful `pwm_init` that put its slice at pool index `i` did:
/// the free requested pins are bound to it, the other pins keep their role.
pub open spec fn pwm_init_post(
    old: PeripheralController,
    new: PeripheralController,
    slice: u8,
    a: Option<u8>,
    b: Option<u8>,
    divider: u8,
    compare_a: u16,
    compare_b: u16,
    top: u16,
    i: usize,
) -> bool {
    let bind_a = a matches Some(p) && old.is_free(p as int);
    let bind_b = b matches Some(q) && old.is_free(q as int) && !(bind_a && a
        == b);
    let entry = PwmSlice {
        slice,
        a: if bind_a {
            a
        } else {
            None
        },
        b: if bind_b {
            b
        } else {
            None
        },
        divider,
        compare_a,
        compare_b,
        top,
        duty_percent: None,
    };
    &&& i < 8
    &&& old.pwms@[i as int] is None
    &&& forall|j: int| 0 <= j < i ==> (#[trigger] old.pwms@[j]) is Some
    &&& new.pwms@ == old.pwms@.update(i as int, Some(entry))
    &&& new.ops@ == old.ops@.push(HwOp::ConfigurePwm { index: i })
    &&& forall|p: int|
        0 <= p < PIN_COUNT ==> (#[trigger] new.pins@[p]) == if (bind_a && a
            == Some(p as u8)) || (bind_b && b == Some(p as u8)) {
            Pin { state: PinState::PwmOut, resource_index: i }
        } else {
            old.pins@[p]
        }

}

/// Exclusive owner of the device's pins, PWM slices and PIO blocks.
pub struct PeripheralController {
    pub pins: Vec<Pin>,
    pub gpio_outputs: Slot<GpioOutput, 30>,
    pub pwms: Slot<PwmSlice, 8>,
    pub programs: Vec<Option<PioProgram>>,
    pub sms: Vec<StateMachine>,
    pub ops: Vec<HwOp>,
}

impl PeripheralController {
    /// What a pin's state says of the pool entry it points at.
    pub open spec fn pin_ok(&self, p: int) -> bool {
        let pin = self.pins@[p];
        let i = pin.resource_index as int;
        match pin.state {
            PinState::GpioOutput => i < 30 && (self.gpio_outputs@[i] matches Some(o) && o.pin == p),
            PinState::PwmOut => i < 8 && (self.pwms@[i] matches Some(w) && (w.a == Some(p as u8)
                || w.b == Some(p as u8))),
            PinState::PioOwned => i < PIO_BLOCK_COUNT * SM_PER_BLOCK,
            _ => true,
        }
    }

    pub open spec fn wf(&self) -> bool {
        &&& self.pins@.len() == PIN_COUNT
        &&& self.gpio_outputs.wf()
        &&& self.pwms.wf()
        &&& self.gpio_outputs@.len() == 30
        &&& self.pwms@.len() == 8
        &&& self.programs@.len() == PIO_BLOCK_COUNT
        &&& self.sms@.len() == PIO_BLOCK_COUNT * SM_PER_BLOCK
        &&& forall|p: int| 0 <= p < PIN_COUNT ==> #[trigger] self.pin_ok(p)
        &&& forall|i: int| 0 <= i < 30 ==> #[trigger] self.gpio_entry_ok(i)
        &&& forall|i: int| 0 <= i < 8 ==> #[trigger] self.pwm_entry_ok(i)
    }

    /// An output in the pool points back at its pin, which points at it.
    pub open spec fn gpio_entry_ok(&self, i: int) -> bool {
        match self.gpio_outputs@[i] {
            Some(o) => (o.pin as usize) < PIN_COUNT && self.pins@[o.pin as int] == (Pin {
                state: PinState::GpioOutput,
                resource_index: i as usize,
            }),
            None => true,
        }
    }

    /// A pin bound to PWM entry `i` is a PWM output that points at it.
    pub open spec fn binds(&self, pin: Option<u8>, i: int) -> bool {
        match pin {
            Some(p) => (p as usize) < PIN_COUNT && self.pins@[p as int] == (Pin {
                state: PinState::PwmOut,
                resource_index: i as usize,
            }),
            None => true,
        }
    }

    /// The pins of a slice in the pool point back at it.
    pub open spec fn pwm_entry_ok(&self, i: int) -> bool {
        match self.pwms@[i] {
            Some(w) => self.binds(w.a, i) && self.binds(w.b, i),
            None => true,
        }
    }

    /// The two controllers hold the same state and the same queued changes.
    pub open spec fn same_as(&self, other: Self) -> bool {
        &&& self.pins@ == other.pins@
        &&& self.gpio_outputs@ == other.gpio_outputs@
        &&& self.pwms@ == other.pwms@
        &&& self.programs@ == other.programs@
        &&& self.sms@ == other.sms@
        &&& self.ops@ == other.ops@
    }

    /// Whether pin `p` may be given a role.
    pub open spec fn is_free(&self, p: int) -> bool {
        0 <= p < PIN_COUNT && self.pins@[p].state == PinState::Unowned
    }

    /// A controller with every pin unowned, empty pools and no programs.
    pub fn new() -> (r: Self)
        ensures
            r.wf(),
            forall|p: int| 0 <= p < PIN_COUNT ==> #[trigger] r.is_free(p),
            r.gpio_outputs.spec_len() == 0,
            r.pwms.spec_len() == 0,
            forall|b: int| 0 <= b < PIO_BLOCK_COUNT ==> (#[trigger] r.programs@[b]) is None,
            forall|k: int| 0 <= k < PIO_BLOCK_COUNT * SM_PER_BLOCK ==> #[trigger] r.sms@[k] == (
            StateMachine { pin: None, configured: false, enabled: false }),
            r.ops@.len() == 0,
    {
        let mut pins: Vec<Pin> = Vec::new();
        let mut i: usize = 0;
        while i < PIN_COUNT
            invariant
                i <= PIN_COUNT,
                pins@.len() == i,
                forall|p: int| 0 <= p < i ==> (#[trigger] pins@[p]).state == PinState::Unowned,
            decreases PIN_COUNT - i,
        {
            pins.push(Pin::new());
            i = i + 1;
        }
        let mut programs: Vec<Option<PioProgram>> = Vec::new();
        let mut sms: Vec<StateMachine> = Vec::new();
        let mut b: usize = 0;
        while b < PIO_BLOCK_COUNT
            invariant
                b <= PIO_BLOCK_COUNT,
                programs@.len() == b,
                sms@.len() == b * SM_PER_BLOCK,
                forall|j: int| 0 <= j < b ==> (#[trigger] programs@[j]) is None,
                forall|k: int| 0 <= k < sms@.len() ==> #[trigger] sms@[k] == (StateMachine {
                    pin: None,
                    configured: false,
                    enabled: false,
                }),
            decreases PIO_BLOCK_COUNT - b,
        {
            programs.push(None);
            let mut s: usize = 0;
            while s < SM_PER_BLOCK
                invariant
                    b < PIO_BLOCK_COUNT,
                    programs@.len() == b + 1,
                    forall|j: int| 0 <= j <= b ==> (#[trigger] programs@[j]) is None,
                    s <= SM_PER_BLOCK,
                    sms@.len() == b * SM_PER_BLOCK + s,
                    forall|k: int| 0 <= k < sms@.len() ==> #[trigger] sms@[k] == (StateMachine {
                        pin: None,
                        configured: false,
                        enabled: false,
                    }),
                decreases SM_PER_BLOCK - s,
            {
                sms.push(StateMachine { pin: None, configured: false, enabled: false });
                s = s + 1;
            }
            b = b + 1;
        }
        let gpio_outputs = Slot::new();
        let pwms = Slot::new();
        proof {
            gpio_outputs.lemma_wf_len();
            pwms.lemma_wf_len();
        }
        let r = PeripheralController { pins, gpio_outputs, pwms, programs, sms, ops: Vec::new() };
        assert forall|p: int| 0 <= p < PIN_COUNT implies #[trigger] r.pin_ok(p) by {
            assert(r.pins@[p].state == PinState::Unowned);
        }
        assert forall|i: int| 0 <= i < 30 implies #[trigger] r.gpio_entry_ok(i) by {
            assert(r.gpio_outputs@[i] is None);
        }
        assert forall|i: int| 0 <= i < 8 implies #[trigger] r.pwm_entry_ok(i) by {
            assert(r.pwms@[i] is None);
        }
        r
    }

    /// Hands out the queued hardware changes, oldest first, and clears the queue.
    pub fn take_ops(&mut self) -> (r: Vec<HwOp>)
        requires
            old(self).wf(),
        ensures
            final(self).wf(),
            r@ == old(self).ops@,
            final(self).ops@.len() == 0,
            final(self).pins@ == old(self).pins@,
            final(self).gpio_outputs@ == old(self).gpio_outputs@,
            final(self).pwms@ == old(self).pwms@,
            final(self).programs@ == old(self).programs@,
            final(self).sms@ == old(self).sms@,
    {
        let ghost before = *self;
        let mut r: Vec<HwOp> = Vec::new();
        std::mem::swap(&mut r, &mut self.ops);
        proof {
            lemma_same_wf(before, *self);
        }
        r
    }

    /// Makes pin `pin_num` a digital output at `value`. Fails, changing
    /// nothing, when the pin is out of range or already owned, or when the
    /// output pool is full.
    pub fn gpio_output_init(&mut self, pin_num: usize, value: bool) -> (r: bool)
        requires
            old(self).wf(),
        ensures
            final(self).wf(),
            r == (old(self).is_free(pin_num as int) && !old(self).gpio_outputs.is_full()),
            !r ==> final(self).same_as(*old(self)),
            r ==> {
                let i = final(self).pins@[pin_num as int].resource_index as int;
                &&& final(self).pins@ == old(self).pins@.update(
                    pin_num as int,
                    Pin { state: PinState::GpioOutput, resource_index: i as usize },
                )
                &&& old(self).gpio_outputs@[i] is None
                &&& forall|j: int| 0 <= j < i ==> (#[trigger] old(self).gpio_outputs@[j]) is Some
                &&& final(self).gpio_outputs@ == old(self).gpio_outputs@.update(
                    i,
                    Some(GpioOutput { pin: pin_num as u8, level: value }),
                )
                &&& final(self).ops@ == old(self).ops@.push(
                    HwOp::DriveOutput { pin: pin_num as u8, level: value },
                )
                &&& final(self).pwms@ == old(self).pwms@
                &&& final(self).programs@ == old(self).programs@
                &&& final(self).sms@ == old(self).sms@
            },
    {
        if pin_num >= PIN_COUNT {
            return false;
        }
        if self.pins[pin_num].state != PinState::Unowned {
            return false;
        }
        let ghost before = *self;
        let index = match self.gpio_outputs.add(GpioOutput { pin: pin_num as u8, level: value }) {
            Some(i) => i,
            None => {
                proof {
                    lemma_same_wf(before, *self);
                }
                return false;
            },
        };
        self.pins.set(pin_num, Pin { state: PinState::GpioOutput, resource_index: index });
        self.ops.push(HwOp::DriveOutput { pin: pin_num as u8, level: value });
        proof {
            assert forall|p: int| 0 <= p < PIN_COUNT implies #[trigger] self.pin_ok(p) by {
                if p != pin_num {
                    assert(before.pin_ok(p));
                    if self.pins@[p].state == PinState::GpioOutput {
                        assert(self.pins@[p].resource_index != index);
                    }
                }
            }
            lemma_entries_after_claim(before, *self, pin_num as int);
        }
        true
    }

    /// Drives output pin `pin_num` to `value`. Fails, changing nothing, unless
    /// the pin is a digital output.
    pub fn gpio_output_set(&mut self, pin_num: usize, value: bool) -> (r: bool)
        requires
            old(self).wf(),
        ensures
            final(self).wf(),
            r == (pin_num < PIN_COUNT && old(self).pins@[pin_num as int].state
                == PinState::GpioOutput),
            !r ==> final(self).same_as(*old(self)),
            r ==> {
                let i = old(self).pins@[pin_num as int].resource_index as int;
                &&& final(self).gpio_outputs@ == old(self).gpio_outputs@.update(
                    i,
                    Some(GpioOutput { pin: pin_num as u8, level: value }),
                )
                &&& final(self).ops@ == old(self).ops@.push(
                    HwOp::DriveOutput { pin: pin_num as u8, level: value },
                )
                &&& final(self).pins@ == old(self).pins@
                &&& final(self).pwms@ == old(self).pwms@
                &&& final(self).programs@ == old(self).programs@
                &&& final(self).sms@ == old(self).sms@
            },
    {
        if pin_num >= PIN_COUNT {
            return false;
        }
        let pin = self.pins[pin_num];
        if pin.state != PinState::GpioOutput {
            return false;
        }
        let ghost before = *self;
        assert(self.pin_ok(pin_num as int));
        match self.gpio_outputs.get_mut(pin.resource_index) {
            Some(output) => {
                output.level = value;
            },
            None => {},
        }
        self.ops.push(HwOp::DriveOutput { pin: pin_num as u8, level: value });
        proof {
            let idx = pin.resource_index as int;
            assert(before.gpio_entry_ok(idx));
            assert forall|p: int| 0 <= p < PIN_COUNT implies #[trigger] self.pin_ok(p) by {
                assert(before.pin_ok(p));
            }
            assert forall|i: int| 0 <= i < 30 implies #[trigger] self.gpio_entry_ok(i) by {
                assert(before.gpio_entry_ok(i));
            }
            assert forall|i: int| 0 <= i < 8 implies #[trigger] self.pwm_entry_ok(i) by {
                assert(before.pwm_entry_ok(i));
            }
        }
        true
    }

    /// Registers PWM slice `slice` with the pins `a` and `b` that are free,
    /// marking those pins as PWM outputs. A requested pin that is out of range
    /// or owned is left out and the slice is configured without it. Fails,
    /// changing nothing, when the slice number is out of range or the PWM pool
    /// is full.
    pub fn pwm_init(
        &mut self,
        slice: u8,
        a: Option<u8>,
        b: Option<u8>,
        divider: u8,
        compare_a: u16,
        compare_b: u16,
        top: u16,
    ) -> (r: Option<usize>)
        requires
            old(self).wf(),
        ensures
            final(self).wf(),
            r is Some <==> (slice < PWM_SLICE_COUNT && !old(self).pwms.is_full()),
            r is None ==> final(self).same_as(*old(self)),
            r matches Some(i) ==> pwm_init_post(
                *old(self),
                *final(self),
                slice,
                a,
                b,
                divider,
                compare_a,
                compare_b,
                top,
                i,
            ),
            final(self).gpio_outputs@ == old(self).gpio_outputs@,
            final(self).programs@ == old(self).programs@,
            final(self).sms@ == old(self).sms@,
    {
        if slice >= PWM_SLICE_COUNT {
            return None;
        }
        let ghost before = *self;
        let bind_a = match a {
            Some(p) => (p as usize) < PIN_COUNT && self.pins[p as usize].state == PinState::Unowned,
            None => false,
        };
        let bind_b = match b {
            Some(q) => (q as usize) < PIN_COUNT && self.pins[q as usize].state
                == PinState::Unowned && !(bind_a && a == b),
            None => false,
        };
        let entry = PwmSlice {
            slice,
            a: if bind_a {
                a
            } else {
                None
            },
            b: if bind_b {
                b
            } else {
                None
            },
            divider,
            compare_a,
            compare_b,
            top,
            duty_percent: None,
        };
        let index = match self.pwms.add(entry) {
            Some(i) => i,
            None => {
                proof {
                    lemma_same_wf(before, *self);
                }
                return None;
            },
        };
        if bind_a {
            let p = a.unwrap() as usize;
            self.pins.set(p, Pin { state: PinState::PwmOut, resource_index: index });
        }
        if bind_b {
            let q = b.unwrap() as usize;
            self.pins.set(q, Pin { state: PinState::PwmOut, resource_index: index });
        }
        self.ops.push(HwOp::ConfigurePwm { index });
        proof {
            assert(self.pwms@ == before.pwms@.update(index as int, Some(entry)));
            assert forall|p: int| 0 <= p < PIN_COUNT implies (#[trigger] self.pins@[p]) == if (bind_a
                && a == Some(p as u8)) || (bind_b && b == Some(p as u8)) {
                Pin { state: PinState::PwmOut, resource_index: index }
            } else {
                before.pins@[p]
            } by {}
            assert forall|p: int| 0 <= p < PIN_COUNT implies #[trigger] self.pin_ok(p) by {
                assert(before.pin_ok(p));
                if !((bind_a && a == Some(p as u8)) || (bind_b && b == Some(p as u8))) {
                    let j = self.pins@[p].resource_index as int;
                    if self.pins@[p].state == PinState::PwmOut {
                        assert(j != index);
                    }
                }
            }
            assert(bind_a == (a matches Some(p) && before.is_free(p as int)));
            assert(bind_b == (b matches Some(q) && before.is_free(q as int) && !(bind_a && a == b)));
            assert forall|i: int| 0 <= i < 30 implies #[trigger] self.gpio_entry_ok(i) by {
                assert(before.gpio_entry_ok(i));
                if let Some(o) = self.gpio_outputs@[i] {
                    assert(self.pins@[o.pin as int] == before.pins@[o.pin as int]);
                }
            }
            assert forall|i: int| 0 <= i < 8 implies #[trigger] self.pwm_entry_ok(i) by {
                assert(before.pwm_entry_ok(i));
                if i != index {
                    if let Some(w) = self.pwms@[i] {
                        if let Some(p) = w.a {
                            assert(self.pins@[p as int] == before.pins@[p as int]);
                        }
                        if let Some(q) = w.b {
                            assert(self.pins@[q as int] == before.pins@[q as int]);
                        }
                    }
                }
            }
        }
        Some(index)
    }

    /// Sets the duty cycle of the slice that owns pin `pin_num`. Fails,
    /// changing nothing, unless the pin is a PWM output and `percent` is at
    /// most 100.
    pub fn pwm_set_duty_cycle_percent(&mut self, pin_num: u8, percent: u8) -> (r: bool)
        requires
            old(self).wf(),
        ensures
            final(self).wf(),
            r == ((pin_num as usize) < PIN_COUNT && old(self).pins@[pin_num as int].state
                == PinState::PwmOut && percent <= MAX_DUTY_PERCENT),
            !r ==> final(self).same_as(*old(self)),
            r ==> {
                let i = old(self).pins@[pin_num as int].resource_index as int;
                &&& (old(self).pwms@[i] matches Some(w) && final(self).pwms@ == old(
                    self,
                ).pwms@.update(i, Some(PwmSlice { duty_percent: Some(percent), ..w })))
                &&& final(self).ops@ == old(self).ops@.push(
                    HwOp::SetDutyCycle { index: i as usize, percent },
                )
                &&& final(self).pins@ == old(self).pins@
                &&& final(self).gpio_outputs@ == old(self).gpio_outputs@
                &&& final(self).programs@ == old(self).programs@
                &&& final(self).sms@ == old(self).sms@
            },
    {
        if pin_num as usize >= PIN_COUNT || percent > MAX_DUTY_PERCENT {
            return false;
        }
        let pin = self.pins[pin_num as usize];
        if pin.state != PinState::PwmOut {
            return false;
        }
        let ghost before = *self;
        assert(self.pin_ok(pin_num as int));
        let ghost w0 = before.pwms@[pin.resource_index as int].unwrap();
        match self.pwms.get_mut(pin.resource_index) {
            Some(w) => {
                w.duty_percent = Some(percent);
            },
            None => {},
        }
        assert(self.pwms@ == before.pwms@.update(
            pin.resource_index as int,
            Some(PwmSlice { duty_percent: Some(percent), ..w0 }),
        ));
        self.ops.push(HwOp::SetDutyCycle { index: pin.resource_index, percent });
        proof {
            assert forall|p: int| 0 <= p < PIN_COUNT implies #[trigger] self.pin_ok(p) by {
                assert(before.pin_ok(p));
            }
            assert forall|i: int| 0 <= i < 30 implies #[trigger] self.gpio_entry_ok(i) by {
                assert(before.gpio_entry_ok(i));
            }
            assert forall|i: int| 0 <= i < 8 implies #[trigger] self.pwm_entry_ok(i) by {
                assert(before.pwm_entry_ok(i));
            }
        }
        true
    }

    /// Installs `program` as the loaded program of block `pio_num`, replacing
    /// the one before. State machines that run the old program are not stopped.
    /// Fails, changing nothing, when the block is out of range.
    pub fn pio_load_program(&mut self, pio_num: usize, program: PioProgram) -> (r: Result<(), ControlError>)
        requires
            old(self).wf(),
        ensures
            final(self).wf(),
            r is Ok <==> pio_num < PIO_BLOCK_COUNT,
            r is Err ==> r == Err::<(), ControlError>(ControlError::IndexOutOfRange),
            r is Err ==> final(self).same_as(*old(self)),
            r is Ok ==> final(self).programs@ == old(self).programs@.update(pio_num as int, Some(program)),
            r is Ok ==> final(self).ops@ == old(self).ops@.push(HwOp::LoadProgram { block: pio_num }),
            final(self).pins@ == old(self).pins@,
            final(self).gpio_outputs@ == old(self).gpio_outputs@,
            final(self).pwms@ == old(self).pwms@,
            final(self).sms@ == old(self).sms@,
    {
        if pio_num >= PIO_BLOCK_COUNT {
            return Err(ControlError::IndexOutOfRange);
        }
        let ghost before = *self;
        self.programs.set(pio_num, Some(program));
        self.ops.push(HwOp::LoadProgram { block: pio_num });
        proof {
            lemma_same_wf(before, *self);
        }
        Ok(())
    }

    /// Binds pin `pin_num` to state machine `sm_num` of block `pio_num` and
    /// attaches the block's loaded program. Fails, changing nothing, when an
    /// index is out of range, the pin is owned, or the block has no program.
    pub fn pio_sm_init(&mut self, pio_num: usize, sm_num: usize, pin_num: u8) -> (r: Result<(), ControlError>)
        requires
            old(self).wf(),
        ensures
            final(self).wf(),
            r is Ok <==> (pio_num < PIO_BLOCK_COUNT && sm_num < SM_PER_BLOCK && old(self).is_free(
                pin_num as int,
            ) && old(self).programs@[pio_num as int] is Some),
            !(pio_num < PIO_BLOCK_COUNT && sm_num < SM_PER_BLOCK && (pin_num as usize) < PIN_COUNT)
                ==> r == Err::<(), ControlError>(ControlError::IndexOutOfRange),
            (pio_num < PIO_BLOCK_COUNT && sm_num < SM_PER_BLOCK && (pin_num as usize) < PIN_COUNT
                && !old(self).is_free(pin_num as int)) ==> r == Err::<(), ControlError>(
                ControlError::WrongPinState,
            ),
            (pio_num < PIO_BLOCK_COUNT && sm_num < SM_PER_BLOCK && old(self).is_free(pin_num as int)
                && old(self).programs@[pio_num as int] is None) ==> r == Err::<(), ControlError>(
                ControlError::NoProgram,
            ),
            r is Err ==> final(self).same_as(*old(self)),
            r is Ok ==> {
                let k = sm_index(pio_num as int, sm_num as int);
                &&& final(self).pins@ == old(self).pins@.update(
                    pin_num as int,
                    Pin { state: PinState::PioOwned, resource_index: k as usize },
                )
                &&& final(self).sms@ == old(self).sms@.update(
                    k,
                    StateMachine { pin: Some(pin_num), configured: true, ..old(self).sms@[k] },
                )
                &&& final(self).ops@ == old(self).ops@.push(
                    HwOp::ConfigureSm { block: pio_num, sm: sm_num, pin: pin_num },
                )
                &&& final(self).gpio_outputs@ == old(self).gpio_outputs@
                &&& final(self).pwms@ == old(self).pwms@
                &&& final(self).programs@ == old(self).programs@
            },
    {
        if pio_num >= PIO_BLOCK_COUNT || sm_num >= SM_PER_BLOCK || pin_num as usize >= PIN_COUNT {
            return Err(ControlError::IndexOutOfRange);
        }
        if self.pins[pin_num as usize].state != PinState::Unowned {
            return Err(ControlError::WrongPinState);
        }
        if self.programs[pio_num].is_none() {
            return Err(ControlError::NoProgram);
        }
        let ghost before = *self;
        let k = pio_num * SM_PER_BLOCK + sm_num;
        let sm = self.sms[k];
        self.sms.set(k, StateMachine { pin: Some(pin_num), configured: true, enabled: sm.enabled });
        self.pins.set(pin_num as usize, Pin { state: PinState::PioOwned, resource_index: k });
        self.ops.push(HwOp::ConfigureSm { block: pio_num, sm: sm_num, pin: pin_num });
        proof {
            lemma_entries_after_claim(before, *self, pin_num as int);
            assert forall|p: int| 0 <= p < PIN_COUNT implies #[trigger] self.pin_ok(p) by {
                assert(before.pin_ok(p));
            }
        }
        Ok(())
    }

    /// Starts or stops state machine `sm_num` of block `pio_num`. Fails,
    /// changing nothing, when an index is out of range.
    pub fn pio_sm_set_enable(&mut self, pio_num: usize, sm_num: usize, enable: bool) -> (r: Result<(), ControlError>)
        requires
            old(self).wf(),
        ensures
            final(self).wf(),
            r is Ok <==> (pio_num < PIO_BLOCK_COUNT && sm_num < SM_PER_BLOCK),
            r is Err ==> r == Err::<(), ControlError>(ControlError::IndexOutOfRange),
            r is Err ==> final(self).same_as(*old(self)),
            r is Ok ==> {
                let k = sm_index(pio_num as int, sm_num as int);
                &&& final(self).sms@ == old(self).sms@.update(
                    k,
                    StateMachine { enabled: enable, ..old(self).sms@[k] },
                )
                &&& final(self).ops@ == old(self).ops@.push(
                    HwOp::SetSmEnable { block: pio_num, sm: sm_num, enable },
                )
            },
            final(self).pins@ == old(self).pins@,
            final(self).gpio_outputs@ == old(self).gpio_outputs@,
            final(self).pwms@ == old(self).pwms@,
            final(self).programs@ == old(self).programs@,
    {
        if pio_num >= PIO_BLOCK_COUNT || sm_num >= SM_PER_BLOCK {
            return Err(ControlError::IndexOutOfRange);
        }
        let ghost before = *self;
        let k = pio_num * SM_PER_BLOCK + sm_num;
        let sm = self.sms[k];
        self.sms.set(k, StateMachine { enabled: enable, ..sm });
        self.ops.push(HwOp::SetSmEnable { block: pio_num, sm: sm_num, enable });
        proof {
            lemma_same_wf(before, *self);
        }
        Ok(())
    }

    /// Queues `word` for the transmit queue of a state machine, without
    /// waiting: a full queue drops it. Fails, changing nothing, when an index
    /// is out of range.
    pub fn pio_sm_push(&mut self, pio_num: usize, sm_num: usize, instr: u32) -> (r: Result<(), ControlError>)
        requires
            old(self).wf(),
        ensures
            final(self).wf(),
            r is Ok <==> (pio_num < PIO_BLOCK_COUNT && sm_num < SM_PER_BLOCK),
            r is Err ==> r == Err::<(), ControlError>(ControlError::IndexOutOfRange),
            r is Err ==> final(self).same_as(*old(self)),
            r is Ok ==> final(self).ops@ == old(self).ops@.push(
                HwOp::PushWord { block: pio_num, sm: sm_num, word: instr },
            ),
            final(self).pins@ == old(self).pins@,
            final(self).gpio_outputs@ == old(self).gpio_outputs@,
            final(self).pwms@ == old(self).pwms@,
            final(self).programs@ == old(self).programs@,
            final(self).sms@ == old(self).sms@,
    {
        if pio_num >= PIO_BLOCK_COUNT || sm_num >= SM_PER_BLOCK {
            return Err(ControlError::IndexOutOfRange);
        }
        let ghost before = *self;
        self.ops.push(HwOp::PushWord { block: pio_num, sm: sm_num, word: instr });
        proof {
            lemma_same_wf(before, *self);
        }
        Ok(())
    }

    /// Runs the raw instruction `instr` on a state machine at once, outside
    /// its program. Nothing checks the instruction: a malformed one can
    /// corrupt or hang the state machine, and the caller answers for it.
    /// Fails, changing nothing, when an index is out of range.
    pub fn pio_sm_exec_instr_unchecked(&mut self, pio_num: usize, sm_num: usize, instr: u16) -> (r: Result<(), ControlError>)
        requires
            old(self).wf(),
        ensures
            final(self).wf(),
            r is Ok <==> (pio_num < PIO_BLOCK_COUNT && sm_num < SM_PER_BLOCK),
            r is Err ==> r == Err::<(), ControlError>(ControlError::IndexOutOfRange),
            r is Err ==> final(self).same_as(*old(self)),
            r is Ok ==> final(self).ops@ == old(self).ops@.push(
                HwOp::ExecInstr { block: pio_num, sm: sm_num, instr },
            ),
            final(self).pins@ == old(self).pins@,
            final(self).gpio_outputs@ == old(self).gpio_outputs@,
            final(self).pwms@ == old(self).pwms@,
            final(self).programs@ == old(self).programs@,
            final(self).sms@ == old(self).sms@,
    {
        if pio_num >= PIO_BLOCK_COUNT || sm_num >= SM_PER_BLOCK {
            return Err(ControlError::IndexOutOfRange);
        }
        let ghost before = *self;
        self.ops.push(HwOp::ExecInstr { block: pio_num, sm: sm_num, instr });
        proof {
            lemma_same_wf(before, *self);
        }
        Ok(())
    }
}

/// No pin is held by two resources: two outputs of the pool name different
/// pins, and no PWM slice names a pin that an output holds.
pub proof fn lemma_no_pin_held_twice(pc: PeripheralController, i: int, j: int, k: int)
    requires
        pc.wf(),
        0 <= i < 30,
        0 <= j < 30,
        0 <= k < 8,
    ensures
        (pc.gpio_outputs@[i] matches Some(oi) && pc.gpio_outputs@[j] matches Some(oj) && oi.pin
            == oj.pin) ==> i == j,
        pc.gpio_outputs@[i] matches Some(o) ==> (pc.pwms@[k] matches Some(w) ==> w.a != Some(
            o.pin,
        ) && w.b != Some(o.pin)),
{
    assert(pc.gpio_entry_ok(i));
    assert(pc.gpio_entry_ok(j));
    assert(pc.pwm_entry_ok(k));
}

} // verus!
