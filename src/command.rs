//! The device's command dispatcher: one request in, at most one response out.
use vstd::prelude::*;
use crate::codec::{
    decode_request,
    encode_response,
    peek_unknown_command,
    request_from_bytes,
    response_bytes,
    unknown_command_id,
};
use crate::peripherals::{
    pwm_init_post,
    sm_index,
    GpioOutput,
    HwOp,
    Pin,
    PwmSlice,
    StateMachine,
    PeripheralController,
    PioProgram,
    PinState,
    PIN_COUNT,
    PIO_BLOCK_COUNT,
    SM_PER_BLOCK,
    PWM_SLICE_COUNT,
    MAX_DUTY_PERCENT,
};
use crate::protocol::{
    CopiRequest,
    CopiResponse,
    DeviceMessage,
    HostMessage,
    UNKNOWN_ERROR_CODE,
    WRONG_PIN_STATE_CODE,
    PIO_PROGRAM_BYTES,
    Disconnected,
};

verus! {

/// Word `i` of a little-endian byte buffer.
pub open spec fn le_word(bytes: Seq<u8>, i: int) -> u16 {
    (bytes[2 * i] as int + 256 * bytes[2 * i + 1] as int) as u16
}

/// The first `n` little-endian words of a byte buffer.
pub open spec fn le_words(bytes: Seq<u8>, n: nat) -> Seq<u16> {
    Seq::new(n, |i: int| le_word(bytes, i))
}

/// Whether the device carries out this command at all.
pub open spec fn is_supported(m: HostMessage) -> bool {
    match m {
        HostMessage::Version { .. } => false,
        HostMessage::GetCpuFrequency { .. } => false,
        HostMessage::GpioOutputGet { .. } => false,
        HostMessage::PioLoadProgram { program_len, .. } => program_len as usize
            <= PIO_PROGRAM_BYTES,
        _ => true,
    }
}

/// Whether every slice, block, state machine and pin number that the command
/// names is in range. A PWM pin out of range is not an error: it is left
/// unbound, like a pin that is owned.
pub open spec fn in_range(m: HostMessage) -> bool {
    match m {
        HostMessage::GpioOutputInit { pin, .. } => (pin as usize) < PIN_COUNT,
        HostMessage::GpioOutputSet { pin, .. } => (pin as usize) < PIN_COUNT,
        HostMessage::PwmInit { slice, .. } => slice < PWM_SLICE_COUNT,
        HostMessage::PwmSetDutyCyclePercent { pin, .. } => (pin as usize) < PIN_COUNT,
        HostMessage::PioLoadProgram { pio_num, .. } => (pio_num as usize) < PIO_BLOCK_COUNT,
        HostMessage::PioSmInit { pio_num, sm_num, pin_num } => (pio_num as usize) < PIO_BLOCK_COUNT
            && (sm_num as usize) < SM_PER_BLOCK && (pin_num as usize) < PIN_COUNT,
        HostMessage::PioSmSetEnable { pio_num, sm_num, .. } => (pio_num as usize)
            < PIO_BLOCK_COUNT && (sm_num as usize) < SM_PER_BLOCK,
        HostMessage::PioSmPush { pio_num, sm_num, .. } => (pio_num as usize) < PIO_BLOCK_COUNT
            && (sm_num as usize) < SM_PER_BLOCK,
        HostMessage::PioSmExecInstr { pio_num, sm_num, .. } => (pio_num as usize)
            < PIO_BLOCK_COUNT && (sm_num as usize) < SM_PER_BLOCK,
        _ => true,
    }
}

/// Whether a supported command succeeds on a controller in state `pc`.
pub open spec fn succeeds(pc: PeripheralController, m: HostMessage) -> bool {
    match m {
        HostMessage::GpioOutputInit { pin, .. } => pc.is_free(pin as int)
            && !pc.gpio_outputs.is_full(),
        HostMessage::GpioOutputSet { pin, .. } => (pin as usize) < PIN_COUNT && pc.pins@[pin as int].state
            == PinState::GpioOutput,
        HostMessage::PwmInit { slice, .. } => slice < PWM_SLICE_COUNT && !pc.pwms.is_full(),
        HostMessage::PwmSetDutyCyclePercent { pin, percent } => (pin as usize) < PIN_COUNT
            && pc.pins@[pin as int].state == PinState::PwmOut && percent <= MAX_DUTY_PERCENT,
        HostMessage::PioLoadProgram { pio_num, .. } => (pio_num as usize) < PIO_BLOCK_COUNT,
        HostMessage::PioSmInit { pio_num, sm_num, pin_num } => (pio_num as usize) < PIO_BLOCK_COUNT
            && (sm_num as usize) < SM_PER_BLOCK && pc.is_free(pin_num as int)
            && pc.programs@[pio_num as int] is Some,
        HostMessage::PioSmSetEnable { pio_num, sm_num, .. } => (pio_num as usize)
            < PIO_BLOCK_COUNT && (sm_num as usize) < SM_PER_BLOCK,
        HostMessage::PioSmPush { pio_num, sm_num, .. } => (pio_num as usize) < PIO_BLOCK_COUNT
            && (sm_num as usize) < SM_PER_BLOCK,
        HostMessage::PioSmExecInstr { pio_num, sm_num, .. } => (pio_num as usize)
            < PIO_BLOCK_COUNT && (sm_num as usize) < SM_PER_BLOCK,
        _ => false,
    }
}

/// Whether the device carries out command `m` on a controller in state `pc`.
pub open spec fn carried_out(pc: PeripheralController, m: HostMessage) -> bool {
    is_supported(m) && in_range(m) && succeeds(pc, m)
}

/// The result the device gives for command `m` on a controller in state `pc`:
/// an unsupported command or a number out of range is an `UnknownError`, a
/// resource in the wrong state a `WrongPinState`.
pub open spec fn expected_result(pc: PeripheralController, m: HostMessage) -> DeviceMessage {
    if !is_supported(m) || !in_range(m) {
        DeviceMessage::Common { error: UNKNOWN_ERROR_CODE, data: 0 }
    } else if succeeds(pc, m) {
        DeviceMessage::Common { error: 0, data: 0 }
    } else {
        DeviceMessage::Common { error: WRONG_PIN_STATE_CODE, data: 0 }
    }
}

/// What carrying out command `m` changes, from controller `old` to `new`: the
/// change that the controller method of the same name makes on success, with
/// the command's fields as arguments.
pub open spec fn applied(old: PeripheralController, new: PeripheralController, m: HostMessage) -> bool {
    match m {
        HostMessage::GpioOutputInit { pin, value } => {
            let i = new.pins@[pin as int].resource_index as int;
            &&& new.pins@ == old.pins@.update(
                pin as int,
                Pin { state: PinState::GpioOutput, resource_index: i as usize },
            )
            &&& old.gpio_outputs@[i] is None
            &&& forall|j: int| 0 <= j < i ==> (#[trigger] old.gpio_outputs@[j]) is Some
            &&& new.gpio_outputs@ == old.gpio_outputs@.update(
                i,
                Some(GpioOutput { pin, level: value }),
            )
            &&& new.ops@ == old.ops@.push(HwOp::DriveOutput { pin, level: value })
            &&& new.pwms@ == old.pwms@
            &&& new.programs@ == old.programs@
            &&& new.sms@ == old.sms@
        },
        HostMessage::GpioOutputSet { pin, state } => {
            let i = old.pins@[pin as int].resource_index as int;
            &&& new.gpio_outputs@ == old.gpio_outputs@.update(
                i,
                Some(GpioOutput { pin, level: state }),
            )
            &&& new.ops@ == old.ops@.push(HwOp::DriveOutput { pin, level: state })
            &&& new.pins@ == old.pins@
            &&& new.pwms@ == old.pwms@
            &&& new.programs@ == old.programs@
            &&& new.sms@ == old.sms@
        },
        HostMessage::PwmInit { slice, a, b, divider, compare_a, compare_b, top } => {
            &&& exists|i: usize|
                #[trigger] pwm_init_post(old, new, slice, a, b, divider, compare_a, compare_b, top, i)
            &&& new.gpio_outputs@ == old.gpio_outputs@
            &&& new.programs@ == old.programs@
            &&& new.sms@ == old.sms@
        },
        HostMessage::PwmSetDutyCyclePercent { pin, percent } => {
            let i = old.pins@[pin as int].resource_index as int;
            &&& (old.pwms@[i] matches Some(w) && new.pwms@ == old.pwms@.update(
                i,
                Some(PwmSlice { duty_percent: Some(percent), ..w }),
            ))
            &&& new.ops@ == old.ops@.push(HwOp::SetDutyCycle { index: i as usize, percent })
            &&& new.pins@ == old.pins@
            &&& new.gpio_outputs@ == old.gpio_outputs@
            &&& new.programs@ == old.programs@
            &&& new.sms@ == old.sms@
        },
        HostMessage::PioLoadProgram {
            pio_num,
            program,
            program_len,
            origin,
            wrap_source,
            wrap_target,
            side_set_opt,
            side_set_bits,
            side_set_pindirs,
            pio_version_v0,
        } => {
            &&& new.programs@.len() == old.programs@.len()
            &&& forall|k: int| 0 <= k < old.programs@.len() && k != pio_num ==> #[trigger] new.programs@[k] == old.programs@[k]
            &&& (new.programs@[pio_num as int] matches Some(p) && p.code@ == le_words(
                program@,
                (program_len / 2) as nat,
            ) && p.origin == origin && p.wrap_source == wrap_source && p.wrap_target
                == wrap_target && p.side_set_opt == side_set_opt && p.side_set_bits
                == side_set_bits && p.side_set_pindirs == side_set_pindirs && p.version_v0
                == pio_version_v0)
            &&& new.ops@ == old.ops@.push(HwOp::LoadProgram { block: pio_num as usize })
            &&& new.pins@ == old.pins@
            &&& new.gpio_outputs@ == old.gpio_outputs@
            &&& new.pwms@ == old.pwms@
            &&& new.sms@ == old.sms@
        },
        HostMessage::PioSmInit { pio_num, sm_num, pin_num } => {
            let k = sm_index(pio_num as int, sm_num as int);
            &&& new.pins@ == old.pins@.update(
                pin_num as int,
                Pin { state: PinState::PioOwned, resource_index: k as usize },
            )
            &&& new.sms@ == old.sms@.update(
                k,
                StateMachine { pin: Some(pin_num), configured: true, ..old.sms@[k] },
            )
            &&& new.ops@ == old.ops@.push(
                HwOp::ConfigureSm { block: pio_num as usize, sm: sm_num as usize, pin: pin_num },
            )
            &&& new.gpio_outputs@ == old.gpio_outputs@
            &&& new.pwms@ == old.pwms@
            &&& new.programs@ == old.programs@
        },
        HostMessage::PioSmSetEnable { pio_num, sm_num, enable } => {
            let k = sm_index(pio_num as int, sm_num as int);
            &&& new.sms@ == old.sms@.update(k, StateMachine { enabled: enable, ..old.sms@[k] })
            &&& new.ops@ == old.ops@.push(
                HwOp::SetSmEnable { block: pio_num as usize, sm: sm_num as usize, enable },
            )
            &&& new.pins@ == old.pins@
            &&& new.gpio_outputs@ == old.gpio_outputs@
            &&& new.pwms@ == old.pwms@
            &&& new.programs@ == old.programs@
        },
        HostMessage::PioSmPush { pio_num, sm_num, instr } => {
            &&& new.ops@ == old.ops@.push(
                HwOp::PushWord { block: pio_num as usize, sm: sm_num as usize, word: instr },
            )
            &&& new.pins@ == old.pins@
            &&& new.gpio_outputs@ == old.gpio_outputs@
            &&& new.pwms@ == old.pwms@
            &&& new.programs@ == old.programs@
            &&& new.sms@ == old.sms@
        },
        HostMessage::PioSmExecInstr { pio_num, sm_num, exec_instr } => {
            &&& new.ops@ == old.ops@.push(
                HwOp::ExecInstr { block: pio_num as usize, sm: sm_num as usize, instr: exec_instr },
            )
            &&& new.pins@ == old.pins@
            &&& new.gpio_outputs@ == old.gpio_outputs@
            &&& new.pwms@ == old.pwms@
            &&& new.programs@ == old.programs@
            &&& new.sms@ == old.sms@
        },
        _ => new.same_as(old),
    }
}

/// Checks the numbers a command names; see `in_range`.
fn command_in_range(m: &HostMessage) -> (r: bool)
    ensures
        r == in_range(*m),
{
    match m {
        HostMessage::GpioOutputInit { pin, .. } => (*pin as usize) < PIN_COUNT,
        HostMessage::GpioOutputSet { pin, .. } => (*pin as usize) < PIN_COUNT,
        HostMessage::PwmInit { slice, .. } => *slice < PWM_SLICE_COUNT,
        HostMessage::PwmSetDutyCyclePercent { pin, .. } => (*pin as usize) < PIN_COUNT,
        HostMessage::PioLoadProgram { pio_num, .. } => (*pio_num as usize) < PIO_BLOCK_COUNT,
        HostMessage::PioSmInit { pio_num, sm_num, pin_num } => (*pio_num as usize)
            < PIO_BLOCK_COUNT && (*sm_num as usize) < SM_PER_BLOCK && (*pin_num as usize)
            < PIN_COUNT,
        HostMessage::PioSmSetEnable { pio_num, sm_num, .. } => (*pio_num as usize)
            < PIO_BLOCK_COUNT && (*sm_num as usize) < SM_PER_BLOCK,
        HostMessage::PioSmPush { pio_num, sm_num, .. } => (*pio_num as usize) < PIO_BLOCK_COUNT
            && (*sm_num as usize) < SM_PER_BLOCK,
        HostMessage::PioSmExecInstr { pio_num, sm_num, .. } => (*pio_num as usize)
            < PIO_BLOCK_COUNT && (*sm_num as usize) < SM_PER_BLOCK,
        _ => true,
    }
}

/// The instruction words that a `PioLoadProgram` buffer holds: the first
/// `len / 2` little-endian words.
pub fn unpack_words(program: &[u8; 32], len: u8) -> (r: Vec<u16>)
    requires
        len as usize <= PIO_PROGRAM_BYTES,
    ensures
        r@ == le_words(program@, (len / 2) as nat),
{
    let n: usize = (len / 2) as usize;
    let mut words: Vec<u16> = Vec::new();
    let mut i: usize = 0;
    while i < n
        invariant
            n == len / 2,
            n <= 16,
            i <= n,
            program@.len() == 32,
            words@ == le_words(program@, i as nat),
        decreases n - i,
    {
        let lo = program[2 * i];
        let hi = program[2 * i + 1];
        let w: u16 = lo as u16 + (hi as u16) * 256;
        words.push(w);
        i = i + 1;
        assert(words@ =~= le_words(program@, i as nat));
    }
    words
}

/// Carries out command `m` on the controller, through the controller method
/// of the same name, and gives its result.
pub fn execute(pc: &mut PeripheralController, m: &HostMessage) -> (r: DeviceMessage)
    requires
        old(pc).wf(),
    ensures
        final(pc).wf(),
        r == expected_result(*old(pc), *m),
        carried_out(*old(pc), *m) ==> applied(*old(pc), *final(pc), *m),
        !carried_out(*old(pc), *m) ==> final(pc).same_as(*old(pc)),
        forall|p: int|
            0 <= p < PIN_COUNT && old(pc).pins@[p].state != PinState::Unowned ==> (
            #[trigger] final(pc).pins@[p]) == old(pc).pins@[p],
{
    if !command_in_range(m) {
        return DeviceMessage::unknown_error();
    }
    let ghost before = *pc;
    let ok = match m {
        HostMessage::GpioOutputInit { pin, value } => pc.gpio_output_init(*pin as usize, *value),
        HostMessage::GpioOutputSet { pin, state } => pc.gpio_output_set(*pin as usize, *state),
        HostMessage::PwmInit { slice, a, b, divider, compare_a, compare_b, top } => {
            match pc.pwm_init(*slice, *a, *b, *divider, *compare_a, *compare_b, *top) {
                Some(i) => {
                    assert(pwm_init_post(
                        before,
                        *pc,
                        *slice,
                        *a,
                        *b,
                        *divider,
                        *compare_a,
                        *compare_b,
                        *top,
                        i,
                    ));
                    true
                },
                None => false,
            }
        },
        HostMessage::PwmSetDutyCyclePercent { pin, percent } => pc.pwm_set_duty_cycle_percent(
            *pin,
            *percent,
        ),
        HostMessage::PioLoadProgram {
            pio_num,
            program,
            program_len,
            origin,
            wrap_source,
            wrap_target,
            side_set_opt,
            side_set_bits,
            side_set_pindirs,
            pio_version_v0,
        } => {
            if *program_len as usize > PIO_PROGRAM_BYTES {
                return DeviceMessage::unknown_error();
            }
            let code = unpack_words(program, *program_len);
            pc.pio_load_program(
                *pio_num as usize,
                PioProgram {
                    code,
                    origin: *origin,
                    wrap_source: *wrap_source,
                    wrap_target: *wrap_target,
                    side_set_opt: *side_set_opt,
                    side_set_bits: *side_set_bits,
                    side_set_pindirs: *side_set_pindirs,
                    version_v0: *pio_version_v0,
                },
            ).is_ok()
        },
        HostMessage::PioSmInit { pio_num, sm_num, pin_num } => pc.pio_sm_init(
            *pio_num as usize,
            *sm_num as usize,
            *pin_num,
        ).is_ok(),
        HostMessage::PioSmSetEnable { pio_num, sm_num, enable } => pc.pio_sm_set_enable(
            *pio_num as usize,
            *sm_num as usize,
            *enable,
        ).is_ok(),
        HostMessage::PioSmPush { pio_num, sm_num, instr } => pc.pio_sm_push(
            *pio_num as usize,
            *sm_num as usize,
            *instr,
        ).is_ok(),
        HostMessage::PioSmExecInstr { pio_num, sm_num, exec_instr } => pc.pio_sm_exec_instr_unchecked(
            *pio_num as usize,
            *sm_num as usize,
            *exec_instr,
        ).is_ok(),
        _ => {
            return DeviceMessage::unknown_error();
        },
    };
    if ok {
        DeviceMessage::empty_ok()
    } else {
        DeviceMessage::wrong_pin_state()
    }
}

/// Carries out a request and builds its response: `None` when the request
/// asks for none (id 0), even when the command fails.
pub fn handle_request(pc: &mut PeripheralController, request: &CopiRequest) -> (r: Option<
    CopiResponse,
>)
    requires
        old(pc).wf(),
    ensures
        final(pc).wf(),
        r == (if request.request_id == 0 {
            None
        } else {
            Some(
                CopiResponse {
                    request_id: request.request_id,
                    message: expected_result(*old(pc), request.message),
                },
            )
        }),
        carried_out(*old(pc), request.message) ==> applied(
            *old(pc),
            *final(pc),
            request.message,
        ),
        !carried_out(*old(pc), request.message) ==> final(pc).same_as(*old(pc)),
{
    let result = execute(pc, &request.message);
    if request.request_id == 0 {
        None
    } else {
        Some(CopiResponse { request_id: request.request_id, message: result })
    }
}

/// The reply the device sends to one packet read from the link, if any.
pub open spec fn frame_reply(pc: PeripheralController, frame: Seq<u8>) -> Option<Seq<u8>> {
    match request_from_bytes(frame) {
        None => match unknown_command_id(frame) {
            Some(id) => if id == 0 {
                None
            } else {
                Some(
                    response_bytes(
                        CopiResponse {
                            request_id: id,
                            message: DeviceMessage::Common { error: UNKNOWN_ERROR_CODE, data: 0 },
                        },
                    ),
                )
            },
            None => None,
        },
        Some(req) => if req.request_id == 0 {
            None
        } else {
            Some(
                response_bytes(
                    CopiResponse {
                        request_id: req.request_id,
                        message: expected_result(pc, req.message),
                    },
                ),
            )
        },
    }
}

/// Handles one packet read from the link: the bytes of the response to send,
/// if any. A request whose command is unknown is answered with `UnknownError`
/// when it asks for a response; any other packet that is not one well-formed
/// request is dropped. Neither changes anything.
pub fn handle_frame(pc: &mut PeripheralController, frame: &[u8]) -> (r: Option<Vec<u8>>)
    requires
        old(pc).wf(),
    ensures
        final(pc).wf(),
        match frame_reply(*old(pc), frame@) {
            None => r is None,
            Some(bytes) => r matches Some(b) && b@ == bytes,
        },
        request_from_bytes(frame@) is None ==> final(pc).same_as(*old(pc)),
        request_from_bytes(frame@) matches Some(req) ==> (carried_out(*old(pc), req.message)
            ==> applied(*old(pc), *final(pc), req.message)),
        request_from_bytes(frame@) matches Some(req) ==> (!carried_out(*old(pc), req.message)
            ==> final(pc).same_as(*old(pc))),
{
    match decode_request(frame) {
        None => match peek_unknown_command(frame) {
            Some(id) => {
                if id == 0 {
                    None
                } else {
                    let response = CopiResponse {
                        request_id: id,
                        message: DeviceMessage::unknown_error(),
                    };
                    Some(encode_response(&response))
                }
            },
            None => None,
        },
        Some(request) => match handle_request(pc, &request) {
            None => None,
            Some(response) => Some(encode_response(&response)),
        },
    }
}

/// `m` is the `PioLoadProgram` command that carries `program` to block
/// `pio_num`: its words little-endian in the buffer, then zeros, and the byte
/// length.
pub open spec fn loads_program(m: HostMessage, pio_num: u8, program: PioProgram) -> bool {
    m matches HostMessage::PioLoadProgram {
        pio_num: n,
        program: bytes,
        program_len,
        origin,
        wrap_source,
        wrap_target,
        side_set_opt,
        side_set_bits,
        side_set_pindirs,
        pio_version_v0,
    } && n == pio_num && program_len == 2 * program.code@.len() && le_words(
        bytes@,
        (program_len / 2) as nat,
    ) == program.code@ && (forall|j: int| program_len <= j < 32 ==> #[trigger] bytes@[j] == 0)
        && origin == program.origin && wrap_source == program.wrap_source && wrap_target
        == program.wrap_target && side_set_opt == program.side_set_opt && side_set_bits
        == program.side_set_bits && side_set_pindirs == program.side_set_pindirs
        && pio_version_v0 == program.version_v0
}

/// The `PioLoadProgram` command that carries `program` to block `pio_num`:
/// its words little-endian in the buffer, then zeros, and the byte length.
/// `None` when the program has more than sixteen words.
pub fn pio_load_program_command(pio_num: u8, program: &PioProgram) -> (r: Option<HostMessage>)
    ensures
        r is Some <==> program.code@.len() <= 16,
        r matches Some(m) ==> loads_program(m, pio_num, *program),
{
    let n = program.code.len();
    if n > 16 {
        return None;
    }
    let mut bytes: [u8; 32] = [0u8; 32];
    let mut i: usize = 0;
    while i < n
        invariant
            n == program.code@.len(),
            n <= 16,
            i <= n,
            bytes@.len() == 32,
            forall|k: int| 0 <= k < i ==> le_word(bytes@, k) == #[trigger] program.code@[k],
            forall|j: int| 2 * i <= j < 32 ==> #[trigger] bytes@[j] == 0,
        decreases n - i,
    {
        let w = program.code[i];
        bytes[2 * i] = (w % 256) as u8;
        bytes[2 * i + 1] = (w / 256) as u8;
        assert(le_word(bytes@, i as int) == w);
        i = i + 1;
    }
    assert(le_words(bytes@, n as nat) =~= program.code@);
    Some(
        HostMessage::PioLoadProgram {
            pio_num,
            program: bytes,
            program_len: (2 * n) as u8,
            origin: program.origin,
            wrap_source: program.wrap_source,
            wrap_target: program.wrap_target,
            side_set_opt: program.side_set_opt,
            side_set_bits: program.side_set_bits,
            side_set_pindirs: program.side_set_pindirs,
            pio_version_v0: program.version_v0,
        },
    )
}

/// Once `gpio_output_init` has given pin `pin` to a digital output, a second
/// `gpio_output_init` of that pin fails with `WrongPinState`, whatever the
/// level asked for.
pub proof fn lemma_second_gpio_init_fails(
    before: PeripheralController,
    after: PeripheralController,
    pin: u8,
    first: bool,
    second: bool,
    index: usize,
)
    requires
        before.wf(),
        succeeds(before, HostMessage::GpioOutputInit { pin, value: first }),
        after.pins@ == before.pins@.update(
            pin as int,
            crate::peripherals::Pin { state: PinState::GpioOutput, resource_index: index },
        ),
    ensures
        !succeeds(after, HostMessage::GpioOutputInit { pin, value: second }),
        expected_result(after, HostMessage::GpioOutputInit { pin, value: second })
            == (DeviceMessage::Common { error: WRONG_PIN_STATE_CODE, data: 0 }),
{
}

/// Why reading a packet from the link failed.
#[derive(Debug, Clone, Copy, PartialEq, Eq, Structural)]
pub enum ReadError {
    /// The packet was larger than the buffer; the link itself is fine.
    BufferOverflow,
    /// The endpoint is gone: the host disconnected.
    Disabled,
}

/// What the device's dispatch loop does next.
pub enum DeviceAction {
    /// Write these bytes as one packet, then read on.
    Send(Vec<u8>),
    /// Read the next packet.
    Continue,
    /// The link is gone; wait for the next connection.
    Stop(Disconnected),
}

/// Decides what the device's dispatch loop does with the outcome of one read:
/// a packet is handled as `handle_frame` says, an oversized packet is dropped,
/// and only a disabled endpoint ends the session.
pub fn device_link_step(pc: &mut PeripheralController, read: Result<Vec<u8>, ReadError>) -> (r:
    DeviceAction)
    requires
        old(pc).wf(),
    ensures
        final(pc).wf(),
        match read {
            Ok(frame) => match frame_reply(*old(pc), frame@) {
                None => r is Continue,
                Some(bytes) => r matches DeviceAction::Send(b) && b@ == bytes,
            },
            Err(ReadError::BufferOverflow) => r is Continue && final(pc).same_as(*old(pc)),
            Err(ReadError::Disabled) => r is Stop && final(pc).same_as(*old(pc)),
        },
        read matches Ok(frame) ==> (request_from_bytes(frame@) matches Some(req) ==> (
        carried_out(*old(pc), req.message) ==> applied(*old(pc), *final(pc), req.message))),
        read matches Ok(frame) ==> (request_from_bytes(frame@) matches Some(req) ==> (
        !carried_out(*old(pc), req.message) ==> final(pc).same_as(*old(pc)))),
        read matches Ok(frame) ==> (request_from_bytes(frame@) is None ==> final(pc).same_as(
            *old(pc),
        )),
{
    match read {
        Ok(frame) => match handle_frame(pc, frame.as_slice()) {
            Some(bytes) => DeviceAction::Send(bytes),
            None => DeviceAction::Continue,
        },
        Err(ReadError::BufferOverflow) => DeviceAction::Continue,
        Err(ReadError::Disabled) => DeviceAction::Stop(Disconnected {}),
    }
}

} // verus!
