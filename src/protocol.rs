//! The messages that travel between host and device, and their envelopes.
use vstd::prelude::*;

verus! {

/// Size of the buffer that carries a PIO program: sixteen 16-bit words.
pub const PIO_PROGRAM_BYTES: usize = 32;

/// A command from the host to the device.
#[derive(Debug, Clone, PartialEq, Eq)]
pub enum HostMessage {
    Version { major: u16, minor: u16, patch: u16 },
    GetCpuFrequency { freq: u32 },
    GpioOutputInit { pin: u8, value: bool },
    GpioOutputSet { pin: u8, state: bool },
    GpioOutputGet { pin: u8 },
    PwmInit {
        slice: u8,
        a: Option<u8>,
        b: Option<u8>,
        divider: u8,
        compare_a: u16,
        compare_b: u16,
        top: u16,
    },
    PwmSetDutyCyclePercent { pin: u8, percent: u8 },
    /// `program` holds `program_len / 2` little-endian instruction words;
    /// the bytes after them are ignored.
    PioLoadProgram {
        pio_num: u8,
        program: [u8; 32],
        program_len: u8,
        origin: Option<u8>,
        wrap_source: u8,
        wrap_target: u8,
        side_set_opt: bool,
        side_set_bits: u8,
        side_set_pindirs: bool,
        pio_version_v0: bool,
    },
    PioSmInit { pio_num: u8, sm_num: u8, pin_num: u8 },
    PioSmSetEnable { pio_num: u8, sm_num: u8, enable: bool },
    PioSmPush { pio_num: u8, sm_num: u8, instr: u32 },
    /// Runs one raw instruction on a state machine at once, outside its program.
    PioSmExecInstr { pio_num: u8, sm_num: u8, exec_instr: u16 },
}

/// The command set that a host can send.
pub type Command = HostMessage;

/// A result from the device to the host.
#[derive(Debug, Clone, Copy, PartialEq, Eq)]
pub enum DeviceMessage {
    Common { error: u16, data: u64 },
}

/// The error codes of a `Common` result; 0 means success.
#[derive(Debug, Clone, Copy, PartialEq, Eq, Structural)]
pub enum ResponseCommonErrorCode {
    UnknownError,
    WrongPinState,
}

/// The same codes under the name the device side uses.
pub type DeviceCommonErrorCode = ResponseCommonErrorCode;

/// Code of `UnknownError` on the wire.
pub const UNKNOWN_ERROR_CODE: u16 = 1;

/// Code of `WrongPinState` on the wire.
pub const WRONG_PIN_STATE_CODE: u16 = 2;

impl ResponseCommonErrorCode {
    /// The wire code of this error.
    pub open spec fn spec_code(self) -> u16 {
        match self {
            ResponseCommonErrorCode::UnknownError => UNKNOWN_ERROR_CODE,
            ResponseCommonErrorCode::WrongPinState => WRONG_PIN_STATE_CODE,
        }
    }

    /// The number that stands for this error on the wire.
    pub fn code(&self) -> (r: u16)
        ensures
            r == self.spec_code(),
    {
        match self {
            ResponseCommonErrorCode::UnknownError => UNKNOWN_ERROR_CODE,
            ResponseCommonErrorCode::WrongPinState => WRONG_PIN_STATE_CODE,
        }
    }

    /// The error that a wire code stands for, if any.
    pub fn from_code(code: u16) -> (r: Option<Self>)
        ensures
            r matches Some(e) ==> e.spec_code() == code,
            r is None <==> code != UNKNOWN_ERROR_CODE && code != WRONG_PIN_STATE_CODE,
    {
        if code == UNKNOWN_ERROR_CODE {
            Some(ResponseCommonErrorCode::UnknownError)
        } else if code == WRONG_PIN_STATE_CODE {
            Some(ResponseCommonErrorCode::WrongPinState)
        } else {
            None
        }
    }

    /// The symbolic name of this error.
    pub open spec fn spec_str_name(self) -> Seq<char> {
        match self {
            ResponseCommonErrorCode::UnknownError => "UNKNOWN_ERROR"@,
            ResponseCommonErrorCode::WrongPinState => "WRONG_PIN_STATE"@,
        }
    }

    /// The stable symbolic name of this error.
    pub fn as_str_name(&self) -> (r: &'static str)
        ensures
            r@ == self.spec_str_name(),
    {
        match self {
            ResponseCommonErrorCode::UnknownError => "UNKNOWN_ERROR",
            ResponseCommonErrorCode::WrongPinState => "WRONG_PIN_STATE",
        }
    }

    /// The error whose symbolic name is `value`, if any.
    pub fn from_str_name(value: &str) -> (r: Option<Self>)
        ensures
            r matches Some(e) ==> e.spec_str_name() == value@,
            r is None ==> value@ != "UNKNOWN_ERROR"@ && value@ != "WRONG_PIN_STATE"@,
    {
        proof {
            reveal_strlit("UNKNOWN_ERROR");
            reveal_strlit("WRONG_PIN_STATE");
        }
        if str_equal(value, "UNKNOWN_ERROR") {
            Some(ResponseCommonErrorCode::UnknownError)
        } else if str_equal(value, "WRONG_PIN_STATE") {
            Some(ResponseCommonErrorCode::WrongPinState)
        } else {
            None
        }
    }
}

/// Compares two strings character by character.
fn str_equal(a: &str, b: &str) -> (r: bool)
    ensures
        r == (a@ == b@),
{
    let n = a.unicode_len();
    if n != b.unicode_len() {
        return false;
    }
    let mut i: usize = 0;
    while i < n
        invariant
            n == a@.len(),
            n == b@.len(),
            i <= n,
            forall|j: int| 0 <= j < i ==> a@[j] == b@[j],
        decreases n - i,
    {
        if a.get_char(i) != b.get_char(i) {
            return false;
        }
        i = i + 1;
    }
    assert(a@ =~= b@);
    true
}

impl DeviceMessage {
    /// Success with no data.
    pub fn empty_ok() -> (r: Self)
        ensures
            r == (DeviceMessage::Common { error: 0, data: 0 }),
    {
        DeviceMessage::Common { error: 0, data: 0 }
    }

    /// Success carrying `data`.
    pub fn common(data: u64) -> (r: Self)
        ensures
            r == (DeviceMessage::Common { error: 0, data }),
    {
        DeviceMessage::Common { error: 0, data }
    }

    /// The failure of a command that the device does not carry out.
    pub fn unknown_error() -> (r: Self)
        ensures
            r == (DeviceMessage::Common { error: UNKNOWN_ERROR_CODE, data: 0 }),
    {
        DeviceMessage::Common { error: UNKNOWN_ERROR_CODE, data: 0 }
    }

    /// The failure of a command whose pin or resource is in the wrong state.
    pub fn wrong_pin_state() -> (r: Self)
        ensures
            r == (DeviceMessage::Common { error: WRONG_PIN_STATE_CODE, data: 0 }),
    {
        DeviceMessage::Common { error: WRONG_PIN_STATE_CODE, data: 0 }
    }
}

/// A command with its correlation id; id 0 asks for no response.
#[derive(Debug, Clone, PartialEq, Eq)]
pub struct CopiRequest {
    pub request_id: u32,
    pub message: HostMessage,
}

impl CopiRequest {
    /// A request that expects a response under `request_id`.
    pub fn new(request_id: u32, command: HostMessage) -> (r: Self)
        ensures
            r == (CopiRequest { request_id, message: command }),
    {
        CopiRequest { request_id, message: command }
    }

    /// A request that expects no response.
    pub fn new_without_id(command: HostMessage) -> (r: Self)
        ensures
            r == (CopiRequest { request_id: 0, message: command }),
    {
        CopiRequest { request_id: 0, message: command }
    }

    pub fn request_id(&self) -> (r: u32)
        ensures
            r == self.request_id,
    {
        self.request_id
    }

    pub fn into_message(self) -> (r: HostMessage)
        ensures
            r == self.message,
    {
        self.message
    }
}

/// A result with the id of the request it answers.
#[derive(Debug, Clone, Copy, PartialEq, Eq)]
pub struct CopiResponse {
    pub request_id: u32,
    pub message: DeviceMessage,
}

impl CopiResponse {
    pub fn new(request_id: u32, message: DeviceMessage) -> (r: Self)
        ensures
            r == (CopiResponse { request_id, message }),
    {
        CopiResponse { request_id, message }
    }

    /// A success that answers no request.
    pub fn empty() -> (r: Self)
        ensures
            r == (CopiResponse { request_id: 0, message: DeviceMessage::Common { error: 0, data: 0 } }),
    {
        CopiResponse { request_id: 0, message: DeviceMessage::empty_ok() }
    }

    pub fn request_id(&self) -> (r: u32)
        ensures
            r == self.request_id,
    {
        self.request_id
    }

    pub fn into_message(self) -> (r: DeviceMessage)
        ensures
            r == self.message,
    {
        self.message
    }
}

/// The fields of a `Common` result, as a front end hands them on.
#[derive(Debug, Clone, Copy, PartialEq, Eq, Default)]
pub struct CommonResponse {
    pub error: u16,
    pub data: u64,
}

impl CommonResponse {
    pub fn from_message(msg: DeviceMessage) -> (r: Self)
        ensures
            msg matches DeviceMessage::Common { error, data } ==> r == (CommonResponse { error, data }),
    {
        match msg {
            DeviceMessage::Common { error, data } => CommonResponse { error, data },
        }
    }
}

impl From<DeviceMessage> for CommonResponse {
    fn from(msg: DeviceMessage) -> (r: Self) {
        CommonResponse::from_message(msg)
    }
}

impl vstd::std_specs::convert::FromSpecImpl<DeviceMessage> for CommonResponse {
    open spec fn obeys_from_spec() -> bool {
        true
    }

    open spec fn from_spec(msg: DeviceMessage) -> Self {
        match msg {
            DeviceMessage::Common { error, data } => CommonResponse { error, data },
        }
    }
}

/// The link to the other side is gone; the session ends.
#[derive(Debug, Clone, Copy, PartialEq, Eq, Structural)]
pub struct Disconnected {}

} // verus!
