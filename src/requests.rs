//! The requests that a front end hands to the host, one per command. Each
//! says whether its caller waits for the result (`skip_response` false) and
//! turns into the command it stands for.
use vstd::prelude::*;
use crate::command::{loads_program, pio_load_program_command};
use crate::peripherals::PioProgram;
use crate::protocol::HostMessage;

verus! {

#[derive(Debug, Clone, Copy, PartialEq, Eq, Structural)]
pub struct PostGpioOutputInitReq {
    pub skip_response: bool,
    pub pin: u8,
    pub value: bool,
}

impl PostGpioOutputInitReq {
    pub fn to_message(&self) -> (r: HostMessage)
        ensures
            r == (HostMessage::GpioOutputInit { pin: self.pin, value: self.value }),
    {
        HostMessage::GpioOutputInit { pin: self.pin, value: self.value }
    }
}

#[derive(Debug, Clone, Copy, PartialEq, Eq, Structural)]
pub struct PostGpioOutputSetReq {
    pub skip_response: bool,
    pub pin: u8,
    pub state: bool,
}

impl PostGpioOutputSetReq {
    pub fn to_message(&self) -> (r: HostMessage)
        ensures
            r == (HostMessage::GpioOutputSet { pin: self.pin, state: self.state }),
    {
        HostMessage::GpioOutputSet { pin: self.pin, state: self.state }
    }
}

#[derive(Debug, Clone, Copy, PartialEq, Eq, Structural)]
pub struct PostPwmInitReq {
    pub skip_response: bool,
    pub slice: u8,
    pub a: Option<u8>,
    pub b: Option<u8>,
    pub divider: u8,
    pub compare_a: u16,
    pub compare_b: u16,
    pub top: u16,
}

impl PostPwmInitReq {
    pub fn to_message(&self) -> (r: HostMessage)
        ensures
            r == (HostMessage::PwmInit {
                slice: self.slice,
                a: self.a,
                b: self.b,
                divider: self.divider,
                compare_a: self.compare_a,
                compare_b: self.compare_b,
                top: self.top,
            }),
    {
        HostMessage::PwmInit {
            slice: self.slice,
            a: self.a,
            b: self.b,
            divider: self.divider,
            compare_a: self.compare_a,
            compare_b: self.compare_b,
            top: self.top,
        }
    }
}

#[derive(Debug, Clone, Copy, PartialEq, Eq, Structural)]
pub struct PostPwmSetDutyCyclePercentReq {
    pub skip_response: bool,
    pub pin: u8,
    pub percent: u8,
}

impl PostPwmSetDutyCyclePercentReq {
    pub fn to_message(&self) -> (r: HostMessage)
        ensures
            r == (HostMessage::PwmSetDutyCyclePercent { pin: self.pin, percent: self.percent }),
    {
        HostMessage::PwmSetDutyCyclePercent { pin: self.pin, percent: self.percent }
    }
}

/// A program to load, as assembly source; the front end assembles it.
#[derive(Debug, Clone, PartialEq, Eq)]
pub struct PostPioLoadProgramReq {
    pub skip_response: bool,
    pub pio_num: u8,
    pub program: String,
}

impl PostPioLoadProgramReq {
    /// The command that loads `assembled`, the program this request's source
    /// assembles to; `None` when it has more than sixteen words.
    pub fn to_message(&self, assembled: &PioProgram) -> (r: Option<HostMessage>)
        ensures
            r is Some <==> assembled.code@.len() <= 16,
            r matches Some(m) ==> loads_program(m, self.pio_num, *assembled),
    {
        pio_load_program_command(self.pio_num, assembled)
    }
}

#[derive(Debug, Clone, Copy, PartialEq, Eq, Structural)]
pub struct PostPioSmInitReq {
    pub skip_response: bool,
    pub pio_num: u8,
    pub sm_num: u8,
    pub pin_num: u8,
}

impl PostPioSmInitReq {
    pub fn to_message(&self) -> (r: HostMessage)
        ensures
            r == (HostMessage::PioSmInit {
                pio_num: self.pio_num,
                sm_num: self.sm_num,
                pin_num: self.pin_num,
            }),
    {
        HostMessage::PioSmInit { pio_num: self.pio_num, sm_num: self.sm_num, pin_num: self.pin_num }
    }
}

#[derive(Debug, Clone, Copy, PartialEq, Eq, Structural)]
pub struct PostPioSmSetEnabledReq {
    pub skip_response: bool,
    pub pio_num: u8,
    pub sm_num: u8,
    pub enabled: bool,
}

impl PostPioSmSetEnabledReq {
    pub fn to_message(&self) -> (r: HostMessage)
        ensures
            r == (HostMessage::PioSmSetEnable {
                pio_num: self.pio_num,
                sm_num: self.sm_num,
                enable: self.enabled,
            }),
    {
        HostMessage::PioSmSetEnable { pio_num: self.pio_num, sm_num: self.sm_num, enable: self.enabled }
    }
}

#[derive(Debug, Clone, Copy, PartialEq, Eq, Structural)]
pub struct PostPioSmPushReq {
    pub skip_response: bool,
    pub pio_num: u8,
    pub sm_num: u8,
    pub instr: u32,
}

impl PostPioSmPushReq {
    pub fn to_message(&self) -> (r: HostMessage)
        ensures
            r == (HostMessage::PioSmPush {
                pio_num: self.pio_num,
                sm_num: self.sm_num,
                instr: self.instr,
            }),
    {
        HostMessage::PioSmPush { pio_num: self.pio_num, sm_num: self.sm_num, instr: self.instr }
    }
}

#[derive(Debug, Clone, Copy, PartialEq, Eq, Structural)]
pub struct PostPioSmExecInstrReq {
    pub skip_response: bool,
    pub pio_num: u8,
    pub sm_num: u8,
    pub exec_instr: u16,
}

impl PostPioSmExecInstrReq {
    pub fn to_message(&self) -> (r: HostMessage)
        ensures
            r == (HostMessage::PioSmExecInstr {
                pio_num: self.pio_num,
                sm_num: self.sm_num,
                exec_instr: self.exec_instr,
            }),
    {
        HostMessage::PioSmExecInstr {
            pio_num: self.pio_num,
            sm_num: self.sm_num,
            exec_instr: self.exec_instr,
        }
    }
}

} // verus!
