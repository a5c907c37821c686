//! The wire codec: each envelope is a CBOR array `[request_id, message]`, and
//! each message an array `[variant index, [fields...]]` whose fields sit at
//! fixed indices. Numbers take their shortest form. Decoding reads back what
//! encoding writes, and stays open to later versions: items after the known
//! fields of an array are skipped, and known optional fields missing at the
//! end of one read as absent.
use vstd::prelude::*;
use crate::cbor::{head, parse_head, lemma_head_round_trip, write_head, read_head, MAJOR_UINT, MAJOR_ARRAY};
use crate::fields::{
    FieldV,
    Field,
    Kind,
    views,
    fits_kind,
    fits_all,
    enc_field,
    enc_fields,
    parse_record,
    skip_items,
    lemma_record_round_trip,
    lemma_record_fits,
    read_record,
    skip_items_at,
    write_fields,
};
use crate::protocol::{HostMessage, DeviceMessage, CopiRequest, CopiResponse};

verus! {

/// The largest packet that the serial link carries.
pub const MAX_USB_PACKET_SIZE: usize = 64;

/// An unsigned integer field.
pub open spec fn uf(v: u64) -> FieldV {
    FieldV::Uint(v)
}

/// A boolean field.
pub open spec fn bf(b: bool) -> FieldV {
    FieldV::Bool(b)
}

/// An optional small integer: null when absent.
pub open spec fn of(o: Option<u8>) -> FieldV {
    match o {
        Some(v) => FieldV::Uint(v as u64),
        None => FieldV::Null,
    }
}

/// The variant index of a command.
pub open spec fn host_tag(m: HostMessage) -> u64 {
    match m {
        HostMessage::Version { .. } => 0,
        HostMessage::GetCpuFrequency { .. } => 1,
        HostMessage::GpioOutputInit { .. } => 64,
        HostMessage::GpioOutputSet { .. } => 65,
        HostMessage::GpioOutputGet { .. } => 66,
        HostMessage::PwmInit { .. } => 67,
        HostMessage::PwmSetDutyCyclePercent { .. } => 68,
        HostMessage::PioLoadProgram { .. } => 69,
        HostMessage::PioSmInit { .. } => 70,
        HostMessage::PioSmSetEnable { .. } => 71,
        HostMessage::PioSmPush { .. } => 72,
        HostMessage::PioSmExecInstr { .. } => 73,
    }
}

/// The fields of a command, by index.
#[verifier::opaque]
pub open spec fn host_fields(m: HostMessage) -> Seq<FieldV> {
    match m {
        HostMessage::Version { major, minor, patch } => seq![
            FieldV::Null,
            uf(major as u64),
            uf(minor as u64),
            uf(patch as u64),
        ],
        HostMessage::GetCpuFrequency { freq } => seq![uf(freq as u64)],
        HostMessage::GpioOutputInit { pin, value } => seq![uf(pin as u64), bf(value)],
        HostMessage::GpioOutputSet { pin, state } => seq![uf(pin as u64), bf(state)],
        HostMessage::GpioOutputGet { pin } => seq![uf(pin as u64)],
        HostMessage::PwmInit { slice, a, b, divider, compare_a, compare_b, top } => seq![
            uf(slice as u64),
            of(a),
            of(b),
            uf(divider as u64),
            uf(compare_a as u64),
            uf(compare_b as u64),
            uf(top as u64),
        ],
        HostMessage::PwmSetDutyCyclePercent { pin, percent } => seq![
            uf(pin as u64),
            uf(percent as u64),
        ],
        HostMessage::PioLoadProgram {
            pio_num,
            program,
            program_len,
            origin,
            wrap_source,
            wrap_target,
            side_set_opt,
            side_set_bits,
            side_set_pindirs,
            pio_version_v0,
        } => seq![
            uf(pio_num as u64),
            FieldV::Bytes(program@),
            uf(program_len as u64),
            of(origin),
            uf(wrap_source as u64),
            uf(wrap_target as u64),
            bf(side_set_opt),
            uf(side_set_bits as u64),
            bf(side_set_pindirs),
            bf(pio_version_v0),
        ],
        HostMessage::PioSmInit { pio_num, sm_num, pin_num } => seq![
            uf(pio_num as u64),
            uf(sm_num as u64),
            uf(pin_num as u64),
        ],
        HostMessage::PioSmSetEnable { pio_num, sm_num, enable } => seq![
            uf(pio_num as u64),
            uf(sm_num as u64),
            bf(enable),
        ],
        HostMessage::PioSmPush { pio_num, sm_num, instr } => seq![
            uf(pio_num as u64),
            uf(sm_num as u64),
            uf(instr as u64),
        ],
        HostMessage::PioSmExecInstr { pio_num, sm_num, exec_instr } => seq![
            uf(pio_num as u64),
            uf(sm_num as u64),
            uf(exec_instr as u64),
        ],
    }
}

/// The kinds of the fields of the command with variant index `tag`.
#[verifier::opaque]
pub open spec fn host_schema(tag: u64) -> Option<Seq<Kind>> {
    if tag == 0 {
        Some(seq![Kind::Gap, Kind::Uint, Kind::Uint, Kind::Uint])
    } else if tag == 1 || tag == 66 {
        Some(seq![Kind::Uint])
    } else if tag == 64 || tag == 65 {
        Some(seq![Kind::Uint, Kind::Bool])
    } else if tag == 67 {
        Some(
            seq![
                Kind::Uint,
                Kind::OptUint,
                Kind::OptUint,
                Kind::Uint,
                Kind::Uint,
                Kind::Uint,
                Kind::Uint,
            ],
        )
    } else if tag == 68 {
        Some(seq![Kind::Uint, Kind::Uint])
    } else if tag == 69 {
        Some(
            seq![
                Kind::Uint,
                Kind::Bytes,
                Kind::Uint,
                Kind::OptUint,
                Kind::Uint,
                Kind::Uint,
                Kind::Bool,
                Kind::Uint,
                Kind::Bool,
                Kind::Bool,
            ],
        )
    } else if tag == 70 || tag == 72 || tag == 73 {
        Some(seq![Kind::Uint, Kind::Uint, Kind::Uint])
    } else if tag == 71 {
        Some(seq![Kind::Uint, Kind::Uint, Kind::Bool])
    } else {
        None
    }
}

/// The integer a field holds, or 0.
pub open spec fn uv(f: FieldV) -> u64 {
    match f {
        FieldV::Uint(v) => v,
        _ => 0,
    }
}

/// The boolean a field holds, or false.
pub open spec fn bv(f: FieldV) -> bool {
    match f {
        FieldV::Bool(b) => b,
        _ => false,
    }
}

/// The optional small integer a field holds.
pub open spec fn ov(f: FieldV) -> Option<u8> {
    match f {
        FieldV::Uint(v) => Some(v as u8),
        _ => None,
    }
}

/// The bytes a field holds, or none.
pub open spec fn sv(f: FieldV) -> Seq<u8> {
    match f {
        FieldV::Bytes(s) => s,
        _ => seq![],
    }
}

/// The field's integer fits 8 bits.
pub open spec fn u8_ok(f: FieldV) -> bool {
    uv(f) <= 0xff
}

/// The field's integer fits 16 bits.
pub open spec fn u16_ok(f: FieldV) -> bool {
    uv(f) <= 0xffff
}

/// The field's integer fits 32 bits.
pub open spec fn u32_ok(f: FieldV) -> bool {
    uv(f) <= 0xffff_ffff
}

/// Whether fields of the right kinds hold values in the ranges of the command's fields.
#[verifier::opaque]
pub open spec fn host_valid(tag: u64, fs: Seq<FieldV>) -> bool {
    if tag == 0 {
        u16_ok(fs[1]) && u16_ok(fs[2]) && u16_ok(fs[3])
    } else if tag == 1 {
        u32_ok(fs[0])
    } else if tag == 64 || tag == 65 || tag == 66 {
        u8_ok(fs[0])
    } else if tag == 67 {
        u8_ok(fs[0]) && u8_ok(fs[1]) && u8_ok(fs[2]) && u8_ok(fs[3]) && u16_ok(fs[4]) && u16_ok(
            fs[5],
        ) && u16_ok(fs[6])
    } else if tag == 68 {
        u8_ok(fs[0]) && u8_ok(fs[1])
    } else if tag == 69 {
        u8_ok(fs[0]) && sv(fs[1]).len() == 32 && u8_ok(fs[2]) && u8_ok(fs[3]) && u8_ok(fs[4])
            && u8_ok(fs[5]) && u8_ok(fs[7])
    } else if tag == 70 || tag == 71 {
        u8_ok(fs[0]) && u8_ok(fs[1]) && u8_ok(fs[2])
    } else if tag == 72 {
        u8_ok(fs[0]) && u8_ok(fs[1]) && u32_ok(fs[2])
    } else if tag == 73 {
        u8_ok(fs[0]) && u8_ok(fs[1]) && u16_ok(fs[2])
    } else {
        false
    }
}

/// The array whose contents are `s`.
pub open spec fn array_of(s: Seq<u8>) -> [u8; 32] {
    choose|a: [u8; 32]| a@ == s
}

/// The command with variant index `tag` and fields `fs`.
#[verifier::opaque]
pub open spec fn host_from(tag: u64, fs: Seq<FieldV>) -> HostMessage {
    if tag == 0 {
        HostMessage::Version {
            major: uv(fs[1]) as u16,
            minor: uv(fs[2]) as u16,
            patch: uv(fs[3]) as u16,
        }
    } else if tag == 1 {
        HostMessage::GetCpuFrequency { freq: uv(fs[0]) as u32 }
    } else if tag == 64 {
        HostMessage::GpioOutputInit { pin: uv(fs[0]) as u8, value: bv(fs[1]) }
    } else if tag == 65 {
        HostMessage::GpioOutputSet { pin: uv(fs[0]) as u8, state: bv(fs[1]) }
    } else if tag == 66 {
        HostMessage::GpioOutputGet { pin: uv(fs[0]) as u8 }
    } else if tag == 67 {
        HostMessage::PwmInit {
            slice: uv(fs[0]) as u8,
            a: ov(fs[1]),
            b: ov(fs[2]),
            divider: uv(fs[3]) as u8,
            compare_a: uv(fs[4]) as u16,
            compare_b: uv(fs[5]) as u16,
            top: uv(fs[6]) as u16,
        }
    } else if tag == 68 {
        HostMessage::PwmSetDutyCyclePercent { pin: uv(fs[0]) as u8, percent: uv(fs[1]) as u8 }
    } else if tag == 69 {
        HostMessage::PioLoadProgram {
            pio_num: uv(fs[0]) as u8,
            program: array_of(sv(fs[1])),
            program_len: uv(fs[2]) as u8,
            origin: ov(fs[3]),
            wrap_source: uv(fs[4]) as u8,
            wrap_target: uv(fs[5]) as u8,
            side_set_opt: bv(fs[6]),
            side_set_bits: uv(fs[7]) as u8,
            side_set_pindirs: bv(fs[8]),
            pio_version_v0: bv(fs[9]),
        }
    } else if tag == 70 {
        HostMessage::PioSmInit {
            pio_num: uv(fs[0]) as u8,
            sm_num: uv(fs[1]) as u8,
            pin_num: uv(fs[2]) as u8,
        }
    } else if tag == 71 {
        HostMessage::PioSmSetEnable {
            pio_num: uv(fs[0]) as u8,
            sm_num: uv(fs[1]) as u8,
            enable: bv(fs[2]),
        }
    } else if tag == 72 {
        HostMessage::PioSmPush {
            pio_num: uv(fs[0]) as u8,
            sm_num: uv(fs[1]) as u8,
            instr: uv(fs[2]) as u32,
        }
    } else {
        HostMessage::PioSmExecInstr {
            pio_num: uv(fs[0]) as u8,
            sm_num: uv(fs[1]) as u8,
            exec_instr: uv(fs[2]) as u16,
        }
    }
}

/// The bytes of a command.
pub open spec fn host_bytes(m: HostMessage) -> Seq<u8> {
    head(MAJOR_ARRAY, 2) + head(MAJOR_UINT, host_tag(m)) + head(
        MAJOR_ARRAY,
        host_fields(m).len() as u64,
    ) + enc_fields(host_fields(m))
}

/// The bytes of a request envelope.
pub open spec fn request_bytes(r: CopiRequest) -> Seq<u8> {
    head(MAJOR_ARRAY, 2) + head(MAJOR_UINT, r.request_id as u64) + host_bytes(r.message)
}

/// The fields of a result.
pub open spec fn device_fields(m: DeviceMessage) -> Seq<FieldV> {
    match m {
        DeviceMessage::Common { error, data } => seq![uf(error as u64), uf(data)],
    }
}

/// The bytes of a result.
pub open spec fn device_bytes(m: DeviceMessage) -> Seq<u8> {
    head(MAJOR_ARRAY, 2) + head(MAJOR_UINT, 0) + head(MAJOR_ARRAY, 2) + enc_fields(
        device_fields(m),
    )
}

/// The bytes of a response envelope.
pub open spec fn response_bytes(r: CopiResponse) -> Seq<u8> {
    head(MAJOR_ARRAY, 2) + head(MAJOR_UINT, r.request_id as u64) + device_bytes(r.message)
}

/// Reads `[variant index, [fields...]]` of a command at the start of `s`.
pub open spec fn parse_host(s: Seq<u8>) -> Option<(HostMessage, int)> {
    match parse_head(s, MAJOR_ARRAY) {
        Some((two, n1)) => if two != 2 {
            None
        } else {
            let s1 = s.subrange(n1, s.len() as int);
            match parse_head(s1, MAJOR_UINT) {
                Some((tag, n2)) => match host_schema(tag) {
                    Some(ks) => {
                        let s2 = s1.subrange(n2, s1.len() as int);
                        match parse_head(s2, MAJOR_ARRAY) {
                            Some((cnt, n3)) => {
                                let s3 = s2.subrange(n3, s2.len() as int);
                                match parse_record(s3, ks, cnt) {
                                    Some((fs, n4)) => if host_valid(tag, fs) {
                                        Some((host_from(tag, fs), n1 + n2 + n3 + n4))
                                    } else {
                                        None
                                    },
                                    None => None,
                                }
                            },
                            None => None,
                        }
                    },
                    None => None,
                },
                None => None,
            }
        },
        None => None,
    }
}

/// Reads a request envelope at the start of `s`.
pub open spec fn parse_request(s: Seq<u8>) -> Option<(CopiRequest, int)> {
    match parse_head(s, MAJOR_ARRAY) {
        Some((cnt, n1)) => if cnt < 2 {
            None
        } else {
            let s1 = s.subrange(n1, s.len() as int);
            match parse_head(s1, MAJOR_UINT) {
                Some((id, n2)) => if id > 0xffff_ffff {
                    None
                } else {
                    let s2 = s1.subrange(n2, s1.len() as int);
                    match parse_host(s2) {
                        Some((m, n3)) => if 0 <= n3 <= s2.len() {
                            match skip_items(s2.subrange(n3, s2.len() as int), (cnt - 2) as nat) {
                                Some(n4) => Some(
                                    (
                                        CopiRequest { request_id: id as u32, message: m },
                                        n1 + n2 + n3 + n4,
                                    ),
                                ),
                                None => None,
                            }
                        } else {
                            None
                        },
                        None => None,
                    }
                },
                None => None,
            }
        },
        None => None,
    }
}

/// The request that a frame holds: one envelope and nothing after it.
pub open spec fn request_from_bytes(s: Seq<u8>) -> Option<CopiRequest> {
    match parse_request(s) {
        Some((r, n)) => if n == s.len() {
            Some(r)
        } else {
            None
        },
        None => None,
    }
}

/// The kinds of the fields of a result.
pub open spec fn device_schema() -> Seq<Kind> {
    seq![Kind::Uint, Kind::Uint]
}

/// Reads a result at the start of `s`.
pub open spec fn parse_device(s: Seq<u8>) -> Option<(DeviceMessage, int)> {
    match parse_head(s, MAJOR_ARRAY) {
        Some((two, n1)) => if two != 2 {
            None
        } else {
            let s1 = s.subrange(n1, s.len() as int);
            match parse_head(s1, MAJOR_UINT) {
                Some((tag, n2)) => if tag != 0 {
                    None
                } else {
                    let s2 = s1.subrange(n2, s1.len() as int);
                    match parse_head(s2, MAJOR_ARRAY) {
                        Some((cnt, n3)) => {
                            let s3 = s2.subrange(n3, s2.len() as int);
                            match parse_record(s3, device_schema(), cnt) {
                                Some((fs, n4)) => if u16_ok(fs[0]) {
                                    Some(
                                        (
                                            DeviceMessage::Common {
                                                error: uv(fs[0]) as u16,
                                                data: uv(fs[1]),
                                            },
                                            n1 + n2 + n3 + n4,
                                        ),
                                    )
                                } else {
                                    None
                                },
                                None => None,
                            }
                        },
                        None => None,
                    }
                },
                None => None,
            }
        },
        None => None,
    }
}

/// Reads a response envelope at the start of `s`.
pub open spec fn parse_response(s: Seq<u8>) -> Option<(CopiResponse, int)> {
    match parse_head(s, MAJOR_ARRAY) {
        Some((cnt, n1)) => if cnt < 2 {
            None
        } else {
            let s1 = s.subrange(n1, s.len() as int);
            match parse_head(s1, MAJOR_UINT) {
                Some((id, n2)) => if id > 0xffff_ffff {
                    None
                } else {
                    let s2 = s1.subrange(n2, s1.len() as int);
                    match parse_device(s2) {
                        Some((m, n3)) => if 0 <= n3 <= s2.len() {
                            match skip_items(s2.subrange(n3, s2.len() as int), (cnt - 2) as nat) {
                                Some(n4) => Some(
                                    (
                                        CopiResponse { request_id: id as u32, message: m },
                                        n1 + n2 + n3 + n4,
                                    ),
                                ),
                                None => None,
                            }
                        } else {
                            None
                        },
                        None => None,
                    }
                },
                None => None,
            }
        },
        None => None,
    }
}

/// The response that a frame holds: one envelope and nothing after it.
pub open spec fn response_from_bytes(s: Seq<u8>) -> Option<CopiResponse> {
    match parse_response(s) {
        Some((r, n)) => if n == s.len() {
            Some(r)
        } else {
            None
        },
        None => None,
    }
}

proof fn lemma_fits_by_index(fs: Seq<FieldV>, ks: Seq<Kind>)
    requires
        fs.len() == ks.len() <= 10,
        0 < fs.len() ==> fits_kind(fs[0], ks[0]),
        1 < fs.len() ==> fits_kind(fs[1], ks[1]),
        2 < fs.len() ==> fits_kind(fs[2], ks[2]),
        3 < fs.len() ==> fits_kind(fs[3], ks[3]),
        4 < fs.len() ==> fits_kind(fs[4], ks[4]),
        5 < fs.len() ==> fits_kind(fs[5], ks[5]),
        6 < fs.len() ==> fits_kind(fs[6], ks[6]),
        7 < fs.len() ==> fits_kind(fs[7], ks[7]),
        8 < fs.len() ==> fits_kind(fs[8], ks[8]),
        9 < fs.len() ==> fits_kind(fs[9], ks[9]),
    ensures
        fits_all(fs, ks),
{
    assert forall|i: int| 0 <= i < fs.len() implies fits_kind(#[trigger] fs[i], ks[i]) by {
        if i == 0 {
        } else if i == 1 {
        } else if i == 2 {
        } else if i == 3 {
        } else if i == 4 {
        } else if i == 5 {
        } else if i == 6 {
        } else if i == 7 {
        } else if i == 8 {
        } else {
        }
    }
}

proof fn lemma_array_of(p: [u8; 32])
    ensures
        array_of(p@) == p,
{
    broadcast use vstd::array::group_array_axioms;

    let a = array_of(p@);
    assert(a@ == p@);
    assert(a =~= p);
}

/// A command's fields have the kinds and ranges of its variant, and give it back.
proof fn lemma_host_fields(m: HostMessage)
    ensures
        host_schema(host_tag(m)) is Some,
        fits_all(host_fields(m), host_schema(host_tag(m)).unwrap()),
        host_valid(host_tag(m), host_fields(m)),
        host_from(host_tag(m), host_fields(m)) == m,
        host_fields(m).len() <= 10,
{
    reveal(host_fields);
    reveal(host_schema);
    reveal(host_valid);
    reveal(host_from);
    lemma_fits_by_index(host_fields(m), host_schema(host_tag(m)).unwrap());
    if let HostMessage::PioLoadProgram { program, .. } = m {
        lemma_array_of(program);
    }
}

#[verifier::rlimit(40)]
proof fn lemma_host_round_trip(m: HostMessage, rest: Seq<u8>)
    ensures
        parse_host(host_bytes(m) + rest) == Some((m, host_bytes(m).len() as int)),
{
    let fs = host_fields(m);
    let tag = host_tag(m);
    lemma_host_fields(m);
    let ks = host_schema(tag).unwrap();
    let h1 = head(MAJOR_ARRAY, 2);
    let h2 = head(MAJOR_UINT, tag);
    let h3 = head(MAJOR_ARRAY, fs.len() as u64);
    let e = enc_fields(fs);
    let s = host_bytes(m) + rest;
    assert(s =~= h1 + (h2 + h3 + e + rest));
    lemma_head_round_trip(MAJOR_ARRAY, 2, h2 + h3 + e + rest);
    let s1 = s.subrange(h1.len() as int, s.len() as int);
    assert(s1 =~= h2 + (h3 + e + rest));
    lemma_head_round_trip(MAJOR_UINT, tag, h3 + e + rest);
    let s2 = s1.subrange(h2.len() as int, s1.len() as int);
    assert(s2 =~= h3 + (e + rest));
    lemma_head_round_trip(MAJOR_ARRAY, fs.len() as u64, e + rest);
    let s3 = s2.subrange(h3.len() as int, s2.len() as int);
    assert(s3 =~= e + rest);
    lemma_record_round_trip(fs, ks, rest);
    assert(parse_head(s, MAJOR_ARRAY) == Some((2u64, h1.len() as int)));
    assert(parse_head(s1, MAJOR_UINT) == Some((tag, h2.len() as int)));
    assert(parse_head(s2, MAJOR_ARRAY) == Some((fs.len() as u64, h3.len() as int)));
    assert(parse_record(s3, ks, fs.len() as u64) == Some((fs, e.len() as int)));
    assert(host_bytes(m).len() == h1.len() + h2.len() + h3.len() + e.len());
}

proof fn lemma_request_parse_round_trip(r: CopiRequest, rest: Seq<u8>)
    ensures
        parse_request(request_bytes(r) + rest) == Some((r, request_bytes(r).len() as int)),
{
    let h1 = head(MAJOR_ARRAY, 2);
    let h2 = head(MAJOR_UINT, r.request_id as u64);
    let hb = host_bytes(r.message);
    let s = request_bytes(r) + rest;
    assert(s =~= h1 + (h2 + hb + rest));
    lemma_head_round_trip(MAJOR_ARRAY, 2, h2 + hb + rest);
    let s1 = s.subrange(h1.len() as int, s.len() as int);
    assert(s1 =~= h2 + (hb + rest));
    lemma_head_round_trip(MAJOR_UINT, r.request_id as u64, hb + rest);
    assert(s1.subrange(h2.len() as int, s1.len() as int) =~= hb + rest);
    lemma_host_round_trip(r.message, rest);
}

/// Decoding the bytes of any request gives that request back.
pub proof fn lemma_request_round_trip(r: CopiRequest)
    ensures
        request_from_bytes(request_bytes(r)) == Some(r),
{
    lemma_request_parse_round_trip(r, seq![]);
    assert(request_bytes(r) + seq![] =~= request_bytes(r));
}

proof fn lemma_device_parse_round_trip(m: DeviceMessage, rest: Seq<u8>)
    ensures
        parse_device(device_bytes(m) + rest) == Some((m, device_bytes(m).len() as int)),
{
    let fs = device_fields(m);
    let ks = device_schema();
    lemma_fits_by_index(fs, ks);
    let h1 = head(MAJOR_ARRAY, 2);
    let h2 = head(MAJOR_UINT, 0);
    let h3 = head(MAJOR_ARRAY, 2);
    let e = enc_fields(fs);
    let s = device_bytes(m) + rest;
    assert(s =~= h1 + (h2 + h3 + e + rest));
    lemma_head_round_trip(MAJOR_ARRAY, 2, h2 + h3 + e + rest);
    let s1 = s.subrange(h1.len() as int, s.len() as int);
    assert(s1 =~= h2 + (h3 + e + rest));
    lemma_head_round_trip(MAJOR_UINT, 0, h3 + e + rest);
    let s2 = s1.subrange(h2.len() as int, s1.len() as int);
    assert(s2 =~= h3 + (e + rest));
    lemma_head_round_trip(MAJOR_ARRAY, 2, e + rest);
    let s3 = s2.subrange(h3.len() as int, s2.len() as int);
    assert(s3 =~= e + rest);
    lemma_record_round_trip(fs, ks, rest);
    assert(parse_record(s3, ks, 2) == Some((fs, e.len() as int)));
}

proof fn lemma_response_parse_round_trip(r: CopiResponse, rest: Seq<u8>)
    ensures
        parse_response(response_bytes(r) + rest) == Some((r, response_bytes(r).len() as int)),
{
    let h1 = head(MAJOR_ARRAY, 2);
    let h2 = head(MAJOR_UINT, r.request_id as u64);
    let db = device_bytes(r.message);
    let s = response_bytes(r) + rest;
    assert(s =~= h1 + (h2 + db + rest));
    lemma_head_round_trip(MAJOR_ARRAY, 2, h2 + db + rest);
    let s1 = s.subrange(h1.len() as int, s.len() as int);
    assert(s1 =~= h2 + (db + rest));
    lemma_head_round_trip(MAJOR_UINT, r.request_id as u64, db + rest);
    assert(s1.subrange(h2.len() as int, s1.len() as int) =~= db + rest);
    lemma_device_parse_round_trip(r.message, rest);
}

/// Decoding the bytes of any response gives that response back.
pub proof fn lemma_response_round_trip(r: CopiResponse)
    ensures
        response_from_bytes(response_bytes(r)) == Some(r),
{
    lemma_response_parse_round_trip(r, seq![]);
    assert(response_bytes(r) + seq![] =~= response_bytes(r));
}

proof fn lemma_field_bound_by_index(fs: Seq<FieldV>, c: int)
    requires
        fs.len() <= 10,
        0 < fs.len() ==> enc_field(fs[0]).len() <= c,
        1 < fs.len() ==> enc_field(fs[1]).len() <= c,
        2 < fs.len() ==> enc_field(fs[2]).len() <= c,
        3 < fs.len() ==> enc_field(fs[3]).len() <= c,
        4 < fs.len() ==> enc_field(fs[4]).len() <= c,
        5 < fs.len() ==> enc_field(fs[5]).len() <= c,
        6 < fs.len() ==> enc_field(fs[6]).len() <= c,
        7 < fs.len() ==> enc_field(fs[7]).len() <= c,
        8 < fs.len() ==> enc_field(fs[8]).len() <= c,
        9 < fs.len() ==> enc_field(fs[9]).len() <= c,
    ensures
        forall|i: int| 0 <= i < fs.len() ==> enc_field(#[trigger] fs[i]).len() <= c,
{
    assert forall|i: int| 0 <= i < fs.len() implies enc_field(#[trigger] fs[i]).len() <= c by {
        if i == 0 {
        } else if i == 1 {
        } else if i == 2 {
        } else if i == 3 {
        } else if i == 4 {
        } else if i == 5 {
        } else if i == 6 {
        } else if i == 7 {
        } else if i == 8 {
        } else {
        }
    }
}

proof fn lemma_enc_fields_bound(fs: Seq<FieldV>, c: int)
    requires
        0 <= c,
        forall|i: int| 0 <= i < fs.len() ==> enc_field(#[trigger] fs[i]).len() <= c,
    ensures
        enc_fields(fs).len() <= c * fs.len(),
    decreases fs.len(),
{
    if fs.len() > 0 {
        let tail = fs.drop_first();
        assert forall|i: int| 0 <= i < tail.len() implies enc_field(#[trigger] tail[i]).len()
            <= c by {
            assert(tail[i] == fs[i + 1]);
        }
        lemma_enc_fields_bound(tail, c);
        assert(enc_field(fs[0]).len() <= c);
        assert(c * tail.len() + c == c * fs.len()) by (nonlinear_arith)
            requires
                tail.len() + 1 == fs.len(),
        ;
    }
}

proof fn lemma_host_bytes_len(m: HostMessage)
    ensures
        host_bytes(m).len() <= 57,
{
    reveal(host_fields);
    let fs = host_fields(m);
    match m {
        HostMessage::PioLoadProgram { program, .. } => {
            assert(program@.len() == 32);
            let rest = fs.skip(2);
            assert(fs.drop_first().drop_first() =~= rest);
            assert(fs[1] == fs.drop_first()[0]);
            lemma_field_bound_by_index(rest, 2);
            lemma_enc_fields_bound(rest, 2);
            assert(enc_fields(fs) == enc_field(fs[0]) + enc_fields(fs.drop_first()));
            assert(enc_fields(fs.drop_first()) == enc_field(fs[1]) + enc_fields(rest));
            assert(enc_fields(fs).len() <= 52);
        },
        _ => {
            lemma_field_bound_by_index(fs, 5);
            lemma_enc_fields_bound(fs, 5);
            assert(enc_fields(fs).len() <= 35);
        },
    }
}

/// Every request, at any field values, fits in one packet.
pub proof fn lemma_request_fits_packet(r: CopiRequest)
    ensures
        request_bytes(r).len() <= MAX_USB_PACKET_SIZE,
{
    lemma_host_bytes_len(r.message);
}

/// Every response, at any field values, fits in one packet.
pub proof fn lemma_response_fits_packet(r: CopiResponse)
    ensures
        response_bytes(r).len() <= MAX_USB_PACKET_SIZE,
{
    let fs = device_fields(r.message);
    lemma_field_bound_by_index(fs, 9);
    lemma_enc_fields_bound(fs, 9);
}

fn uint_field(v: u64) -> (r: Field)
    ensures
        r@ == uf(v),
{
    Field::Uint(v)
}

fn opt_field(o: Option<u8>) -> (r: Field)
    ensures
        r@ == of(o),
{
    match o {
        Some(v) => Field::Uint(v as u64),
        None => Field::Null,
    }
}

fn array_to_vec(a: &[u8; 32]) -> (r: Vec<u8>)
    ensures
        r@ == a@,
{
    let mut v: Vec<u8> = Vec::new();
    let mut i: usize = 0;
    while i < 32
        invariant
            i <= 32,
            a@.len() == 32,
            v@ == a@.subrange(0, i as int),
        decreases 32 - i,
    {
        v.push(a[i]);
        i = i + 1;
        assert(v@ =~= a@.subrange(0, i as int));
    }
    assert(v@ =~= a@);
    v
}

fn vec_to_array(v: &Vec<u8>) -> (r: [u8; 32])
    requires
        v@.len() == 32,
    ensures
        r@ == v@,
{
    let mut a: [u8; 32] = [0u8; 32];
    let mut i: usize = 0;
    while i < 32
        invariant
            i <= 32,
            v@.len() == 32,
            a@.len() == 32,
            forall|j: int| 0 <= j < i ==> a@[j] == v@[j],
        decreases 32 - i,
    {
        a[i] = v[i];
        i = i + 1;
    }
    assert(a@ =~= v@);
    a
}

fn host_tag_exec(m: &HostMessage) -> (r: u64)
    ensures
        r == host_tag(*m),
{
    match m {
        HostMessage::Version { .. } => 0,
        HostMessage::GetCpuFrequency { .. } => 1,
        HostMessage::GpioOutputInit { .. } => 64,
        HostMessage::GpioOutputSet { .. } => 65,
        HostMessage::GpioOutputGet { .. } => 66,
        HostMessage::PwmInit { .. } => 67,
        HostMessage::PwmSetDutyCyclePercent { .. } => 68,
        HostMessage::PioLoadProgram { .. } => 69,
        HostMessage::PioSmInit { .. } => 70,
        HostMessage::PioSmSetEnable { .. } => 71,
        HostMessage::PioSmPush { .. } => 72,
        HostMessage::PioSmExecInstr { .. } => 73,
    }
}

fn host_fields_exec(m: &HostMessage) -> (r: Vec<Field>)
    ensures
        views(r@) == host_fields(*m),
{
    proof {
        reveal(host_fields);
    }
    let r = match m {
        HostMessage::Version { major, minor, patch } => vec![
            Field::Null,
            uint_field(*major as u64),
            uint_field(*minor as u64),
            uint_field(*patch as u64),
        ],
        HostMessage::GetCpuFrequency { freq } => vec![uint_field(*freq as u64)],
        HostMessage::GpioOutputInit { pin, value } => vec![
            uint_field(*pin as u64),
            Field::Bool(*value),
        ],
        HostMessage::GpioOutputSet { pin, state } => vec![
            uint_field(*pin as u64),
            Field::Bool(*state),
        ],
        HostMessage::GpioOutputGet { pin } => vec![uint_field(*pin as u64)],
        HostMessage::PwmInit { slice, a, b, divider, compare_a, compare_b, top } => vec![
            uint_field(*slice as u64),
            opt_field(*a),
            opt_field(*b),
            uint_field(*divider as u64),
            uint_field(*compare_a as u64),
            uint_field(*compare_b as u64),
            uint_field(*top as u64),
        ],
        HostMessage::PwmSetDutyCyclePercent { pin, percent } => vec![
            uint_field(*pin as u64),
            uint_field(*percent as u64),
        ],
        HostMessage::PioLoadProgram {
            pio_num,
            program,
            program_len,
            origin,
            wrap_source,
            wrap_target,
            side_set_opt,
            side_set_bits,
            side_set_pindirs,
            pio_version_v0,
        } => vec![
            uint_field(*pio_num as u64),
            Field::Bytes(array_to_vec(program)),
            uint_field(*program_len as u64),
            opt_field(*origin),
            uint_field(*wrap_source as u64),
            uint_field(*wrap_target as u64),
            Field::Bool(*side_set_opt),
            uint_field(*side_set_bits as u64),
            Field::Bool(*side_set_pindirs),
            Field::Bool(*pio_version_v0),
        ],
        HostMessage::PioSmInit { pio_num, sm_num, pin_num } => vec![
            uint_field(*pio_num as u64),
            uint_field(*sm_num as u64),
            uint_field(*pin_num as u64),
        ],
        HostMessage::PioSmSetEnable { pio_num, sm_num, enable } => vec![
            uint_field(*pio_num as u64),
            uint_field(*sm_num as u64),
            Field::Bool(*enable),
        ],
        HostMessage::PioSmPush { pio_num, sm_num, instr } => vec![
            uint_field(*pio_num as u64),
            uint_field(*sm_num as u64),
            uint_field(*instr as u64),
        ],
        HostMessage::PioSmExecInstr { pio_num, sm_num, exec_instr } => vec![
            uint_field(*pio_num as u64),
            uint_field(*sm_num as u64),
            uint_field(*exec_instr as u64),
        ],
    };
    assert(views(r@) =~= host_fields(*m));
    r
}

fn write_host(out: &mut Vec<u8>, m: &HostMessage)
    ensures
        final(out)@ == old(out)@ + host_bytes(*m),
{
    proof {
        lemma_host_fields(*m);
    }
    let fs = host_fields_exec(m);
    write_head(out, MAJOR_ARRAY, 2);
    write_head(out, MAJOR_UINT, host_tag_exec(m));
    write_head(out, MAJOR_ARRAY, fs.len() as u64);
    write_fields(out, &fs, 0);
    assert(views(fs@).skip(0) =~= views(fs@));
    assert(final(out)@ =~= old(out)@ + host_bytes(*m));
}

/// The bytes of one request packet.
pub fn encode_request(req: &CopiRequest) -> (r: Vec<u8>)
    ensures
        r@ == request_bytes(*req),
        r@.len() <= MAX_USB_PACKET_SIZE,
{
    let mut out: Vec<u8> = Vec::new();
    write_head(&mut out, MAJOR_ARRAY, 2);
    write_head(&mut out, MAJOR_UINT, req.request_id as u64);
    write_host(&mut out, &req.message);
    proof {
        lemma_request_fits_packet(*req);
    }
    assert(out@ =~= request_bytes(*req));
    out
}

/// The bytes of one response packet.
pub fn encode_response(resp: &CopiResponse) -> (r: Vec<u8>)
    ensures
        r@ == response_bytes(*resp),
        r@.len() <= MAX_USB_PACKET_SIZE,
{
    let mut out: Vec<u8> = Vec::new();
    write_head(&mut out, MAJOR_ARRAY, 2);
    write_head(&mut out, MAJOR_UINT, resp.request_id as u64);
    write_head(&mut out, MAJOR_ARRAY, 2);
    write_head(&mut out, MAJOR_UINT, 0);
    write_head(&mut out, MAJOR_ARRAY, 2);
    let DeviceMessage::Common { error, data } = resp.message;
    let fs = vec![uint_field(error as u64), uint_field(data)];
    assert(views(fs@) =~= device_fields(resp.message));
    write_fields(&mut out, &fs, 0);
    assert(views(fs@).skip(0) =~= views(fs@));
    proof {
        lemma_response_fits_packet(*resp);
    }
    assert(out@ =~= response_bytes(*resp));
    out
}

fn host_schema_exec(tag: u64) -> (r: Option<Vec<Kind>>)
    ensures
        match host_schema(tag) {
            None => r is None,
            Some(ks) => r matches Some(v) && v@ == ks,
        },
{
    proof {
        reveal(host_schema);
    }
    let r = if tag == 0 {
        Some(vec![Kind::Gap, Kind::Uint, Kind::Uint, Kind::Uint])
    } else if tag == 1 || tag == 66 {
        Some(vec![Kind::Uint])
    } else if tag == 64 || tag == 65 {
        Some(vec![Kind::Uint, Kind::Bool])
    } else if tag == 67 {
        Some(
            vec![
                Kind::Uint,
                Kind::OptUint,
                Kind::OptUint,
                Kind::Uint,
                Kind::Uint,
                Kind::Uint,
                Kind::Uint,
            ],
        )
    } else if tag == 68 {
        Some(vec![Kind::Uint, Kind::Uint])
    } else if tag == 69 {
        Some(
            vec![
                Kind::Uint,
                Kind::Bytes,
                Kind::Uint,
                Kind::OptUint,
                Kind::Uint,
                Kind::Uint,
                Kind::Bool,
                Kind::Uint,
                Kind::Bool,
                Kind::Bool,
            ],
        )
    } else if tag == 70 || tag == 72 || tag == 73 {
        Some(vec![Kind::Uint, Kind::Uint, Kind::Uint])
    } else if tag == 71 {
        Some(vec![Kind::Uint, Kind::Uint, Kind::Bool])
    } else {
        None
    };
    assert(r matches Some(v) ==> v@ =~= host_schema(tag).unwrap());
    r
}

fn get_u(f: &Field) -> (r: u64)
    ensures
        r == uv(f@),
{
    match f {
        Field::Uint(v) => *v,
        _ => 0,
    }
}

fn get_b(f: &Field) -> (r: bool)
    ensures
        r == bv(f@),
{
    match f {
        Field::Bool(b) => *b,
        _ => false,
    }
}

fn get_opt(f: &Field) -> (r: Option<u8>)
    requires
        u8_ok(f@),
    ensures
        r == ov(f@),
{
    match f {
        Field::Uint(v) => Some(*v as u8),
        _ => None,
    }
}

/// Builds the command with variant index `tag` from fields of the right kinds,
/// if their values are in range.
fn host_from_exec(tag: u64, fs: &Vec<Field>) -> (r: Option<HostMessage>)
    requires
        host_schema(tag) is Some,
        fits_all(views(fs@), host_schema(tag).unwrap()),
    ensures
        r == (if host_valid(tag, views(fs@)) {
            Some(host_from(tag, views(fs@)))
        } else {
            None
        }),
{
    proof {
        reveal(host_schema);
        reveal(host_valid);
        reveal(host_from);
    }
    let ghost v = views(fs@);
    assert(v.len() == fs@.len());
    assert(forall|i: int| 0 <= i < fs@.len() ==> v[i] == (#[trigger] fs@[i])@);
    if tag == 0 {
        let (a, b, c) = (get_u(&fs[1]), get_u(&fs[2]), get_u(&fs[3]));
        if a <= 0xffff && b <= 0xffff && c <= 0xffff {
            Some(HostMessage::Version { major: a as u16, minor: b as u16, patch: c as u16 })
        } else {
            None
        }
    } else if tag == 1 {
        let a = get_u(&fs[0]);
        if a <= 0xffff_ffff {
            Some(HostMessage::GetCpuFrequency { freq: a as u32 })
        } else {
            None
        }
    } else if tag == 64 || tag == 65 || tag == 66 {
        let a = get_u(&fs[0]);
        if a > 0xff {
            None
        } else if tag == 64 {
            Some(HostMessage::GpioOutputInit { pin: a as u8, value: get_b(&fs[1]) })
        } else if tag == 65 {
            Some(HostMessage::GpioOutputSet { pin: a as u8, state: get_b(&fs[1]) })
        } else {
            Some(HostMessage::GpioOutputGet { pin: a as u8 })
        }
    } else if tag == 67 {
        let (s0, d, ca, cb, t) = (
            get_u(&fs[0]),
            get_u(&fs[3]),
            get_u(&fs[4]),
            get_u(&fs[5]),
            get_u(&fs[6]),
        );
        if s0 <= 0xff && get_u(&fs[1]) <= 0xff && get_u(&fs[2]) <= 0xff && d <= 0xff && ca
            <= 0xffff && cb <= 0xffff && t <= 0xffff {
            Some(
                HostMessage::PwmInit {
                    slice: s0 as u8,
                    a: get_opt(&fs[1]),
                    b: get_opt(&fs[2]),
                    divider: d as u8,
                    compare_a: ca as u16,
                    compare_b: cb as u16,
                    top: t as u16,
                },
            )
        } else {
            None
        }
    } else if tag == 68 {
        let (a, b) = (get_u(&fs[0]), get_u(&fs[1]));
        if a <= 0xff && b <= 0xff {
            Some(HostMessage::PwmSetDutyCyclePercent { pin: a as u8, percent: b as u8 })
        } else {
            None
        }
    } else if tag == 69 {
        let (p, l, ws, wt, bits) = (
            get_u(&fs[0]),
            get_u(&fs[2]),
            get_u(&fs[4]),
            get_u(&fs[5]),
            get_u(&fs[7]),
        );
        let program = match &fs[1] {
            Field::Bytes(bytes) => {
                if bytes.len() == 32 {
                    Some(vec_to_array(bytes))
                } else {
                    None
                }
            },
            _ => None,
        };
        match program {
            Some(program) => {
                if p <= 0xff && l <= 0xff && get_u(&fs[3]) <= 0xff && ws <= 0xff && wt <= 0xff
                    && bits <= 0xff {
                    proof {
                        lemma_array_of(program);
                    }
                    Some(
                        HostMessage::PioLoadProgram {
                            pio_num: p as u8,
                            program,
                            program_len: l as u8,
                            origin: get_opt(&fs[3]),
                            wrap_source: ws as u8,
                            wrap_target: wt as u8,
                            side_set_opt: get_b(&fs[6]),
                            side_set_bits: bits as u8,
                            side_set_pindirs: get_b(&fs[8]),
                            pio_version_v0: get_b(&fs[9]),
                        },
                    )
                } else {
                    None
                }
            },
            None => None,
        }
    } else {
        let (a, b) = (get_u(&fs[0]), get_u(&fs[1]));
        if a > 0xff || b > 0xff {
            None
        } else if tag == 70 {
            let c = get_u(&fs[2]);
            if c <= 0xff {
                Some(HostMessage::PioSmInit { pio_num: a as u8, sm_num: b as u8, pin_num: c as u8 })
            } else {
                None
            }
        } else if tag == 71 {
            Some(
                HostMessage::PioSmSetEnable {
                    pio_num: a as u8,
                    sm_num: b as u8,
                    enable: get_b(&fs[2]),
                },
            )
        } else if tag == 72 {
            let c = get_u(&fs[2]);
            if c <= 0xffff_ffff {
                Some(HostMessage::PioSmPush { pio_num: a as u8, sm_num: b as u8, instr: c as u32 })
            } else {
                None
            }
        } else {
            let c = get_u(&fs[2]);
            if c <= 0xffff {
                Some(
                    HostMessage::PioSmExecInstr {
                        pio_num: a as u8,
                        sm_num: b as u8,
                        exec_instr: c as u16,
                    },
                )
            } else {
                None
            }
        }
    }
}

proof fn lemma_sub(b: Seq<u8>, pos: int, n: int)
    requires
        0 <= pos <= b.len(),
        0 <= n <= b.len() - pos,
    ensures
        b.subrange(pos, b.len() as int).subrange(n, b.len() - pos) =~= b.subrange(
            pos + n,
            b.len() as int,
        ),
{
}

/// Reads a command at `pos`: the command and the position after it.
fn read_host(b: &[u8], pos: usize) -> (r: Option<(HostMessage, usize)>)
    requires
        pos <= b@.len(),
    ensures
        match parse_host(b@.subrange(pos as int, b@.len() as int)) {
            None => r is None,
            Some((m, n)) => r matches Some((y, e)) && y == m && e == pos + n,
        },
{
    let ghost s = b@.subrange(pos as int, b@.len() as int);
    let (two, end1) = match read_head(b, pos, MAJOR_ARRAY) {
        Some(x) => x,
        None => return None,
    };
    if two != 2 {
        return None;
    }
    proof {
        lemma_sub(b@, pos as int, end1 - pos);
    }
    let (tag, end2) = match read_head(b, end1, MAJOR_UINT) {
        Some(x) => x,
        None => return None,
    };
    proof {
        lemma_sub(b@, end1 as int, end2 - end1);
    }
    let ks = match host_schema_exec(tag) {
        Some(ks) => ks,
        None => return None,
    };
    let (cnt, end3) = match read_head(b, end2, MAJOR_ARRAY) {
        Some(x) => x,
        None => return None,
    };
    proof {
        lemma_sub(b@, end2 as int, end3 - end2);
    }
    let (fs, end4) = match read_record(b, end3, &ks, cnt) {
        Some(x) => x,
        None => return None,
    };
    proof {
        lemma_record_fits(b@.subrange(end3 as int, b@.len() as int), ks@, cnt);
    }
    match host_from_exec(tag, &fs) {
        Some(m) => Some((m, end4)),
        None => None,
    }
}

fn read_request(b: &[u8]) -> (r: Option<(CopiRequest, usize)>)
    ensures
        match parse_request(b@) {
            None => r is None,
            Some((x, n)) => r matches Some((y, e)) && y == x && e == n,
        },
{
    proof {
        assert(b@.subrange(0, b@.len() as int) =~= b@);
    }
    let (cnt, end1) = match read_head(b, 0, MAJOR_ARRAY) {
        Some(x) => x,
        None => return None,
    };
    if cnt < 2 {
        return None;
    }
    proof {
        lemma_sub(b@, 0, end1 as int);
    }
    let (id, end2) = match read_head(b, end1, MAJOR_UINT) {
        Some(x) => x,
        None => return None,
    };
    if id > 0xffff_ffff {
        return None;
    }
    proof {
        lemma_sub(b@, end1 as int, end2 - end1);
    }
    let (m, end3) = match read_host(b, end2) {
        Some(x) => x,
        None => return None,
    };
    if end3 < end2 || end3 > b.len() {
        return None;
    }
    proof {
        lemma_sub(b@, end2 as int, end3 - end2);
    }
    match skip_items_at(b, end3, cnt - 2) {
        Some(end4) => Some((CopiRequest { request_id: id as u32, message: m }, end4)),
        None => None,
    }
}

/// The request that one packet holds, if it holds exactly one well-formed
/// request and nothing after it.
pub fn decode_request(b: &[u8]) -> (r: Option<CopiRequest>)
    ensures
        r == request_from_bytes(b@),
{
    match read_request(b) {
        Some((x, n)) => {
            if n == b.len() {
                Some(x)
            } else {
                None
            }
        },
        None => None,
    }
}

fn read_device(b: &[u8], pos: usize) -> (r: Option<(DeviceMessage, usize)>)
    requires
        pos <= b@.len(),
    ensures
        match parse_device(b@.subrange(pos as int, b@.len() as int)) {
            None => r is None,
            Some((m, n)) => r matches Some((y, e)) && y == m && e == pos + n,
        },
{
    let (two, end3) = match read_head(b, pos, MAJOR_ARRAY) {
        Some(x) => x,
        None => return None,
    };
    if two != 2 {
        return None;
    }
    proof {
        lemma_sub(b@, pos as int, end3 - pos);
    }
    let (tag, end4) = match read_head(b, end3, MAJOR_UINT) {
        Some(x) => x,
        None => return None,
    };
    if tag != 0 {
        return None;
    }
    proof {
        lemma_sub(b@, end3 as int, end4 - end3);
    }
    let (cnt, end5) = match read_head(b, end4, MAJOR_ARRAY) {
        Some(x) => x,
        None => return None,
    };
    proof {
        lemma_sub(b@, end4 as int, end5 - end4);
    }
    let ks = vec![Kind::Uint, Kind::Uint];
    assert(ks@ =~= device_schema());
    let (fs, end6) = match read_record(b, end5, &ks, cnt) {
        Some(x) => x,
        None => return None,
    };
    proof {
        lemma_record_fits(b@.subrange(end5 as int, b@.len() as int), device_schema(), cnt);
        assert(views(fs@)[0] == fs@[0]@);
        assert(views(fs@)[1] == fs@[1]@);
    }
    let error = get_u(&fs[0]);
    if error > 0xffff {
        return None;
    }
    let data = get_u(&fs[1]);
    Some((DeviceMessage::Common { error: error as u16, data }, end6))
}

fn read_response(b: &[u8]) -> (r: Option<(CopiResponse, usize)>)
    ensures
        match parse_response(b@) {
            None => r is None,
            Some((x, n)) => r matches Some((y, e)) && y == x && e == n,
        },
{
    proof {
        assert(b@.subrange(0, b@.len() as int) =~= b@);
    }
    let (cnt, end1) = match read_head(b, 0, MAJOR_ARRAY) {
        Some(x) => x,
        None => return None,
    };
    if cnt < 2 {
        return None;
    }
    proof {
        lemma_sub(b@, 0, end1 as int);
    }
    let (id, end2) = match read_head(b, end1, MAJOR_UINT) {
        Some(x) => x,
        None => return None,
    };
    if id > 0xffff_ffff {
        return None;
    }
    proof {
        lemma_sub(b@, end1 as int, end2 - end1);
    }
    let (m, end3) = match read_device(b, end2) {
        Some(x) => x,
        None => return None,
    };
    if end3 < end2 || end3 > b.len() {
        return None;
    }
    proof {
        lemma_sub(b@, end2 as int, end3 - end2);
    }
    match skip_items_at(b, end3, cnt - 2) {
        Some(end4) => Some((CopiResponse { request_id: id as u32, message: m }, end4)),
        None => None,
    }
}

/// The response that one packet holds, if it holds exactly one well-formed
/// response and nothing after it.
pub fn decode_response(b: &[u8]) -> (r: Option<CopiResponse>)
    ensures
        r == response_from_bytes(b@),
{
    match read_response(b) {
        Some((x, n)) => {
            if n == b.len() {
                Some(x)
            } else {
                None
            }
        },
        None => None,
    }
}

/// The id of a request whose command has a variant index that no command
/// has: the envelope and the start of the command are well formed, the rest
/// is not read.
pub open spec fn unknown_command_id(s: Seq<u8>) -> Option<u32> {
    match parse_head(s, MAJOR_ARRAY) {
        Some((two, n1)) => if two != 2 {
            None
        } else {
            let s1 = s.subrange(n1, s.len() as int);
            match parse_head(s1, MAJOR_UINT) {
                Some((id, n2)) => if id > 0xffff_ffff {
                    None
                } else {
                    let s2 = s1.subrange(n2, s1.len() as int);
                    match parse_head(s2, MAJOR_ARRAY) {
                        Some((two2, n3)) => if two2 != 2 {
                            None
                        } else {
                            match parse_head(s2.subrange(n3, s2.len() as int), MAJOR_UINT) {
                                Some((tag, n4)) => if host_schema(tag) is None {
                                    Some(id as u32)
                                } else {
                                    None
                                },
                                None => None,
                            }
                        },
                        None => None,
                    }
                },
                None => None,
            }
        },
        None => None,
    }
}

/// A frame that names an unknown command holds no request.
pub proof fn lemma_unknown_command_is_no_request(s: Seq<u8>)
    requires
        unknown_command_id(s) is Some,
    ensures
        request_from_bytes(s) is None,
{
}

/// The id of a request whose command is unknown to this codec; see
/// `unknown_command_id`.
pub fn peek_unknown_command(b: &[u8]) -> (r: Option<u32>)
    ensures
        r == unknown_command_id(b@),
{
    proof {
        assert(b@.subrange(0, b@.len() as int) =~= b@);
    }
    let (two, end1) = match read_head(b, 0, MAJOR_ARRAY) {
        Some(x) => x,
        None => return None,
    };
    if two != 2 {
        return None;
    }
    proof {
        lemma_sub(b@, 0, end1 as int);
    }
    let (id, end2) = match read_head(b, end1, MAJOR_UINT) {
        Some(x) => x,
        None => return None,
    };
    if id > 0xffff_ffff {
        return None;
    }
    proof {
        lemma_sub(b@, end1 as int, end2 - end1);
    }
    let (two2, end3) = match read_head(b, end2, MAJOR_ARRAY) {
        Some(x) => x,
        None => return None,
    };
    if two2 != 2 {
        return None;
    }
    proof {
        lemma_sub(b@, end2 as int, end3 - end2);
    }
    let (tag, end4) = match read_head(b, end3, MAJOR_UINT) {
        Some(x) => x,
        None => return None,
    };
    if host_schema_exec(tag).is_none() {
        Some(id as u32)
    } else {
        None
    }
}

} // verus!
