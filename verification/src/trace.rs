//! The frame decoder: from an untyped step array to a typed frame tree.
//!
//! A traced execution arrives as an array of step objects
//! `{name, args, outs, startInk, endInk}`, with outgoing calls carrying a
//! nested `info` object that holds the callee address and the callee's own
//! step array.  [`TraceFrame::parse_frame`] turns that value into a
//! [`TraceFrame`], descending into nested call frames, and is proved exact
//! against [`parse_frame_spec`], the mathematical decoder over value
//! models: both return the same frame on the same input, and the same
//! error on the same malformed input.

use vstd::prelude::*;
use vstd::string::StrSliceExecFns;

use crate::bytes::{be_nat, be_u16, be_u32, be_u64, lemma_be_nat_bound};
use crate::error::{DecodeError, DecodeErrorModel, FieldName};
use crate::value::{
    fields_model, get_field, lemma_lookup_smaller, lookup_field, string_eq, TraceValue, ValueModel,
};

verus! {

/// One contract invocation: its host operations in emission order, and the
/// invoked contract's address (absent only for a contract-creation root).
#[derive(Debug, PartialEq)]
pub struct TraceFrame {
    pub address: Option<Vec<u8>>,
    pub steps: Vec<Hostio>,
}

/// One host operation with the resource-metric samples taken around it.
#[derive(Debug, PartialEq)]
pub struct Hostio {
    pub kind: HostioKind,
    pub start_ink: u64,
    pub end_ink: u64,
}

/// The closed set of host operations a trace can record.
///
/// Addresses are 20 bytes and words 32 bytes, big-endian, as the
/// well-formedness predicate [`KindModel::wf`] states.
#[derive(Debug, PartialEq)]
pub enum HostioKind {
    /// Calldata delivered to the contract.
    ReadArgs { args: Vec<u8> },
    /// Return data produced by the contract.
    WriteResult { result: Vec<u8> },
    /// The attached value, one 32-byte word.
    MsgValue { value: Vec<u8> },
    /// A memory growth request, in pages.
    MemoryGrow { pages: u16 },
    /// A self-address query.
    ContractAddress { address: Vec<u8> },
    /// An outgoing call, carrying the callee's entire nested frame.
    CallContract {
        address: Vec<u8>,
        data: Vec<u8>,
        gas: u64,
        value: Vec<u8>,
        outs_len: u32,
        status: u8,
        frame: TraceFrame,
    },
    /// Lifecycle marker: the entrypoint was entered.
    UserEntrypoint,
    /// Lifecycle marker: the entrypoint returned.
    UserReturned,
}

/// Mathematical image of a [`TraceFrame`].
pub struct FrameModel {
    pub address: Option<Seq<u8>>,
    pub steps: Seq<HostioModel>,
}

/// Mathematical image of a [`Hostio`].
pub struct HostioModel {
    pub kind: KindModel,
    pub start_ink: u64,
    pub end_ink: u64,
}

/// Mathematical image of a [`HostioKind`].
pub enum KindModel {
    ReadArgs { args: Seq<u8> },
    WriteResult { result: Seq<u8> },
    MsgValue { value: Seq<u8> },
    MemoryGrow { pages: u16 },
    ContractAddress { address: Seq<u8> },
    CallContract {
        address: Seq<u8>,
        data: Seq<u8>,
        gas: u64,
        value: Seq<u8>,
        outs_len: u32,
        status: u8,
        frame: FrameModel,
    },
    UserEntrypoint,
    UserReturned,
}

/// The mathematical image of a frame.
pub open spec fn frame_model(f: TraceFrame) -> FrameModel
    decreases f, 1int,
{
    FrameModel {
        address: match f.address {
            Some(a) => Some(a@),
            None => None,
        },
        steps: Seq::new(
            f.steps@.len(),
            |i: int|
                if 0 <= i < f.steps@.len() {
                    hostio_model(f.steps@[i])
                } else {
                    HostioModel { kind: KindModel::UserEntrypoint, start_ink: 0, end_ink: 0 }
                },
        ),
    }
}

/// The mathematical image of a host operation.
pub open spec fn hostio_model(h: Hostio) -> HostioModel
    decreases h, 1int,
{
    HostioModel { kind: hostio_kind_model(h.kind), start_ink: h.start_ink, end_ink: h.end_ink }
}

/// The mathematical image of an operation kind.
pub open spec fn hostio_kind_model(k: HostioKind) -> KindModel
    decreases k, 2int,
{
    match k {
        HostioKind::ReadArgs { args } => KindModel::ReadArgs { args: args@ },
        HostioKind::WriteResult { result } => KindModel::WriteResult { result: result@ },
        HostioKind::MsgValue { value } => KindModel::MsgValue { value: value@ },
        HostioKind::MemoryGrow { pages } => KindModel::MemoryGrow { pages },
        HostioKind::ContractAddress { address } => KindModel::ContractAddress {
            address: address@,
        },
        HostioKind::CallContract { address, data, gas, value, outs_len, status, frame } => {
            KindModel::CallContract {
                address: address@,
                data: data@,
                gas,
                value: value@,
                outs_len,
                status,
                frame: frame_model(frame),
            }
        },
        HostioKind::UserEntrypoint => KindModel::UserEntrypoint,
        HostioKind::UserReturned => KindModel::UserReturned,
    }
}

impl View for TraceFrame {
    type V = FrameModel;

    open spec fn view(&self) -> FrameModel {
        frame_model(*self)
    }
}

impl View for Hostio {
    type V = HostioModel;

    open spec fn view(&self) -> HostioModel {
        hostio_model(*self)
    }
}

impl View for HostioKind {
    type V = KindModel;

    open spec fn view(&self) -> KindModel {
        hostio_kind_model(*self)
    }
}

/// The operation name a kind answers to, as the tracer spells it.
pub open spec fn kind_name(k: KindModel) -> Seq<char> {
    match k {
        KindModel::ReadArgs { .. } => "read_args"@,
        KindModel::WriteResult { .. } => "write_result"@,
        KindModel::MsgValue { .. } => "msg_value"@,
        KindModel::MemoryGrow { .. } => "memory_grow"@,
        KindModel::ContractAddress { .. } => "contract_address"@,
        KindModel::CallContract { .. } => "call_contract"@,
        KindModel::UserEntrypoint => "user_entrypoint"@,
        KindModel::UserReturned => "user_returned"@,
    }
}

impl HostioKind {
    /// The operation name this kind answers to.
    pub fn name(&self) -> (r: &'static str)
        ensures
            r@ == kind_name(self@),
    {
        match self {
            HostioKind::ReadArgs { .. } => "read_args",
            HostioKind::WriteResult { .. } => "write_result",
            HostioKind::MsgValue { .. } => "msg_value",
            HostioKind::MemoryGrow { .. } => "memory_grow",
            HostioKind::ContractAddress { .. } => "contract_address",
            HostioKind::CallContract { .. } => "call_contract",
            HostioKind::UserEntrypoint => "user_entrypoint",
            HostioKind::UserReturned => "user_returned",
        }
    }
}

impl KindModel {
    /// Shape constraints the decoder guarantees: addresses are 20 bytes,
    /// words 32, recursively through nested frames.
    pub open spec fn wf(self) -> bool
        decreases self,
    {
        match self {
            KindModel::MsgValue { value } => value.len() == 32,
            KindModel::ContractAddress { address } => address.len() == 20,
            KindModel::CallContract { address, value, frame, .. } => {
                address.len() == 20 && value.len() == 32 && frame.wf()
            },
            _ => true,
        }
    }
}

impl FrameModel {
    /// Shape constraints the decoder guarantees for a whole frame tree.
    pub open spec fn wf(self) -> bool
        decreases self,
    {
        &&& match self.address {
            Some(a) => a.len() == 20,
            None => true,
        }
        &&& forall|i: int|
            0 <= i < self.steps.len() ==> #[trigger] self.steps[i].kind.wf()
    }
}

// ------------------------------------------------------------------
// The mathematical decoder.
// ------------------------------------------------------------------

/// Whether an untyped value is a byte: an integer in `0..=255`.
pub open spec fn is_byte(v: ValueModel) -> bool {
    v matches ValueModel::Num { n } && n <= 255
}

/// The byte an element denotes (meaningful only where [`is_byte`] holds).
pub open spec fn byte_at(items: Seq<ValueModel>, i: int) -> u8 {
    match items[i] {
        ValueModel::Num { n } => n as u8,
        _ => 0,
    }
}

/// The byte run an all-bytes array denotes.
pub open spec fn bytes_seq(items: Seq<ValueModel>) -> Seq<u8> {
    Seq::new(items.len(), |i: int| byte_at(items, i))
}

/// The position of the first element that is not a byte, if any.
pub open spec fn first_non_byte(items: Seq<ValueModel>) -> Option<int>
    decreases items.len(),
{
    if items.len() == 0 {
        None
    } else if !is_byte(items[0]) {
        Some(0)
    } else {
        match first_non_byte(items.skip(1)) {
            None => None,
            Some(i) => Some(i + 1),
        }
    }
}

/// The number the offending element held, when it held one at all.
pub open spec fn byte_err_val(items: Seq<ValueModel>, i: int) -> Option<u64> {
    match items[i] {
        ValueModel::Num { n } => Some(n),
        _ => None,
    }
}

/// Decode an untyped array as a byte run; fails on the first non-byte.
pub open spec fn decode_bytes(items: Seq<ValueModel>, field: FieldName) -> Result<
    Seq<u8>,
    DecodeErrorModel,
> {
    match first_non_byte(items) {
        Some(i) => Err(
            DecodeErrorModel::NotAByte { field, index: i, value: byte_err_val(items, i) },
        ),
        None => Ok(bytes_seq(items)),
    }
}

/// `first_non_byte` finds exactly the first offender.
pub proof fn lemma_first_non_byte(items: Seq<ValueModel>)
    ensures
        match first_non_byte(items) {
            None => forall|j: int| 0 <= j < items.len() ==> is_byte(#[trigger] items[j]),
            Some(i) => 0 <= i < items.len() && !is_byte(items[i]) && forall|j: int|
                0 <= j < i ==> is_byte(#[trigger] items[j]),
        },
    decreases items.len(),
{
    if items.len() > 0 && is_byte(items[0]) {
        let s = items.skip(1);
        lemma_first_non_byte(s);
        assert(forall|j: int| 0 <= j < s.len() ==> #[trigger] s[j] == items[j + 1]);
        match first_non_byte(s) {
            None => {
                assert forall|j: int| 0 <= j < items.len() implies is_byte(
                    #[trigger] items[j],
                ) by {
                    if j > 0 {
                        assert(is_byte(s[j - 1]));
                    }
                }
            },
            Some(i) => {
                assert(!is_byte(s[i]));
                assert forall|j: int| 0 <= j < i + 1 implies is_byte(#[trigger] items[j]) by {
                    if j > 0 {
                        assert(is_byte(s[j - 1]));
                    }
                }
            },
        }
    }
}

/// Decimal parse of an address-mapping key, as unsigned byte parsing
/// accepts it: an optional leading `+`, then digits, value at most 255.
pub open spec fn parse_dec_u8(s: Seq<char>) -> Option<u8> {
    let t = if s.len() > 0 && s[0] == '+' {
        s.skip(1)
    } else {
        s
    };
    if t.len() > 0 && all_digits(t) && dec_val(t) <= 255 {
        Some(dec_val(t) as u8)
    } else {
        None
    }
}

/// Whether every character is a decimal digit.
pub open spec fn all_digits(t: Seq<char>) -> bool {
    forall|i: int| 0 <= i < t.len() ==> is_digit(#[trigger] t[i])
}

/// Whether a character is a decimal digit.
pub open spec fn is_digit(c: char) -> bool {
    48 <= c as u32 <= 57
}

/// The number a digit string denotes.
pub open spec fn dec_val(t: Seq<char>) -> nat
    decreases t.len(),
{
    if t.len() == 0 {
        0
    } else {
        dec_val(t.drop_last()) * 10 + (if is_digit(t.last()) {
            (t.last() as u32 - 48) as nat
        } else {
            0
        })
    }
}

/// The byte index a pair's key names, if the key parses.
pub open spec fn key_int(s: Seq<char>) -> Option<int> {
    match parse_dec_u8(s) {
        Some(k) => Some(k as int),
        None => None,
    }
}

/// Whether the `i`-th pair of the address mapping is unusable for key
/// reasons: its key does not parse, is out of range for the mapping's
/// size, or repeats an earlier pair's key.
pub open spec fn addr_key_bad(fields: Seq<(Seq<char>, ValueModel)>, i: int) -> bool {
    !match key_int(fields[i].0) {
        Some(k) => k < fields.len() && !(exists|j: int|
            0 <= j < i && key_int(#[trigger] fields[j].0) == Some(k)),
        None => false,
    }
}

/// Whether the `i`-th pair is unusable at all: bad key, or a value that
/// is not a byte.
pub open spec fn addr_pair_bad(fields: Seq<(Seq<char>, ValueModel)>, i: int) -> bool {
    addr_key_bad(fields, i) || !is_byte(fields[i].1)
}

/// The first unusable pair among the first `n`, if any.
pub open spec fn first_bad_pair(fields: Seq<(Seq<char>, ValueModel)>, n: int) -> Option<int>
    decreases n,
{
    if n <= 0 || n > fields.len() {
        None
    } else {
        match first_bad_pair(fields, n - 1) {
            Some(i) => Some(i),
            None => if addr_pair_bad(fields, n - 1) {
                Some(n - 1)
            } else {
                None
            },
        }
    }
}

/// Whether some pair's key names byte index `k`.
pub open spec fn addr_has_key(fields: Seq<(Seq<char>, ValueModel)>, k: int) -> bool {
    exists|j: int| 0 <= j < fields.len() && key_int(#[trigger] fields[j].0) == Some(k)
}

/// The smallest byte index no pair supplies, if any.
pub open spec fn first_missing_key(fields: Seq<(Seq<char>, ValueModel)>, n: int) -> Option<int>
    decreases n,
{
    if n <= 0 || n > fields.len() {
        None
    } else {
        match first_missing_key(fields, n - 1) {
            Some(i) => Some(i),
            None => if !addr_has_key(fields, n - 1) {
                Some(n - 1)
            } else {
                None
            },
        }
    }
}

/// The byte supplied for index `k` (meaningful where a unique pair names
/// `k` and its value is a byte).
pub open spec fn addr_byte(fields: Seq<(Seq<char>, ValueModel)>, k: int) -> u8 {
    let j = choose|j: int|
        0 <= j < fields.len() && key_int(#[trigger] fields[j].0) == Some(k);
    match fields[j].1 {
        ValueModel::Num { n } => n as u8,
        _ => 0,
    }
}

/// Decode the callee address mapping: keys must be the decimal indices
/// `0..n`, each exactly once, values bytes; the result is the byte run in
/// key order.
pub open spec fn decode_addr(fields: Seq<(Seq<char>, ValueModel)>) -> Result<
    Seq<u8>,
    DecodeErrorModel,
> {
    match first_bad_pair(fields, fields.len() as int) {
        Some(i) => if addr_key_bad(fields, i) {
            Err(DecodeErrorModel::BadAddressKey { index: i })
        } else {
            Err(
                DecodeErrorModel::NotAByte {
                    field: FieldName::Address,
                    index: i,
                    value: match fields[i].1 {
                        ValueModel::Num { n } => Some(n),
                        _ => None,
                    },
                },
            )
        },
        None => match first_missing_key(fields, fields.len() as int) {
            Some(k) => Err(DecodeErrorModel::BadAddressKey { index: k }),
            None => Ok(Seq::new(fields.len(), |k: int| addr_byte(fields, k))),
        },
    }
}

/// What decoding one step record yields.
pub enum DecodedStep {
    /// A retained host operation.
    Keep { h: HostioModel },
    /// A recognized lifecycle marker, decoded but dropped.
    Skip,
    /// A fatal decode failure.
    Fail { e: DecodeErrorModel },
}

/// Decode one step record.
pub open spec fn decode_step(v: ValueModel) -> DecodedStep
    decreases v, 1int,
{
    match v {
        ValueModel::Obj { fields } => match lookup_field(fields, "name"@) {
            None => DecodedStep::Fail { e: DecodeErrorModel::MissingField { field: FieldName::Name } },
            Some(nv) => match nv {
                ValueModel::Str { s: name } => match lookup_field(fields, "args"@) {
                    None => DecodedStep::Fail {
                        e: DecodeErrorModel::MissingField { field: FieldName::Args },
                    },
                    Some(av) => match av {
                        ValueModel::Arr { items: args } => match lookup_field(fields, "outs"@) {
                            None => DecodedStep::Fail {
                                e: DecodeErrorModel::MissingField { field: FieldName::Outs },
                            },
                            Some(ov) => match ov {
                                ValueModel::Arr { items: outs } => match lookup_field(
                                    fields,
                                    "startInk"@,
                                ) {
                                    None => DecodedStep::Fail {
                                        e: DecodeErrorModel::MissingField {
                                            field: FieldName::StartInk,
                                        },
                                    },
                                    Some(sv) => match sv {
                                        ValueModel::Num { n: start_ink } => match lookup_field(
                                            fields,
                                            "endInk"@,
                                        ) {
                                            None => DecodedStep::Fail {
                                                e: DecodeErrorModel::MissingField {
                                                    field: FieldName::EndInk,
                                                },
                                            },
                                            Some(ev) => match ev {
                                                ValueModel::Num { n: end_ink } => decode_kind(
                                                    fields,
                                                    name,
                                                    args,
                                                    outs,
                                                    start_ink,
                                                    end_ink,
                                                ),
                                                _ => DecodedStep::Fail {
                                                    e: DecodeErrorModel::WrongFieldType {
                                                        field: FieldName::EndInk,
                                                    },
                                                },
                                            },
                                        },
                                        _ => DecodedStep::Fail {
                                            e: DecodeErrorModel::WrongFieldType {
                                                field: FieldName::StartInk,
                                            },
                                        },
                                    },
                                },
                                _ => DecodedStep::Fail {
                                    e: DecodeErrorModel::WrongFieldType { field: FieldName::Outs },
                                },
                            },
                        },
                        _ => DecodedStep::Fail {
                            e: DecodeErrorModel::WrongFieldType { field: FieldName::Args },
                        },
                    },
                },
                _ => DecodedStep::Fail {
                    e: DecodeErrorModel::WrongFieldType { field: FieldName::Name },
                },
            },
        },
        _ => DecodedStep::Fail { e: DecodeErrorModel::NotAStep },
    }
}

/// Dispatch on the operation name and decode the fixed-offset payload.
///
/// The whole pair list rides along: the nested-frame recursion for an
/// outgoing call descends through it, which is what termination is
/// measured by.
pub open spec fn decode_kind(
    fields: Seq<(Seq<char>, ValueModel)>,
    name: Seq<char>,
    args: Seq<ValueModel>,
    outs: Seq<ValueModel>,
    start_ink: u64,
    end_ink: u64,
) -> DecodedStep
    decreases fields, 1int,
{
    if name == "read_args"@ {
        match decode_bytes(outs, FieldName::Outs) {
            Err(e) => DecodedStep::Fail { e },
            Ok(b) => keep(KindModel::ReadArgs { args: b }, start_ink, end_ink),
        }
    } else if name == "write_result"@ {
        match decode_bytes(args, FieldName::Args) {
            Err(e) => DecodedStep::Fail { e },
            Ok(b) => keep(KindModel::WriteResult { result: b }, start_ink, end_ink),
        }
    } else if name == "msg_value"@ {
        match decode_bytes(outs, FieldName::Outs) {
            Err(e) => DecodedStep::Fail { e },
            Ok(b) => if b.len() != 32 {
                fail_len(FieldName::Outs, 32, b.len() as int)
            } else {
                keep(KindModel::MsgValue { value: b }, start_ink, end_ink)
            },
        }
    } else if name == "memory_grow"@ {
        match decode_bytes(args, FieldName::Args) {
            Err(e) => DecodedStep::Fail { e },
            Ok(b) => if b.len() != 2 {
                fail_len(FieldName::Args, 2, b.len() as int)
            } else {
                keep(KindModel::MemoryGrow { pages: be_nat(b) as u16 }, start_ink, end_ink)
            },
        }
    } else if name == "contract_address"@ {
        match decode_bytes(outs, FieldName::Outs) {
            Err(e) => DecodedStep::Fail { e },
            Ok(b) => if b.len() != 20 {
                fail_len(FieldName::Outs, 20, b.len() as int)
            } else {
                keep(KindModel::ContractAddress { address: b }, start_ink, end_ink)
            },
        }
    } else if name == "call_contract"@ {
        decode_call(fields, args, outs, start_ink, end_ink)
    } else if name == "user_entrypoint"@ || name == "user_returned"@ {
        DecodedStep::Skip
    } else {
        DecodedStep::Fail { e: DecodeErrorModel::UnsupportedHostio { name } }
    }
}

/// A kept operation.
pub open spec fn keep(kind: KindModel, start_ink: u64, end_ink: u64) -> DecodedStep {
    DecodedStep::Keep { h: HostioModel { kind, start_ink, end_ink } }
}

/// A wrong-length failure.
pub open spec fn fail_len(field: FieldName, expected: int, actual: int) -> DecodedStep {
    DecodedStep::Fail { e: DecodeErrorModel::WrongLength { field, expected, actual } }
}

/// Decode an outgoing call: fixed-offset payload, callee address mapping,
/// and the callee's nested frame.
pub open spec fn decode_call(
    fields: Seq<(Seq<char>, ValueModel)>,
    args: Seq<ValueModel>,
    outs: Seq<ValueModel>,
    start_ink: u64,
    end_ink: u64,
) -> DecodedStep
    decreases fields, 0int,
{
    match decode_bytes(args, FieldName::Args) {
        Err(e) => DecodedStep::Fail { e },
        Ok(ab) => if ab.len() < 60 {
            fail_len(FieldName::Args, 60, ab.len() as int)
        } else {
            match decode_bytes(outs, FieldName::Outs) {
                Err(e) => DecodedStep::Fail { e },
                Ok(ob) => if ob.len() != 5 {
                    fail_len(FieldName::Outs, 5, ob.len() as int)
                } else {
                    match lookup_field(fields, "info"@) {
                        None => DecodedStep::Fail {
                            e: DecodeErrorModel::MissingField { field: FieldName::Info },
                        },
                        Some(iv) => match iv {
                            ValueModel::Obj { fields: ifields } => match lookup_field(
                                ifields,
                                "address"@,
                            ) {
                                None => DecodedStep::Fail {
                                    e: DecodeErrorModel::MissingField { field: FieldName::Address },
                                },
                                Some(adv) => match adv {
                                    ValueModel::Obj { fields: afields } => match decode_addr(
                                        afields,
                                    ) {
                                        Err(e) => DecodedStep::Fail { e },
                                        Ok(addr) => if addr.len() != 20 {
                                            fail_len(FieldName::Address, 20, addr.len() as int)
                                        } else {
                                            match lookup_field(ifields, "steps"@) {
                                                None => DecodedStep::Fail {
                                                    e: DecodeErrorModel::MissingField {
                                                        field: FieldName::Steps,
                                                    },
                                                },
                                                Some(sv) => {
                                                    proof {
                                                        lemma_lookup_smaller(fields, "info"@);
                                                        assert(decreases_to!(fields => iv));
                                                        assert(decreases_to!(iv => ifields));
                                                        lemma_lookup_smaller(ifields, "steps"@);
                                                        assert(decreases_to!(ifields => sv));
                                                        assert(decreases_to!(fields => sv));
                                                    }
                                                    match parse_frame_spec(Some(addr), sv) {
                                                        Err(e) => DecodedStep::Fail { e },
                                                        Ok(frame) => keep(
                                                            KindModel::CallContract {
                                                                address: ab.subrange(0, 20),
                                                                gas: be_nat(
                                                                    ab.subrange(20, 28),
                                                                ) as u64,
                                                                value: ab.subrange(28, 60),
                                                                data: ab.subrange(
                                                                    60,
                                                                    ab.len() as int,
                                                                ),
                                                                outs_len: be_nat(
                                                                    ob.subrange(0, 4),
                                                                ) as u32,
                                                                status: ob[4],
                                                                frame,
                                                            },
                                                            start_ink,
                                                            end_ink,
                                                        ),
                                                    }
                                                },
                                            }
                                        },
                                    },
                                    _ => DecodedStep::Fail {
                                        e: DecodeErrorModel::WrongFieldType {
                                            field: FieldName::Address,
                                        },
                                    },
                                },
                            },
                            _ => DecodedStep::Fail {
                                e: DecodeErrorModel::WrongFieldType { field: FieldName::Info },
                            },
                        },
                    }
                },
            }
        },
    }
}

/// Decode the first `n` records of a step array into the retained
/// operations, in emission order.
pub open spec fn decode_steps(items: Seq<ValueModel>, n: int) -> Result<
    Seq<HostioModel>,
    DecodeErrorModel,
>
    decreases items, n,
{
    if n <= 0 || n > items.len() {
        Ok(Seq::empty())
    } else {
        match decode_steps(items, n - 1) {
            Err(e) => Err(e),
            Ok(acc) => match decode_step(items[n - 1]) {
                DecodedStep::Fail { e } => Err(e),
                DecodedStep::Skip => Ok(acc),
                DecodedStep::Keep { h } => Ok(acc.push(h)),
            },
        }
    }
}

/// The mathematical frame decoder: a step array plus the originating
/// address yields a frame, or the first decode failure.
pub open spec fn parse_frame_spec(address: Option<Seq<u8>>, v: ValueModel) -> Result<
    FrameModel,
    DecodeErrorModel,
>
    decreases v, 2int,
{
    match v {
        ValueModel::Arr { items } => match decode_steps(items, items.len() as int) {
            Err(e) => Err(e),
            Ok(steps) => Ok(FrameModel { address, steps }),
        },
        _ => Err(DecodeErrorModel::NotAnArray),
    }
}


// ------------------------------------------------------------------
// The executable decoder, exact against the mathematical one.
// ------------------------------------------------------------------

/// The image of an array's element list.
pub open spec fn items_model(items: Seq<TraceValue>) -> Seq<ValueModel> {
    Seq::new(items.len(), |i: int| items[i]@)
}

/// The image of an optional owned address.
pub open spec fn addr_model(address: Option<Vec<u8>>) -> Option<Seq<u8>> {
    match address {
        Some(a) => Some(a@),
        None => None,
    }
}

/// The image of a decode result.
pub open spec fn frame_res_model(r: Result<TraceFrame, DecodeError>) -> Result<
    FrameModel,
    DecodeErrorModel,
> {
    match r {
        Ok(f) => Ok(f@),
        Err(e) => Err(e@),
    }
}

/// Convert an untyped array into the byte run it denotes, exact against
/// [`decode_bytes`].
fn to_bytes(items: &Vec<TraceValue>, field: FieldName) -> (r: Result<Vec<u8>, DecodeError>)
    ensures
        match r {
            Ok(b) => decode_bytes(items_model(items@), field) == Ok::<_, DecodeErrorModel>(b@),
            Err(e) => decode_bytes(items_model(items@), field) == Err::<Seq<u8>, _>(e@),
        },
{
    let ghost m = items_model(items@);
    let mut out: Vec<u8> = Vec::new();
    let mut i: usize = 0;
    while i < items.len()
        invariant
            0 <= i <= items@.len(),
            m == items_model(items@),
            out@.len() == i,
            forall|j: int| 0 <= j < i ==> is_byte(#[trigger] m[j]),
            forall|j: int| 0 <= j < i ==> out@[j] == byte_at(m, j),
        decreases items@.len() - i,
    {
        proof {
            assert(m[i as int] == items@[i as int]@);
        }
        match &items[i] {
            TraceValue::Num { n } => {
                if *n <= 255 {
                    out.push(*n as u8);
                } else {
                    proof {
                        lemma_first_non_byte(m);
                    }
                    return Err(DecodeError::NotAByte { field, index: i, value: Some(*n) });
                }
            },
            _ => {
                proof {
                    lemma_first_non_byte(m);
                }
                return Err(DecodeError::NotAByte { field, index: i, value: None });
            },
        }
        i = i + 1;
    }
    proof {
        lemma_first_non_byte(m);
        assert(out@ =~= bytes_seq(m));
    }
    Ok(out)
}

/// The digits a prefix denotes never exceed what the whole string denotes.
proof fn lemma_dec_val_prefix(t: Seq<char>, k: int)
    requires
        0 <= k <= t.len(),
    ensures
        dec_val(t.take(k)) <= dec_val(t),
    decreases t.len() - k,
{
    if k < t.len() {
        assert(t.take(k + 1).drop_last() =~= t.take(k));
        assert(dec_val(t.take(k)) <= dec_val(t.take(k + 1)));
        lemma_dec_val_prefix(t, k + 1);
    } else {
        assert(t.take(k) =~= t);
    }
}

/// Decimal parse of an address-mapping key, exact against
/// [`parse_dec_u8`].
fn parse_key(s: &String) -> (r: Option<u8>)
    ensures
        r == parse_dec_u8(s@),
{
    let st = s.as_str();
    let len = st.unicode_len();
    let start: usize = if len > 0 && st.get_char(0) == '+' {
        1
    } else {
        0
    };
    let ghost t = if s@.len() > 0 && s@[0] == '+' {
        s@.skip(1)
    } else {
        s@
    };
    proof {
        assert(t.len() == len - start);
        assert(forall|j: int| 0 <= j < t.len() ==> #[trigger] t[j] == s@[j + start]);
    }
    if start >= len {
        return None;
    }
    let mut acc: u32 = 0;
    let mut i: usize = start;
    proof {
        assert(t.take(0) =~= Seq::<char>::empty());
    }
    while i < len
        invariant
            st@ == s@,
            start <= i <= len,
            start < len,
            len == s@.len(),
            start <= 1,
            t.len() == len - start,
            forall|j: int| 0 <= j < t.len() ==> #[trigger] t[j] == s@[j + start],
            t == (if s@.len() > 0 && s@[0] == '+' {
                s@.skip(1)
            } else {
                s@
            }),
            acc <= 255,
            forall|j: int| 0 <= j < i - start ==> is_digit(#[trigger] t[j]),
            acc as nat == dec_val(t.take(i - start)),
        decreases len - i,
    {
        let c = st.get_char(i);
        let d = c as u32;
        if d < 48 || d > 57 {
            proof {
                assert(!is_digit(t[i - start]));
            }
            return None;
        }
        proof {
            assert(t.take(i - start + 1).drop_last() =~= t.take(i - start));
            assert(t.take(i - start + 1).last() == t[i - start]);
        }
        acc = acc * 10 + (d - 48);
        if acc > 255 {
            proof {
                lemma_dec_val_prefix(t, i - start + 1);
            }
            return None;
        }
        i = i + 1;
    }
    proof {
        assert(t.take(t.len() as int) =~= t);
    }
    Some(acc as u8)
}

/// A found bad pair stays the first bad pair of every longer prefix.
proof fn lemma_first_bad_persists(fields: Seq<(Seq<char>, ValueModel)>, k: int, n: int)
    requires
        0 <= k <= n <= fields.len(),
        first_bad_pair(fields, k) is Some,
    ensures
        first_bad_pair(fields, n) == first_bad_pair(fields, k),
    decreases n - k,
{
    if k < n {
        assert(first_bad_pair(fields, k + 1) == first_bad_pair(fields, k));
        lemma_first_bad_persists(fields, k + 1, n);
    }
}

/// A found missing key stays the first missing key of every longer prefix.
proof fn lemma_first_missing_persists(fields: Seq<(Seq<char>, ValueModel)>, k: int, n: int)
    requires
        0 <= k <= n <= fields.len(),
        first_missing_key(fields, k) is Some,
    ensures
        first_missing_key(fields, n) == first_missing_key(fields, k),
    decreases n - k,
{
    if k < n {
        assert(first_missing_key(fields, k + 1) == first_missing_key(fields, k));
        lemma_first_missing_persists(fields, k + 1, n);
    }
}

/// The position of `k` in the key list, scanning from the front.
fn find_key(keys: &Vec<u8>, k: u8) -> (r: Option<usize>)
    ensures
        match r {
            Some(j) => 0 <= j < keys@.len() && keys@[j as int] == k,
            None => forall|j: int| 0 <= j < keys@.len() ==> #[trigger] keys@[j] != k,
        },
{
    let mut j: usize = 0;
    while j < keys.len()
        invariant
            0 <= j <= keys@.len(),
            forall|jj: int| 0 <= jj < j ==> #[trigger] keys@[jj] != k,
        decreases keys@.len() - j,
    {
        if keys[j] == k {
            return Some(j);
        }
        j = j + 1;
    }
    None
}

/// Decode the callee address mapping, exact against [`decode_addr`].
fn decode_address(afields: &Vec<(String, TraceValue)>) -> (r: Result<Vec<u8>, DecodeError>)
    ensures
        match r {
            Ok(b) => decode_addr(fields_model(afields@)) == Ok::<_, DecodeErrorModel>(b@),
            Err(e) => decode_addr(fields_model(afields@)) == Err::<Seq<u8>, _>(e@),
        },
{
    let ghost m = fields_model(afields@);
    let n = afields.len();
    let mut keys: Vec<u8> = Vec::new();
    let mut i: usize = 0;
    while i < n
        invariant
            0 <= i <= n,
            n == afields@.len(),
            m == fields_model(afields@),
            keys@.len() == i,
            forall|j: int| 0 <= j < i ==> key_int(m[j].0) == Some(#[trigger] keys@[j] as int),
            forall|j: int| 0 <= j < i ==> !addr_pair_bad(m, j),
            first_bad_pair(m, i as int) == None::<int>,
        decreases n - i,
    {
        proof {
            assert(m[i as int] == (afields@[i as int].0@, afields@[i as int].1@));
        }
        let parsed = parse_key(&afields[i].0);
        match parsed {
            None => {
                proof {
                    assert(addr_key_bad(m, i as int));
                    assert(first_bad_pair(m, i as int + 1) == Some(i as int));
                    lemma_first_bad_persists(m, i as int + 1, n as int);
                }
                return Err(DecodeError::BadAddressKey { index: i });
            },
            Some(k) => {
                if (k as usize) >= n {
                    proof {
                        assert(addr_key_bad(m, i as int));
                        assert(first_bad_pair(m, i as int + 1) == Some(i as int));
                        lemma_first_bad_persists(m, i as int + 1, n as int);
                    }
                    return Err(DecodeError::BadAddressKey { index: i });
                }
                match find_key(&keys, k) {
                    Some(j0) => {
                        proof {
                            assert(key_int(m[j0 as int].0) == Some(k as int));
                            assert(addr_key_bad(m, i as int));
                            assert(first_bad_pair(m, i as int + 1) == Some(i as int));
                            lemma_first_bad_persists(m, i as int + 1, n as int);
                        }
                        return Err(DecodeError::BadAddressKey { index: i });
                    },
                    None => {},
                }
                match &afields[i].1 {
                    TraceValue::Num { n: v } => {
                        if *v <= 255 {
                            proof {
                                assert forall|j: int| 0 <= j < i implies key_int(
                                    #[trigger] m[j].0,
                                ) != Some(k as int) by {
                                    assert(keys@[j] != k);
                                }
                                assert(!addr_key_bad(m, i as int));
                                assert(is_byte(m[i as int].1));
                                assert(!addr_pair_bad(m, i as int));
                                assert(first_bad_pair(m, i as int + 1) == None::<int>);
                            }
                            keys.push(k);
                        } else {
                            proof {
                                assert forall|j: int| 0 <= j < i implies key_int(
                                    #[trigger] m[j].0,
                                ) != Some(k as int) by {
                                    assert(keys@[j] != k);
                                }
                                assert(!addr_key_bad(m, i as int));
                                assert(!is_byte(m[i as int].1));
                                assert(first_bad_pair(m, i as int + 1) == Some(i as int));
                                lemma_first_bad_persists(m, i as int + 1, n as int);
                            }
                            return Err(
                                DecodeError::NotAByte {
                                    field: FieldName::Address,
                                    index: i,
                                    value: Some(*v),
                                },
                            );
                        }
                    },
                    _ => {
                        proof {
                            assert forall|j: int| 0 <= j < i implies key_int(
                                #[trigger] m[j].0,
                            ) != Some(k as int) by {
                                assert(keys@[j] != k);
                            }
                            assert(!addr_key_bad(m, i as int));
                            assert(!is_byte(m[i as int].1));
                            assert(first_bad_pair(m, i as int + 1) == Some(i as int));
                            lemma_first_bad_persists(m, i as int + 1, n as int);
                        }
                        return Err(
                            DecodeError::NotAByte { field: FieldName::Address, index: i, value: None },
                        );
                    },
                }
            },
        }
        i = i + 1;
    }
    let mut out: Vec<u8> = Vec::new();
    let mut k: usize = 0;
    while k < n
        invariant
            0 <= k <= n,
            n == afields@.len(),
            m == fields_model(afields@),
            keys@.len() == n,
            forall|j: int| 0 <= j < n ==> key_int(m[j].0) == Some(#[trigger] keys@[j] as int),
            forall|j: int| 0 <= j < n ==> !addr_pair_bad(m, j),
            first_bad_pair(m, n as int) == None::<int>,
            first_missing_key(m, k as int) == None::<int>,
            out@.len() == k,
            forall|kk: int| 0 <= kk < k ==> out@[kk] == addr_byte(m, kk),
        decreases n - k,
    {
        let slot = if k <= 255 {
            find_key(&keys, k as u8)
        } else {
            None
        };
        match slot {
            None => {
                proof {
                    assert forall|j: int| 0 <= j < n implies key_int(#[trigger] m[j].0) != Some(
                        k as int,
                    ) by {
                        if k <= 255 {
                            assert(keys@[j] != k as u8);
                        } else {
                            assert(keys@[j] as int <= 255);
                        }
                    }
                    assert(!addr_has_key(m, k as int));
                    assert(first_missing_key(m, k as int + 1) == Some(k as int));
                    lemma_first_missing_persists(m, k as int + 1, n as int);
                }
                return Err(DecodeError::BadAddressKey { index: k });
            },
            Some(j) => {
                proof {
                    assert(keys@[j as int] == k as u8 && k <= 255);
                    assert(key_int(m[j as int].0) == Some(k as int));
                    assert(!addr_pair_bad(m, j as int));
                    assert(is_byte(m[j as int].1));
                    assert(m[j as int].1 == afields@[j as int].1@);
                }
                match &afields[j].1 {
                    TraceValue::Num { n: v } => {
                        out.push(*v as u8);
                        proof {
                            assert(addr_has_key(m, k as int));
                            let jj = choose|jj: int|
                                0 <= jj < m.len() && key_int(#[trigger] m[jj].0) == Some(k as int);
                            if jj != j as int {
                                let hi = if jj < j as int {
                                    j as int
                                } else {
                                    jj
                                };
                                assert(addr_key_bad(m, hi));
                                assert(addr_pair_bad(m, hi));
                                assert(false);
                            }
                            assert(out@[k as int] == addr_byte(m, k as int));
                        }
                    },
                    other => {
                        proof {
                            assert(!(other matches TraceValue::Num { .. }));
                            assert(m[j as int].1 matches ValueModel::Num { .. });
                            assert(other@ == afields@[j as int].1@);
                            assert(false);
                        }
                    },
                }
                proof {
                    assert(addr_has_key(m, k as int));
                    assert(first_missing_key(m, k as int + 1) == None::<int>);
                }
            },
        }
        k = k + 1;
    }
    proof {
        assert(out@ =~= Seq::new(m.len(), |kk: int| addr_byte(m, kk)));
    }
    Ok(out)
}


/// The image of a step list.
pub open spec fn steps_model(steps: Seq<Hostio>) -> Seq<HostioModel> {
    Seq::new(steps.len(), |i: int| steps[i]@)
}

/// A decode failure among the first `k` records decides every longer
/// prefix the same way.
proof fn lemma_decode_steps_err_persists(items: Seq<ValueModel>, k: int, n: int)
    requires
        0 <= k <= n <= items.len(),
        decode_steps(items, k) is Err,
    ensures
        decode_steps(items, n) == decode_steps(items, k),
    decreases n - k,
{
    if k < n {
        assert(decode_steps(items, k + 1) == decode_steps(items, k));
        lemma_decode_steps_err_persists(items, k + 1, n);
    }
}

/// Copy out `v[from..to]`.
fn sub_bytes(v: &Vec<u8>, from: usize, to: usize) -> (r: Vec<u8>)
    requires
        from <= to <= v@.len(),
    ensures
        r@ == v@.subrange(from as int, to as int),
{
    let mut out: Vec<u8> = Vec::new();
    let mut i: usize = from;
    while i < to
        invariant
            from <= i <= to <= v@.len(),
            out@ =~= v@.subrange(from as int, i as int),
        decreases to - i,
    {
        out.push(v[i]);
        proof {
            assert(out@ =~= v@.subrange(from as int, i as int + 1));
        }
        i = i + 1;
    }
    proof {
        assert(out@ =~= v@.subrange(from as int, to as int));
    }
    out
}

/// A required string field.
fn want_str<'a>(fields: &'a Vec<(String, TraceValue)>, key: &str, field: FieldName) -> (r: Result<
    &'a String,
    DecodeError,
>)
    ensures
        match r {
            Ok(s) => lookup_field(fields_model(fields@), key@) == Some(ValueModel::Str { s: s@ }),
            Err(e) => match lookup_field(fields_model(fields@), key@) {
                None => e@ == (DecodeErrorModel::MissingField { field }),
                Some(x) => !(x matches ValueModel::Str { .. }) && e@ == (
                DecodeErrorModel::WrongFieldType { field }),
            },
        },
{
    match get_field(fields, key) {
        None => Err(DecodeError::MissingField { field }),
        Some(x) => match x {
            TraceValue::Str { s } => Ok(s),
            _ => Err(DecodeError::WrongFieldType { field }),
        },
    }
}

/// A required array field.
fn want_arr<'a>(fields: &'a Vec<(String, TraceValue)>, key: &str, field: FieldName) -> (r: Result<
    &'a Vec<TraceValue>,
    DecodeError,
>)
    ensures
        match r {
            Ok(items) => lookup_field(fields_model(fields@), key@) == Some(
                ValueModel::Arr { items: items_model(items@) },
            ),
            Err(e) => match lookup_field(fields_model(fields@), key@) {
                None => e@ == (DecodeErrorModel::MissingField { field }),
                Some(x) => !(x matches ValueModel::Arr { .. }) && e@ == (
                DecodeErrorModel::WrongFieldType { field }),
            },
        },
{
    match get_field(fields, key) {
        None => Err(DecodeError::MissingField { field }),
        Some(x) => match x {
            TraceValue::Arr { items } => {
                proof {
                    match x@ {
                        ValueModel::Arr { items: s } => {
                            assert(s =~= items_model(items@));
                        },
                        _ => {
                            assert(false);
                        },
                    }
                }
                Ok(items)
            },
            _ => Err(DecodeError::WrongFieldType { field }),
        },
    }
}

/// A required integer field.
fn want_num(fields: &Vec<(String, TraceValue)>, key: &str, field: FieldName) -> (r: Result<
    u64,
    DecodeError,
>)
    ensures
        match r {
            Ok(n) => lookup_field(fields_model(fields@), key@) == Some(ValueModel::Num { n }),
            Err(e) => match lookup_field(fields_model(fields@), key@) {
                None => e@ == (DecodeErrorModel::MissingField { field }),
                Some(x) => !(x matches ValueModel::Num { .. }) && e@ == (
                DecodeErrorModel::WrongFieldType { field }),
            },
        },
{
    match get_field(fields, key) {
        None => Err(DecodeError::MissingField { field }),
        Some(x) => match x {
            TraceValue::Num { n } => Ok(*n),
            _ => Err(DecodeError::WrongFieldType { field }),
        },
    }
}

/// Decode one step record, exact against [`decode_step`]: a retained
/// operation, a dropped lifecycle marker, or the failure the record
/// deserves.
fn decode_one(v: &TraceValue) -> (r: Result<Option<Hostio>, DecodeError>)
    ensures
        match r {
            Ok(Some(h)) => decode_step(v@) == (DecodedStep::Keep { h: h@ }),
            Ok(None) => decode_step(v@) == DecodedStep::Skip,
            Err(e) => decode_step(v@) == (DecodedStep::Fail { e: e@ }),
        },
    decreases v, 1int,
{
    let fields = match v {
        TraceValue::Obj { fields } => fields,
        _ => {
            return Err(DecodeError::NotAStep);
        },
    };
    let ghost fm = fields_model(fields@);
    proof {
        match v@ {
            ValueModel::Obj { fields: s } => {
                assert(s =~= fm);
            },
            _ => {
                assert(false);
            },
        }
        assert(v@ == (ValueModel::Obj { fields: fm }));
    }
    let name = match want_str(fields, "name", FieldName::Name) {
        Ok(s) => s,
        Err(e) => {
            return Err(e);
        },
    };
    let args = match want_arr(fields, "args", FieldName::Args) {
        Ok(x) => x,
        Err(e) => {
            return Err(e);
        },
    };
    let outs = match want_arr(fields, "outs", FieldName::Outs) {
        Ok(x) => x,
        Err(e) => {
            return Err(e);
        },
    };
    let start_ink = match want_num(fields, "startInk", FieldName::StartInk) {
        Ok(x) => x,
        Err(e) => {
            return Err(e);
        },
    };
    let end_ink = match want_num(fields, "endInk", FieldName::EndInk) {
        Ok(x) => x,
        Err(e) => {
            return Err(e);
        },
    };
    let ghost am = items_model(args@);
    let ghost om = items_model(outs@);
    proof {
        assert(decode_step(v@) == decode_kind(fm, name@, am, om, start_ink, end_ink));
    }
    if string_eq(name, "read_args") {
        match to_bytes(outs, FieldName::Outs) {
            Err(e) => Err(e),
            Ok(b) => Ok(
                Some(Hostio { kind: HostioKind::ReadArgs { args: b }, start_ink, end_ink }),
            ),
        }
    } else if string_eq(name, "write_result") {
        match to_bytes(args, FieldName::Args) {
            Err(e) => Err(e),
            Ok(b) => Ok(
                Some(Hostio { kind: HostioKind::WriteResult { result: b }, start_ink, end_ink }),
            ),
        }
    } else if string_eq(name, "msg_value") {
        match to_bytes(outs, FieldName::Outs) {
            Err(e) => Err(e),
            Ok(b) => if b.len() != 32 {
                Err(
                    DecodeError::WrongLength {
                        field: FieldName::Outs,
                        expected: 32,
                        actual: b.len(),
                    },
                )
            } else {
                Ok(Some(Hostio { kind: HostioKind::MsgValue { value: b }, start_ink, end_ink }))
            },
        }
    } else if string_eq(name, "memory_grow") {
        match to_bytes(args, FieldName::Args) {
            Err(e) => Err(e),
            Ok(b) => if b.len() != 2 {
                Err(
                    DecodeError::WrongLength {
                        field: FieldName::Args,
                        expected: 2,
                        actual: b.len(),
                    },
                )
            } else {
                let pages = be_u16(&b, 0, 2);
                proof {
                    assert(b@.subrange(0, 2) =~= b@);
                }
                Ok(Some(Hostio { kind: HostioKind::MemoryGrow { pages }, start_ink, end_ink }))
            },
        }
    } else if string_eq(name, "contract_address") {
        match to_bytes(outs, FieldName::Outs) {
            Err(e) => Err(e),
            Ok(b) => if b.len() != 20 {
                Err(
                    DecodeError::WrongLength {
                        field: FieldName::Outs,
                        expected: 20,
                        actual: b.len(),
                    },
                )
            } else {
                Ok(
                    Some(
                        Hostio {
                            kind: HostioKind::ContractAddress { address: b },
                            start_ink,
                            end_ink,
                        },
                    ),
                )
            },
        }
    } else if string_eq(name, "call_contract") {
        proof {
            assert(decreases_to!(*v => *fields));
        }
        decode_call_exec(fields, args, outs, start_ink, end_ink)
    } else if string_eq(name, "user_entrypoint") || string_eq(name, "user_returned") {
        Ok(None)
    } else {
        Err(DecodeError::UnsupportedHostio { name: name.clone() })
    }
}

/// Decode an outgoing call, exact against [`decode_call`].
fn decode_call_exec(
    fields: &Vec<(String, TraceValue)>,
    args: &Vec<TraceValue>,
    outs: &Vec<TraceValue>,
    start_ink: u64,
    end_ink: u64,
) -> (r: Result<Option<Hostio>, DecodeError>)
    ensures
        match r {
            Ok(Some(h)) => decode_call(
                fields_model(fields@),
                items_model(args@),
                items_model(outs@),
                start_ink,
                end_ink,
            ) == (DecodedStep::Keep { h: h@ }),
            Ok(None) => false,
            Err(e) => decode_call(
                fields_model(fields@),
                items_model(args@),
                items_model(outs@),
                start_ink,
                end_ink,
            ) == (DecodedStep::Fail { e: e@ }),
        },
    decreases fields, 0int,
{
    let ab = match to_bytes(args, FieldName::Args) {
        Ok(b) => b,
        Err(e) => {
            return Err(e);
        },
    };
    if ab.len() < 60 {
        return Err(
            DecodeError::WrongLength { field: FieldName::Args, expected: 60, actual: ab.len() },
        );
    }
    let ob = match to_bytes(outs, FieldName::Outs) {
        Ok(b) => b,
        Err(e) => {
            return Err(e);
        },
    };
    if ob.len() != 5 {
        return Err(
            DecodeError::WrongLength { field: FieldName::Outs, expected: 5, actual: ob.len() },
        );
    }
    let info_v = match get_field(fields, "info") {
        None => {
            return Err(DecodeError::MissingField { field: FieldName::Info });
        },
        Some(x) => x,
    };
    let ifields = match info_v {
        TraceValue::Obj { fields: f } => f,
        _ => {
            return Err(DecodeError::WrongFieldType { field: FieldName::Info });
        },
    };
    proof {
        match info_v@ {
            ValueModel::Obj { fields: s } => {
                assert(s =~= fields_model(ifields@));
            },
            _ => {
                assert(false);
            },
        }
        assert(info_v@ == (ValueModel::Obj { fields: fields_model(ifields@) }));
    }
    let addr_v = match get_field(ifields, "address") {
        None => {
            return Err(DecodeError::MissingField { field: FieldName::Address });
        },
        Some(x) => x,
    };
    let afields = match addr_v {
        TraceValue::Obj { fields: f } => f,
        _ => {
            return Err(DecodeError::WrongFieldType { field: FieldName::Address });
        },
    };
    proof {
        match addr_v@ {
            ValueModel::Obj { fields: s } => {
                assert(s =~= fields_model(afields@));
            },
            _ => {
                assert(false);
            },
        }
        assert(addr_v@ == (ValueModel::Obj { fields: fields_model(afields@) }));
    }
    let addr = match decode_address(afields) {
        Ok(a) => a,
        Err(e) => {
            return Err(e);
        },
    };
    if addr.len() != 20 {
        return Err(
            DecodeError::WrongLength { field: FieldName::Address, expected: 20, actual: addr.len() },
        );
    }
    let steps_v = match get_field(ifields, "steps") {
        None => {
            return Err(DecodeError::MissingField { field: FieldName::Steps });
        },
        Some(x) => x,
    };
    proof {
        let i1 = choose|i: int| 0 <= i < fields@.len() && fields@[i].1 == *info_v;
        assert(decreases_to!(fields@ => fields@[i1]));
        assert(decreases_to!(fields@[i1] => fields@[i1].1));
        assert(decreases_to!(*info_v => *ifields));
        let i2 = choose|i: int| 0 <= i < ifields@.len() && ifields@[i].1 == *steps_v;
        assert(decreases_to!(ifields@ => ifields@[i2]));
        assert(decreases_to!(ifields@[i2] => ifields@[i2].1));
        assert(decreases_to!(*fields => *steps_v));
    }
    let frame = match TraceFrame::parse_frame(Some(addr), steps_v) {
        Ok(f) => f,
        Err(e) => {
            return Err(e);
        },
    };
    let ghost abm = ab@;
    let ghost obm = ob@;
    let address = sub_bytes(&ab, 0, 20);
    let gas = be_u64(&ab, 20, 28);
    let value = sub_bytes(&ab, 28, 60);
    let data = sub_bytes(&ab, 60, ab.len());
    let outs_len = be_u32(&ob, 0, 4);
    let status = ob[4];
    proof {
        lemma_be_nat_bound(abm.subrange(20, 28));
        lemma_be_nat_bound(obm.subrange(0, 4));
    }
    Ok(
        Some(
            Hostio {
                kind: HostioKind::CallContract {
                    address,
                    data,
                    gas,
                    value,
                    outs_len,
                    status,
                    frame,
                },
                start_ink,
                end_ink,
            },
        ),
    )
}

impl TraceFrame {
    /// Decode a step array, plus the originating contract address, into a
    /// frame, descending into nested call frames; exact against
    /// [`parse_frame_spec`].
    pub fn parse_frame(address: Option<Vec<u8>>, v: &TraceValue) -> (r: Result<
        TraceFrame,
        DecodeError,
    >)
        ensures
            frame_res_model(r) == parse_frame_spec(addr_model(address), v@),
        decreases v, 2int,
    {
        let items = match v {
            TraceValue::Arr { items } => items,
            _ => {
                return Err(DecodeError::NotAnArray);
            },
        };
        let ghost im = items_model(items@);
        proof {
            match v@ {
                ValueModel::Arr { items: s } => {
                    assert(s =~= im);
                },
                _ => {
                    assert(false);
                },
            }
            assert(v@ == (ValueModel::Arr { items: im }));
        }
        let mut steps: Vec<Hostio> = Vec::new();
        let mut i: usize = 0;
        proof {
            assert(steps_model(steps@) =~= Seq::<HostioModel>::empty());
        }
        while i < items.len()
            invariant
                0 <= i <= items@.len(),
                im == items_model(items@),
                *v == (TraceValue::Arr { items: *items }),
                v@ == (ValueModel::Arr { items: im }),
                decode_steps(im, i as int) == Ok::<_, DecodeErrorModel>(steps_model(steps@)),
            decreases items@.len() - i,
        {
            proof {
                assert(decreases_to!(*v => *items));
                assert(decreases_to!(items@ => items@[i as int]));
            }
            let d = decode_one(&items[i]);
            proof {
                assert(im[i as int] == items@[i as int]@);
            }
            match d {
                Err(e) => {
                    proof {
                        assert(decode_steps(im, i as int + 1) == Err::<Seq<HostioModel>, _>(e@));
                        lemma_decode_steps_err_persists(im, i as int + 1, im.len() as int);
                    }
                    return Err(e);
                },
                Ok(None) => {
                    proof {
                        assert(decode_steps(im, i as int + 1) == Ok::<_, DecodeErrorModel>(
                            steps_model(steps@),
                        ));
                    }
                },
                Ok(Some(h)) => {
                    let ghost old_steps = steps@;
                    steps.push(h);
                    proof {
                        assert(steps_model(steps@) =~= steps_model(old_steps).push(h@));
                        assert(decode_steps(im, i as int + 1) == Ok::<_, DecodeErrorModel>(
                            steps_model(steps@),
                        ));
                    }
                },
            }
            i = i + 1;
        }
        let f = TraceFrame { address, steps };
        proof {
            assert(f@.steps =~= steps_model(f.steps@));
        }
        Ok(f)
    }
}

} // verus!
