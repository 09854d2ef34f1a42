//! The engine's stated guarantees, proved once and for all inputs.
//!
//! Each public proof function here is a law relating the decode and
//! replay contracts of the neighbouring modules: faithfulness of decoded
//! payloads, order preservation, order independence of the callee address
//! mapping, rejection of unknown operations, and the strict-with-tolerance
//! replay policy.

use vstd::prelude::*;

use crate::error::{DecodeErrorModel, FieldName};
use crate::reader::{is_tolerated, pop_next_spec, PopOutcome};
use crate::trace::{
    addr_byte, addr_pair_bad, decode_addr, decode_bytes, decode_step, decode_steps,
    first_bad_pair, key_int, kind_name, parse_frame_spec, DecodedStep, HostioModel, KindModel,
};
use crate::value::{lemma_lookup_smaller, lookup_field, ValueModel};

verus! {

/// Whether a step record is retained by the decoder.
pub open spec fn is_kept(v: ValueModel) -> bool {
    decode_step(v) is Keep
}

/// The operation a retained step record decodes to.
pub open spec fn kept_hostio(v: ValueModel) -> HostioModel {
    match decode_step(v) {
        DecodedStep::Keep { h } => h,
        _ => HostioModel { kind: KindModel::UserEntrypoint, start_ink: 0, end_ink: 0 },
    }
}

/// The operations a step array retains, in emission order.
pub open spec fn retained(items: Seq<ValueModel>) -> Seq<HostioModel> {
    items.filter(|v: ValueModel| is_kept(v)).map_values(|v: ValueModel| kept_hostio(v))
}

/// Decoding preserves order: the operations decoded from the first `n`
/// records are exactly the retained records, each decoded, in the order
/// they stand in the input.
pub proof fn lemma_decode_preserves_order(items: Seq<ValueModel>, n: int)
    requires
        0 <= n <= items.len(),
    ensures
        decode_steps(items, n) matches Ok(steps) ==> steps == retained(items.take(n)),
    decreases n,
{
    reveal_with_fuel(Seq::filter, 2);
    if n == 0 {
        assert(items.take(0) =~= Seq::<ValueModel>::empty());
        assert(retained(items.take(0)) =~= Seq::<HostioModel>::empty());
    } else if decode_steps(items, n) is Ok {
        lemma_decode_preserves_order(items, n - 1);
        let prev = items.take(n - 1);
        let cur = items.take(n);
        assert(cur.drop_last() =~= prev);
        assert(cur.last() == items[n - 1]);
        let pred = |v: ValueModel| is_kept(v);
        let f = |v: ValueModel| kept_hostio(v);
        assert(cur.filter(pred) == if pred(items[n - 1]) {
            prev.filter(pred).push(items[n - 1])
        } else {
            prev.filter(pred)
        });
        if pred(items[n - 1]) {
            assert(prev.filter(pred).push(items[n - 1]).map_values(f) =~= prev.filter(
                pred,
            ).map_values(f).push(kept_hostio(items[n - 1])));
        }
    }
}

/// Order preservation at the frame level: a decoded frame's step sequence
/// is the input sequence with the lifecycle markers (and nothing else)
/// removed, each record decoded in place.
pub proof fn lemma_frame_preserves_order(address: Option<Seq<u8>>, v: ValueModel)
    ensures
        parse_frame_spec(address, v) matches Ok(frame) ==> v matches ValueModel::Arr { items }
            && frame.steps == retained(items) && frame.address == address,
{
    match v {
        ValueModel::Arr { items } => {
            if parse_frame_spec(address, v) is Ok {
                lemma_decode_preserves_order(items, items.len() as int);
                assert(items.take(items.len() as int) =~= items);
            }
        },
        _ => {},
    }
}

/// A retained operation carries the record's payload unchanged: the ink
/// counters always, the `outs` byte run for delivered calldata, and the
/// `args` byte run for produced return data.
pub proof fn lemma_decode_step_faithful(v: ValueModel)
    ensures
        decode_step(v) matches DecodedStep::Keep { h } ==> v matches ValueModel::Obj { fields }
            && lookup_field(fields, "startInk"@) == Some(ValueModel::Num { n: h.start_ink })
            && lookup_field(fields, "endInk"@) == Some(ValueModel::Num { n: h.end_ink }) && (
        h.kind matches KindModel::ReadArgs { args } ==> (lookup_field(fields, "outs"@) matches Some(
            ValueModel::Arr { items },
        ) && decode_bytes(items, FieldName::Outs) == Ok::<_, DecodeErrorModel>(args))) && (
        h.kind matches KindModel::WriteResult { result } ==> (lookup_field(
            fields,
            "args"@,
        ) matches Some(ValueModel::Arr { items }) && decode_bytes(items, FieldName::Args)
            == Ok::<_, DecodeErrorModel>(result))),
{
}

/// Every pair of a decoded address mapping lands at the byte index its
/// own key names, whatever position the pair stood at: the mapping's
/// serialization order cannot affect the reconstructed address.
pub proof fn lemma_addr_order_independent(fields: Seq<(Seq<char>, ValueModel)>)
    ensures
        decode_addr(fields) matches Ok(addr) ==> addr.len() == fields.len() && forall|j: int|
            0 <= j < fields.len() ==> {
                &&& key_int(#[trigger] fields[j].0) is Some
                &&& 0 <= key_int(fields[j].0)->Some_0 < fields.len()
                &&& fields[j].1 is Num
                &&& fields[j].1->n <= 255
                &&& addr[key_int(fields[j].0)->Some_0] == fields[j].1->n as u8
            },
{
    if decode_addr(fields) is Ok {
        let addr = decode_addr(fields)->Ok_0;
        let n = fields.len() as int;
        lemma_first_bad_none(fields, n);
        assert forall|j: int| 0 <= j < n implies {
            &&& key_int(#[trigger] fields[j].0) is Some
            &&& 0 <= key_int(fields[j].0)->Some_0 < fields.len()
            &&& fields[j].1 is Num
            &&& fields[j].1->n <= 255
            &&& addr[key_int(fields[j].0)->Some_0] == fields[j].1->n as u8
        } by {
            assert(!addr_pair_bad(fields, j));
            let k = key_int(fields[j].0)->Some_0;
            let jj = choose|jj: int|
                0 <= jj < fields.len() && key_int(#[trigger] fields[jj].0) == Some(k);
            if jj != j {
                let hi = if jj < j {
                    j
                } else {
                    jj
                };
                assert(addr_pair_bad(fields, hi));
            }
            assert(addr[k] == addr_byte(fields, k));
        }
    }
}

/// Prefixes without a bad pair have no bad pair at all.
proof fn lemma_first_bad_none(fields: Seq<(Seq<char>, ValueModel)>, n: int)
    requires
        0 <= n <= fields.len(),
        first_bad_pair(fields, n) is None,
    ensures
        forall|j: int| 0 <= j < n ==> !addr_pair_bad(fields, j),
    decreases n,
{
    if n > 0 {
        lemma_first_bad_none(fields, n - 1);
    }
}

/// A well-shaped step record bearing an unknown operation name is always
/// a fatal unsupported-operation failure carrying that name: no record is
/// ever silently skipped.
pub proof fn lemma_unknown_name_fails(v: ValueModel)
    ensures
        v matches ValueModel::Obj { fields } ==> lookup_field(fields, "name"@) matches Some(
            ValueModel::Str { s },
        ) ==> lookup_field(fields, "args"@) matches Some(ValueModel::Arr { .. })
            ==> lookup_field(fields, "outs"@) matches Some(ValueModel::Arr { .. })
            ==> lookup_field(fields, "startInk"@) matches Some(ValueModel::Num { .. })
            ==> lookup_field(fields, "endInk"@) matches Some(ValueModel::Num { .. }) ==> (s
            != "read_args"@ && s != "write_result"@ && s != "msg_value"@ && s != "memory_grow"@
            && s != "contract_address"@ && s != "call_contract"@ && s != "user_entrypoint"@ && s
            != "user_returned"@) ==> decode_step(v) == (DecodedStep::Fail {
            e: DecodeErrorModel::UnsupportedHostio { name: s },
        }),
{
}

/// Popping from an exhausted queue always fails with no-next-event; the
/// walk never blocks and never invents an operation.
pub proof fn lemma_pop_next_empty(expected: Seq<char>)
    ensures
        pop_next_spec(Seq::empty(), expected) == PopOutcome::Empty,
{
}

/// What a successful pop delivers is one of the queue's own entries,
/// verbatim: the first entry whose name matches, with every earlier entry
/// tolerated-and-discarded, and the queue resuming right after it.  In
/// particular an outgoing call's recorded `outs_len` and `status` reach
/// the caller unchanged, at any nesting depth.
pub proof fn lemma_pop_next_delivers_recorded(s: Seq<HostioModel>, expected: Seq<char>)
    ensures
        pop_next_spec(s, expected) matches PopOutcome::Found { h, rest } ==> exists|i: int|
            {
                &&& 0 <= i < s.len()
                &&& h == s[i]
                &&& kind_name(s[i].kind) == expected
                &&& rest == s.skip(i + 1)
                &&& forall|j: int|
                    0 <= j < i ==> is_tolerated(#[trigger] s[j].kind) && kind_name(s[j].kind)
                        != expected
            },
    decreases s.len(),
{
    if s.len() > 0 && kind_name(s[0].kind) != expected && is_tolerated(s[0].kind) {
        lemma_pop_next_delivers_recorded(s.skip(1), expected);
        match pop_next_spec(s, expected) {
            PopOutcome::Found { h, rest } => {
                let t = s.skip(1);
                let i0 = choose|i: int|
                    {
                        &&& 0 <= i < t.len()
                        &&& h == t[i]
                        &&& kind_name(t[i].kind) == expected
                        &&& rest == t.skip(i + 1)
                        &&& forall|j: int|
                            0 <= j < i ==> is_tolerated(#[trigger] t[j].kind) && kind_name(
                                t[j].kind,
                            ) != expected
                    };
                assert(t.skip(i0 + 1) =~= s.skip(i0 + 2));
                assert forall|j: int| 0 <= j < i0 + 1 implies is_tolerated(#[trigger] s[j].kind)
                    && kind_name(s[j].kind) != expected by {
                    if j > 0 {
                        assert(is_tolerated(t[j - 1].kind) && kind_name(t[j - 1].kind)
                            != expected);
                    }
                }
                assert({
                    &&& 0 <= i0 + 1 < s.len()
                    &&& h == s[i0 + 1]
                    &&& kind_name(s[i0 + 1].kind) == expected
                    &&& rest == s.skip(i0 + 2)
                    &&& forall|j: int|
                        0 <= j < i0 + 1 ==> is_tolerated(#[trigger] s[j].kind) && kind_name(
                            s[j].kind,
                        ) != expected
                });
            },
            _ => {},
        }
    }
}

/// Every frame a successful decode produces is well-formed: addresses are
/// 20 bytes and words 32, recursively through nested frames.
pub proof fn lemma_decode_wf(address: Option<Seq<u8>>, v: ValueModel)
    requires
        address matches Some(a) ==> a.len() == 20,
    ensures
        parse_frame_spec(address, v) matches Ok(frame) ==> frame.wf(),
    decreases v, 2int,
{
    match v {
        ValueModel::Arr { items } => {
            lemma_decode_steps_wf(items, items.len() as int);
        },
        _ => {},
    }
}

/// Auxiliary induction for [`lemma_decode_wf`] over a step-array prefix.
proof fn lemma_decode_steps_wf(items: Seq<ValueModel>, n: int)
    ensures
        decode_steps(items, n) matches Ok(steps) ==> forall|i: int|
            0 <= i < steps.len() ==> (#[trigger] steps[i].kind).wf(),
    decreases items, n,
{
    if 0 < n <= items.len() {
        lemma_decode_steps_wf(items, n - 1);
        if decode_steps(items, n) is Ok && decode_step(items[n - 1]) is Keep {
            assert(decreases_to!(items => items[n - 1]));
            lemma_decode_step_wf(items[n - 1]);
        }
    }
}

/// Auxiliary induction for [`lemma_decode_wf`] over one step record.
proof fn lemma_decode_step_wf(v: ValueModel)
    ensures
        decode_step(v) matches DecodedStep::Keep { h } ==> h.kind.wf(),
    decreases v, 1int,
{
    if decode_step(v) is Keep && kept_hostio(v).kind is CallContract {
        match v {
                ValueModel::Obj { fields } => {
                    match lookup_field(fields, "info"@) {
                        Some(ValueModel::Obj { fields: ifields }) => {
                            match lookup_field(ifields, "steps"@) {
                                Some(sv) => {
                                    match lookup_field(ifields, "address"@) {
                                        Some(ValueModel::Obj { fields: afields }) => {
                                            match decode_addr(afields) {
                                                Ok(addr) => {
                                                    if addr.len() == 20 {
                                                        lemma_lookup_smaller(fields, "info"@);
                                                        let iv = lookup_field(
                                                            fields,
                                                            "info"@,
                                                        )->Some_0;
                                                        assert(decreases_to!(fields => iv));
                                                        assert(decreases_to!(iv => ifields));
                                                        lemma_lookup_smaller(ifields, "steps"@);
                                                        assert(decreases_to!(ifields => sv));
                                                        assert(decreases_to!(v => sv));
                                                        lemma_decode_wf(Some(addr), sv);
                                                    }
                                                },
                                                _ => {},
                                            }
                                        },
                                        _ => {},
                                    }
                                },
                                _ => {},
                            }
                        },
                        _ => {},
                    }
                },
            _ => {},
        }
    }
}

} // verus!
