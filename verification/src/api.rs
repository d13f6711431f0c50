//! Decision logic of the host-callable API surface. Each function here
//! decides one host-facing call: it classifies what the host engine
//! reported, validates and converts guest-supplied arguments, and hands
//! back either a normal list of guest values or an explicit abort-with-message
//! signal, which the glue raises as a guest-level error. Soft failures —
//! an unknown component, an unknown method — are ordinary return values,
//! `nil` plus a message, never an error.

use vstd::prelude::*;

use crate::allocator::string_reserve_ok;
use crate::unicode::{encode_all_spec, encode_codepoints, substring, substring_spec};
use crate::value::{
    cstr_bytes, guest_view, host_view, to_guest, to_guest_spec, to_host, to_host_spec, GuestVal,
    GuestValue, HostValue,
};
use vstd::string::StringSliceAdditionalSpecFns;

verus! {

broadcast use vstd::std_specs::vec::group_vec_axioms;

/// What one API-surface call hands back to the guest: either a normal list
/// of return values, or the instruction to abort the current guest call
/// with an error message.
pub enum ApiResult {
    Values(Vec<GuestValue>),
    Abort(Vec<u8>),
}

/// View of a sequence of guest values.
pub open spec fn guest_seq(s: Seq<GuestValue>) -> Seq<GuestVal> {
    crate::value::guest_view_seq(s)
}

pub open spec fn msg_no_such_component() -> Seq<u8> {
    "no such component".spec_bytes()
}

pub open spec fn msg_no_such_method() -> Seq<u8> {
    "no such method".spec_bytes()
}

pub open spec fn msg_too_many_arguments() -> Seq<u8> {
    "too many arguments".spec_bytes()
}

pub open spec fn msg_out_of_memory() -> Seq<u8> {
    "out of memory".spec_bytes()
}

pub open spec fn msg_unsupported_architecture_prefix() -> Seq<u8> {
    "unsupported architecture: ".spec_bytes()
}

/// The UTF-8 bytes of a string constant.
fn str_bytes(s: &str) -> (r: Vec<u8>)
    ensures
        r@ == s.spec_bytes(),
{
    vstd::slice::slice_to_vec(s.as_bytes())
}

/// The soft-failure pair `(nil, msg)` that a component lookup on an
/// unknown address hands back.
pub open spec fn soft_failure(vs: Seq<GuestValue>, msg: Seq<u8>) -> bool {
    &&& vs.len() == 2
    &&& guest_view(vs[0]) == GuestVal::Nil
    &&& guest_view(vs[1]) == GuestVal::Str(msg)
}

fn soft_failure_values(msg: &str) -> (r: Vec<GuestValue>)
    ensures
        soft_failure(r@, msg.spec_bytes()),
{
    let mut out: Vec<GuestValue> = Vec::new();
    out.push(GuestValue::Nil);
    out.push(GuestValue::Str(str_bytes(msg)));
    out
}

/// Classifies one component method invocation from what the host engine
/// reported. An unknown address or a rejected method is a soft failure:
/// exactly two values, `nil` and the message, no guest error raised and
/// nothing else touched. A host-level invocation error is a hard failure
/// that aborts the guest call with the host's message. On success, every
/// host-reported result crosses the bridge, in order.
pub fn component_invoke_result(
    found: bool,
    method_ok: bool,
    host_error: Option<Vec<u8>>,
    results: &Vec<HostValue>,
) -> (r: ApiResult)
    ensures
        !found ==> (r matches ApiResult::Values(vs) && soft_failure(
            vs@,
            msg_no_such_component(),
        )),
        found && !method_ok ==> (r matches ApiResult::Values(vs) && soft_failure(
            vs@,
            msg_no_such_method(),
        )),
        host_error matches Some(e) ==> (found && method_ok ==> (r matches ApiResult::Abort(m)
            && m@ == e@)),
        found && method_ok && host_error is None ==> (r matches ApiResult::Values(vs) && vs@.len()
            == results@.len() && forall|i: int|
            0 <= i < results@.len() ==> guest_view(vs@[i]) == to_guest_spec(
                host_view(results@[i]),
            )),
{
    if !found {
        return ApiResult::Values(soft_failure_values("no such component"));
    }
    if !method_ok {
        return ApiResult::Values(soft_failure_values("no such method"));
    }
    match host_error {
        Option::Some(e) => ApiResult::Abort(e),
        Option::None => {
            let mut out: Vec<GuestValue> = Vec::new();
            let mut i: usize = 0;
            while i < results.len()
                invariant
                    i <= results@.len(),
                    out@.len() == i,
                    forall|j: int|
                        0 <= j < i ==> guest_view(out@[j]) == to_guest_spec(
                            host_view(results@[j]),
                        ),
                decreases results@.len() - i,
            {
                let converted = to_guest(&results[i]);
                out.push(converted);
                i = i + 1;
            }
            ApiResult::Values(out)
        },
    }
}

/// Documentation lookup: unknown address is the soft failure; a component
/// without documentation for the method yields `nil`; otherwise the
/// documentation string.
pub fn component_doc_result(found: bool, doc: Option<Vec<u8>>) -> (r: ApiResult)
    ensures
        !found ==> (r matches ApiResult::Values(vs) && soft_failure(
            vs@,
            msg_no_such_component(),
        )),
        found && doc is None ==> (r matches ApiResult::Values(vs) && vs@.len() == 1 && guest_view(
            vs@[0],
        ) == GuestVal::Nil),
        doc matches Some(d) ==> (found ==> (r matches ApiResult::Values(vs) && vs@.len() == 1
            && guest_view(vs@[0]) == GuestVal::Str(d@))),
{
    if !found {
        return ApiResult::Values(soft_failure_values("no such component"));
    }
    let mut out: Vec<GuestValue> = Vec::new();
    match doc {
        Option::None => {
            out.push(GuestValue::Nil);
        },
        Option::Some(d) => {
            out.push(GuestValue::Str(d));
        },
    }
    ApiResult::Values(out)
}

/// Slot lookup: unknown address is the soft failure, otherwise the slot
/// number.
pub fn component_slot_result(slot: Option<i64>) -> (r: ApiResult)
    ensures
        slot is None ==> (r matches ApiResult::Values(vs) && soft_failure(
            vs@,
            msg_no_such_component(),
        )),
        slot matches Some(s) ==> (r matches ApiResult::Values(vs) && vs@.len() == 1 && guest_view(
            vs@[0],
        ) == GuestVal::Int(s)),
{
    match slot {
        Option::None => ApiResult::Values(soft_failure_values("no such component")),
        Option::Some(s) => {
            let mut out: Vec<GuestValue> = Vec::new();
            out.push(GuestValue::Int(s));
            ApiResult::Values(out)
        },
    }
}

/// Type lookup: unknown address is the soft failure, otherwise the
/// component's type string.
pub fn component_type_result(ty: Option<Vec<u8>>) -> (r: ApiResult)
    ensures
        ty is None ==> (r matches ApiResult::Values(vs) && soft_failure(
            vs@,
            msg_no_such_component(),
        )),
        ty matches Some(t) ==> (r matches ApiResult::Values(vs) && vs@.len() == 1 && guest_view(
            vs@[0],
        ) == GuestVal::Str(t@)),
{
    match ty {
        Option::None => ApiResult::Values(soft_failure_values("no such component")),
        Option::Some(t) => {
            let mut out: Vec<GuestValue> = Vec::new();
            out.push(GuestValue::Str(t));
            ApiResult::Values(out)
        },
    }
}

/// The methods of a component that are enabled, each with its direct-call
/// flag, in the host's listing order.
pub open spec fn filter_enabled_spec(s: Seq<(Seq<u8>, bool, bool)>) -> Seq<(Seq<u8>, bool)>
    decreases s,
{
    if s.len() == 0 {
        Seq::empty()
    } else {
        let rest = filter_enabled_spec(s.drop_first());
        if s[0].2 {
            seq![(s[0].0, s[0].1)] + rest
        } else {
            rest
        }
    }
}

pub proof fn lemma_filter_enabled_snoc(s: Seq<(Seq<u8>, bool, bool)>, t: (Seq<u8>, bool, bool))
    ensures
        filter_enabled_spec(s.push(t)) == filter_enabled_spec(s) + (if t.2 {
            seq![(t.0, t.1)]
        } else {
            Seq::empty()
        }),
    decreases s,
{
    if s.len() == 0 {
        assert(s.push(t).drop_first() =~= Seq::<(Seq<u8>, bool, bool)>::empty());
        assert(filter_enabled_spec(Seq::<(Seq<u8>, bool, bool)>::empty()) =~= Seq::<(
            Seq<u8>,
            bool,
        )>::empty());
        if t.2 {
            assert(filter_enabled_spec(s.push(t)) =~= seq![(t.0, t.1)]);
            assert(filter_enabled_spec(s) + seq![(t.0, t.1)] =~= seq![(t.0, t.1)]);
        } else {
            assert(filter_enabled_spec(s) + Seq::<(Seq<u8>, bool)>::empty() =~= Seq::<(
                Seq<u8>,
                bool,
            )>::empty());
        }
    } else {
        assert(s.push(t).drop_first() =~= s.drop_first().push(t));
        lemma_filter_enabled_snoc(s.drop_first(), t);
        if s[0].2 {
            if t.2 {
                assert(filter_enabled_spec(s) + seq![(t.0, t.1)] =~= seq![(s[0].0, s[0].1)] + (
                filter_enabled_spec(s.drop_first()) + seq![(t.0, t.1)]));
            } else {
                assert(filter_enabled_spec(s) + Seq::<(Seq<u8>, bool)>::empty()
                    =~= filter_enabled_spec(s));
            }
        } else {
            if !t.2 {
                assert(filter_enabled_spec(s) + Seq::<(Seq<u8>, bool)>::empty()
                    =~= filter_enabled_spec(s));
            }
        }
    }
}

pub open spec fn method_triples(s: Seq<(Vec<u8>, bool, bool)>) -> Seq<(Seq<u8>, bool, bool)> {
    s.map_values(|t: (Vec<u8>, bool, bool)| (t.0@, t.1, t.2))
}

pub open spec fn method_pairs(s: Seq<(Vec<u8>, bool)>) -> Seq<(Seq<u8>, bool)> {
    s.map_values(|t: (Vec<u8>, bool)| (t.0@, t.1))
}

/// Keeps the enabled methods of a component's listing, as the mapping from
/// method name to its direct-call flag; disabled methods are skipped.
/// `methods` holds, for each method, its name, whether it is a direct
/// call, and whether it is enabled on this component.
#[verifier::loop_isolation(false)]
pub fn filter_methods(methods: Vec<(Vec<u8>, bool, bool)>) -> (r: Vec<(Vec<u8>, bool)>)
    ensures
        method_pairs(r@) == filter_enabled_spec(method_triples(methods@)),
{
    let mut out: Vec<(Vec<u8>, bool)> = Vec::new();
    let mut i: usize = 0;
    proof {
        assert(method_triples(methods@.take(0)) =~= Seq::<(Seq<u8>, bool, bool)>::empty());
        assert(method_pairs(out@) =~= filter_enabled_spec(method_triples(methods@.take(0))));
    }
    let n = methods.len();
    while i < n
        invariant
            i <= methods@.len(),
            n == methods@.len(),
            method_pairs(out@) == filter_enabled_spec(method_triples(methods@.take(i as int))),
        decreases n - i,
    {
        proof {
            assert(method_triples(methods@.take(i + 1)) =~= method_triples(
                methods@.take(i as int),
            ).push((methods@[i as int].0@, methods@[i as int].1, methods@[i as int].2)));
            lemma_filter_enabled_snoc(
                method_triples(methods@.take(i as int)),
                (methods@[i as int].0@, methods@[i as int].1, methods@[i as int].2),
            );
        }
        let enabled = methods[i].2;
        let direct = methods[i].1;
        if enabled {
            let name = crate::value::copy_bytes(&methods[i].0);
            out.push((name, direct));
            proof {
                assert(method_pairs(out@) =~= filter_enabled_spec(
                    method_triples(methods@.take(i + 1)),
                ));
            }
        } else {
            proof {
                assert(method_pairs(out@) =~= filter_enabled_spec(
                    method_triples(methods@.take(i + 1)),
                ));
            }
        }
        i = i + 1;
    }
    proof {
        assert(methods@.take(methods@.len() as int) =~= methods@);
    }
    out
}

/// The first supported architecture whose name matches the requested one.
#[verifier::loop_isolation(false)]
pub fn find_architecture(requested: &Vec<u8>, supported: &Vec<Vec<u8>>) -> (r: Option<usize>)
    ensures
        r matches Some(i) ==> 0 <= i < supported@.len() && supported@[i as int]@ == requested@
            && forall|j: int| 0 <= j < i ==> supported@[j]@ != requested@,
        r is None ==> forall|j: int| 0 <= j < supported@.len() ==> supported@[j]@ != requested@,
{
    let mut i: usize = 0;
    while i < supported.len()
        invariant
            i <= supported@.len(),
            forall|j: int| 0 <= j < i ==> supported@[j]@ != requested@,
        decreases supported@.len() - i,
    {
        if crate::value::bytes_eq(&supported[i], requested) {
            return Some(i);
        }
        i = i + 1;
    }
    None
}

/// The architecture-switch request: a requested name that matches a
/// supported architecture asks the host to switch at the next scheduling
/// boundary; any other name aborts the guest call.
pub fn set_architecture_decision(requested: &Vec<u8>, supported: &Vec<Vec<u8>>) -> (r: Result<
    usize,
    Vec<u8>,
>)
    ensures
        r matches Ok(i) ==> 0 <= i < supported@.len() && supported@[i as int]@ == requested@,
        r matches Err(m) ==> (forall|j: int|
            0 <= j < supported@.len() ==> supported@[j]@ != requested@) && m@
            == msg_unsupported_architecture_prefix() + requested@,
        (exists|j: int| 0 <= j < supported@.len() && supported@[j]@ == requested@) <==> r is Ok,
{
    match find_architecture(requested, supported) {
        Option::Some(i) => Ok(i),
        Option::None => {
            let mut m = str_bytes("unsupported architecture: ");
            let mut j: usize = 0;
            while j < requested.len()
                invariant
                    j <= requested@.len(),
                    m@ == msg_unsupported_architecture_prefix() + requested@.take(j as int),
                decreases requested@.len() - j,
            {
                m.push(requested[j]);
                proof {
                    assert(m@ =~= msg_unsupported_architecture_prefix() + requested@.take(
                        j + 1,
                    ));
                }
                j = j + 1;
            }
            proof {
                assert(requested@.take(requested@.len() as int) =~= requested@);
            }
            Err(m)
        },
    }
}

/// Guest values that the guest runtime will coerce to a string where one is
/// demanded: strings and both numeric subtypes.
pub open spec fn string_coercible(v: GuestVal) -> bool {
    v is Str || v is Int || v is Number
}

/// Outcome of validating and converting the arguments of a signal push.
pub enum SignalPushCheck {
    /// The first argument, the signal's name, is missing or not
    /// string-coercible: a guest argument error.
    BadName,
    /// More arguments than the declared maximum: the push is rejected
    /// before anything is converted.
    TooMany,
    /// All arguments converted to host values, in order, ready to queue.
    Converted(Vec<HostValue>),
}

/// Validates a signal push: the name must be string-coercible and the
/// argument count within the declared maximum; only then is each argument
/// converted. A rejected push converts nothing, so the queue cannot be
/// touched.
pub fn prepare_push_signal(args: &Vec<GuestValue>, max_args: usize) -> (r: SignalPushCheck)
    ensures
        r is BadName <==> (args@.len() == 0 || !string_coercible(guest_view(args@[0]))),
        r is TooMany <==> (args@.len() > 0 && string_coercible(guest_view(args@[0]))
            && args@.len() > max_args),
        r matches SignalPushCheck::Converted(vs) ==> vs@.len() == args@.len() && forall|i: int|
            0 <= i < args@.len() ==> host_view(vs@[i]) == to_host_spec(guest_view(args@[i])),
        (args@.len() > 0 && string_coercible(guest_view(args@[0])) && args@.len() <= max_args)
            <==> r is Converted,
{
    if args.len() == 0 {
        return SignalPushCheck::BadName;
    }
    let name_ok = match &args[0] {
        GuestValue::Str(_) => true,
        GuestValue::Int(_) => true,
        GuestValue::Number(_) => true,
        _ => false,
    };
    if !name_ok {
        return SignalPushCheck::BadName;
    }
    if args.len() > max_args {
        return SignalPushCheck::TooMany;
    }
    let mut out: Vec<HostValue> = Vec::new();
    let mut i: usize = 0;
    while i < args.len()
        invariant
            i <= args@.len(),
            out@.len() == i,
            forall|j: int|
                0 <= j < i ==> host_view(out@[j]) == to_host_spec(guest_view(args@[j])),
        decreases args@.len() - i,
    {
        let converted = to_host(&args[i]);
        out.push(converted);
        i = i + 1;
    }
    SignalPushCheck::Converted(out)
}

/// The message with which a push of too many arguments aborts the guest
/// call.
pub fn too_many_arguments_message() -> (r: Vec<u8>)
    ensures
        r@ == msg_too_many_arguments(),
{
    str_bytes("too many arguments")
}

/// Maps the host's answer to a signal push onto the guest call: a host
/// rejection releases every already-converted value and aborts the guest
/// call with the host's message; acceptance hands back nothing.
pub fn finish_push_signal(converted: Vec<HostValue>, host_error: Option<Vec<u8>>) -> (r: ApiResult)
    ensures
        host_error matches Some(e) ==> (r matches ApiResult::Abort(m) && m@ == e@),
        host_error is None ==> (r matches ApiResult::Values(vs) && vs@.len() == 0),
{
    match host_error {
        Option::Some(e) => {
            // the converted values are owned here and released on this path
            ApiResult::Abort(e)
        },
        Option::None => ApiResult::Values(Vec::new()),
    }
}

/// Converts every value of one pending signal back into the guest domain,
/// in order. The glue pops the signal from the queue only after this
/// conversion has produced all values.
pub fn convert_signal(values: &Vec<HostValue>) -> (r: Vec<GuestValue>)
    ensures
        r@.len() == values@.len(),
        forall|i: int|
            0 <= i < values@.len() ==> guest_view(r@[i]) == to_guest_spec(host_view(values@[i])),
{
    let mut out: Vec<GuestValue> = Vec::new();
    let mut i: usize = 0;
    while i < values.len()
        invariant
            i <= values@.len(),
            out@.len() == i,
            forall|j: int|
                0 <= j < i ==> guest_view(out@[j]) == to_guest_spec(host_view(values@[j])),
        decreases values@.len() - i,
    {
        let converted = to_guest(&values[i]);
        out.push(converted);
        i = i + 1;
    }
    out
}

/// Free memory as reported to the guest: the host's total minus live usage.
pub fn free_memory(total: usize, usage: usize) -> (r: usize)
    requires
        usage <= total,
    ensures
        r == total - usage,
{
    total - usage
}

/// The guest-facing permissive substring. The early paths — empty string,
/// zero stop, start past stop — hand back the empty string outright; only a
/// result that actually occupies bytes must fit the conservative string
/// reservation margin, failing which the guest call aborts as out of
/// memory.
pub fn unicode_sub_checked(
    s: &Vec<u8>,
    start: i64,
    stop: Option<i64>,
    usage: usize,
    quota: usize,
) -> (r: ApiResult)
    requires
        usage <= quota,
        s@.len() + 2 <= i64::MAX,
        2 * s@.len() + 64 <= usize::MAX,
    ensures
        ({
            let sub = substring_spec(
                s@,
                start as int,
                match stop {
                    Option::Some(v) => Option::Some(v as int),
                    Option::None => Option::None,
                },
            );
            &&& sub.len() == 0 ==> (r matches ApiResult::Values(vs) && vs@.len() == 1
                && guest_view(vs@[0]) == GuestVal::Str(Seq::empty()))
            &&& sub.len() > 0 && 2 * sub.len() + 64 <= quota - usage ==> (r matches
                ApiResult::Values(vs) && vs@.len() == 1 && guest_view(vs@[0]) == GuestVal::Str(
                sub,
            ))
            &&& sub.len() > 0 && 2 * sub.len() + 64 > quota - usage ==> (r matches
                ApiResult::Abort(m) && m@ == msg_out_of_memory())
        }),
{
    let sub = substring(s, start, stop);
    if sub.len() == 0 {
        proof {
            assert(sub@ =~= Seq::<u8>::empty());
        }
        let mut out: Vec<GuestValue> = Vec::new();
        out.push(GuestValue::Str(sub));
        return ApiResult::Values(out);
    }
    proof {
        crate::unicode::lemma_substring_len(
            s@,
            start as int,
            match stop {
                Option::Some(v) => Option::Some(v as int),
                Option::None => Option::None,
            },
        );
    }
    if string_reserve_ok(usage, quota, sub.len()) {
        let mut out: Vec<GuestValue> = Vec::new();
        out.push(GuestValue::Str(sub));
        ApiResult::Values(out)
    } else {
        ApiResult::Abort(str_bytes("out of memory"))
    }
}

/// The code points handed to the string constructor, read from integer
/// arguments; the guest's integer is truncated to 32 bits as the host's
/// code-point type demands.
pub open spec fn args_codepoints(args: Seq<GuestVal>) -> Seq<u32> {
    args.map_values(
        |v: GuestVal|
            match v {
                GuestVal::Int(x) => x as u32,
                _ => 0u32,
            },
    )
}

/// The guest-facing constructor of a string from code points. Every
/// argument must be an integer; the first that is not makes the call fail
/// with that argument's 0-based position. The guest receives the encoded
/// bytes as a NUL-terminated string, so a NUL code point ends what it can
/// observe.
pub fn unicode_char_checked(args: &Vec<GuestValue>) -> (r: Result<Vec<u8>, usize>)
    ensures
        r matches Err(i) ==> 0 <= i < args@.len() && !(guest_view(args@[i as int]) is Int)
            && forall|j: int| 0 <= j < i ==> guest_view(args@[j]) is Int,
        r is Ok <==> (forall|j: int| 0 <= j < args@.len() ==> guest_view(args@[j]) is Int),
        r matches Ok(b) ==> b@ == cstr_bytes(encode_all_spec(args_codepoints(guest_seq(args@)))),
{
    let mut cps: Vec<u32> = Vec::new();
    let mut i: usize = 0;
    proof {
        crate::value::lemma_guest_view_seq(args@);
    }
    while i < args.len()
        invariant
            i <= args@.len(),
            cps@.len() == i,
            forall|j: int| 0 <= j < i ==> guest_view(args@[j]) is Int,
            forall|j: int| 0 <= j < i ==> cps@[j] == args_codepoints(guest_seq(args@))[j],
        decreases args@.len() - i,
    {
        match &args[i] {
            GuestValue::Int(x) => {
                proof {
                    crate::value::lemma_guest_view_seq(args@);
                }
                cps.push(#[verifier::truncate] (*x as u32));
            },
            _ => {
                proof {
                    crate::value::lemma_guest_view_seq(args@);
                }
                return Err(i);
            },
        }
        i = i + 1;
    }
    let encoded = encode_codepoints(&cps);
    proof {
        assert(cps@ =~= args_codepoints(guest_seq(args@)));
    }
    Ok(crate::value::cstr_truncate(&encoded))
}

} // verus!
