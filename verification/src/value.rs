//! The value bridge: bidirectional conversion between the guest's dynamic
//! values and the host's tagged-union value type.
//!
//! The two domains are kept semantically equivalent under conversion.
//! Converting host to guest ([`to_guest`]) preserves every value kind the
//! guest can hold, turning host arrays into the guest table's dense 1-based
//! part and host associative tables into the guest table's hash part with
//! unique keys, last write winning. Converting guest to host ([`to_host`])
//! keeps nil, booleans, the two numeric subtypes and strings, and silently
//! truncates every other guest type — functions, threads, userdata, tables —
//! to host nil by design, never raising an error.

use vstd::prelude::*;

verus! {

broadcast use vstd::std_specs::vec::group_vec_axioms;

/// Mathematical model of a host value: the host engine's tagged union.
pub enum HostVal {
    Nil,
    Bool(bool),
    /// The guest's integer numeric subtype.
    Int(i64),
    /// The guest's float numeric subtype, carried as its raw bit pattern so
    /// that conversion is exact.
    Number(u64),
    /// A string with explicit byte length; may embed NUL bytes.
    Str(Seq<u8>),
    /// A NUL-terminated constant string: only the bytes before the first
    /// NUL are observable.
    CStr(Seq<u8>),
    /// A dense array, 0-based on the host side.
    Array(Seq<HostVal>),
    /// An associative table as a sequence of key/value pairs; insertion
    /// order is irrelevant and keys may repeat before conversion.
    Table(Seq<(HostVal, HostVal)>),
}

/// Mathematical model of a guest value.
pub enum GuestVal {
    Nil,
    Bool(bool),
    Int(i64),
    /// Float subtype, as its raw bit pattern.
    Number(u64),
    /// Guest strings are byte sequences, not validated text.
    Str(Seq<u8>),
    /// A guest table: a dense 1-based array part and an associative part
    /// whose keys are unique.
    Table { arr: Seq<GuestVal>, hash: Seq<(GuestVal, GuestVal)> },
    Function,
    Thread,
    Userdata,
}

/// A host-side tagged value.
pub enum HostValue {
    Nil,
    Bool(bool),
    Int(i64),
    Number(u64),
    Str(Vec<u8>),
    CStr(Vec<u8>),
    Array(Vec<HostValue>),
    Table(Vec<(HostValue, HostValue)>),
}

/// A guest-side dynamic value, as observed across the bridge.
pub enum GuestValue {
    Nil,
    Bool(bool),
    Int(i64),
    Number(u64),
    Str(Vec<u8>),
    Table(GuestTable),
    Function,
    Thread,
    Userdata,
}

/// A guest table under construction: the dense part holds positions
/// `1..=arr.len()`, the hash part the generically-set pairs.
pub struct GuestTable {
    pub arr: Vec<GuestValue>,
    pub hash: Vec<(GuestValue, GuestValue)>,
}

pub open spec fn host_view(v: HostValue) -> HostVal
    decreases v,
{
    match v {
        HostValue::Nil => HostVal::Nil,
        HostValue::Bool(b) => HostVal::Bool(b),
        HostValue::Int(i) => HostVal::Int(i),
        HostValue::Number(n) => HostVal::Number(n),
        HostValue::Str(s) => HostVal::Str(s@),
        HostValue::CStr(s) => HostVal::CStr(s@),
        HostValue::Array(vs) => HostVal::Array(host_view_seq(vs@)),
        HostValue::Table(ps) => HostVal::Table(host_view_pairs(ps@)),
    }
}

pub open spec fn host_view_seq(s: Seq<HostValue>) -> Seq<HostVal>
    decreases s,
{
    if s.len() == 0 {
        Seq::empty()
    } else {
        seq![host_view(s[0])] + host_view_seq(s.drop_first())
    }
}

pub open spec fn host_view_pairs(s: Seq<(HostValue, HostValue)>) -> Seq<(HostVal, HostVal)>
    decreases s,
{
    if s.len() == 0 {
        Seq::empty()
    } else {
        seq![(host_view(s[0].0), host_view(s[0].1))] + host_view_pairs(s.drop_first())
    }
}

impl View for HostValue {
    type V = HostVal;

    open spec fn view(&self) -> HostVal {
        host_view(*self)
    }
}

pub open spec fn guest_view(v: GuestValue) -> GuestVal
    decreases v,
{
    match v {
        GuestValue::Nil => GuestVal::Nil,
        GuestValue::Bool(b) => GuestVal::Bool(b),
        GuestValue::Int(i) => GuestVal::Int(i),
        GuestValue::Number(n) => GuestVal::Number(n),
        GuestValue::Str(s) => GuestVal::Str(s@),
        GuestValue::Table(t) => GuestVal::Table {
            arr: guest_view_seq(t.arr@),
            hash: guest_view_pairs(t.hash@),
        },
        GuestValue::Function => GuestVal::Function,
        GuestValue::Thread => GuestVal::Thread,
        GuestValue::Userdata => GuestVal::Userdata,
    }
}

pub open spec fn guest_view_seq(s: Seq<GuestValue>) -> Seq<GuestVal>
    decreases s,
{
    if s.len() == 0 {
        Seq::empty()
    } else {
        seq![guest_view(s[0])] + guest_view_seq(s.drop_first())
    }
}

pub open spec fn guest_view_pairs(s: Seq<(GuestValue, GuestValue)>) -> Seq<(GuestVal, GuestVal)>
    decreases s,
{
    if s.len() == 0 {
        Seq::empty()
    } else {
        seq![(guest_view(s[0].0), guest_view(s[0].1))] + guest_view_pairs(s.drop_first())
    }
}

impl View for GuestValue {
    type V = GuestVal;

    open spec fn view(&self) -> GuestVal {
        guest_view(*self)
    }
}

/// The observable bytes of a NUL-terminated string: everything before the
/// first NUL.
pub open spec fn cstr_bytes(s: Seq<u8>) -> Seq<u8>
    decreases s,
{
    if s.len() == 0 || s[0] == 0 {
        Seq::empty()
    } else {
        seq![s[0]] + cstr_bytes(s.drop_first())
    }
}

/// Guest-to-host conversion. Nil, booleans, both numeric subtypes and
/// strings cross the boundary exactly; every other guest type — tables,
/// functions, threads, userdata — degrades silently to host nil. That
/// truncation is a design choice, not an error.
pub open spec fn to_host_spec(v: GuestVal) -> HostVal {
    match v {
        GuestVal::Bool(b) => HostVal::Bool(b),
        GuestVal::Nil => HostVal::Nil,
        GuestVal::Str(s) => HostVal::Str(s),
        GuestVal::Int(i) => HostVal::Int(i),
        GuestVal::Number(n) => HostVal::Number(n),
        GuestVal::Table { .. } => HostVal::Nil,
        GuestVal::Function => HostVal::Nil,
        GuestVal::Thread => HostVal::Nil,
        GuestVal::Userdata => HostVal::Nil,
    }
}

/// Index of the first pair whose key equals `k`, or -1.
pub open spec fn find_key(pairs: Seq<(GuestVal, GuestVal)>, k: GuestVal) -> int
    decreases pairs.len(),
{
    if pairs.len() == 0 {
        -1
    } else if pairs[0].0 == k {
        0
    } else {
        let r = find_key(pairs.drop_first(), k);
        if r == -1 {
            -1
        } else {
            r + 1
        }
    }
}

pub proof fn lemma_find_key(pairs: Seq<(GuestVal, GuestVal)>, k: GuestVal)
    ensures
        find_key(pairs, k) == -1 ==> forall|i: int| 0 <= i < pairs.len() ==> pairs[i].0 != k,
        find_key(pairs, k) != -1 ==> {
            let r = find_key(pairs, k);
            &&& 0 <= r < pairs.len()
            &&& pairs[r].0 == k
            &&& forall|i: int| 0 <= i < r ==> pairs[i].0 != k
        },
    decreases pairs.len(),
{
    if pairs.len() > 0 && pairs[0].0 != k {
        lemma_find_key(pairs.drop_first(), k);
        let rest = pairs.drop_first();
        assert(forall|i: int| 0 <= i < rest.len() ==> rest[i] == pairs[i + 1]);
        if find_key(rest, k) == -1 {
            assert forall|i: int| 0 <= i < pairs.len() implies pairs[i].0 != k by {
                if i > 0 {
                    assert(pairs[i] == rest[i - 1]);
                }
            }
        } else {
            let r = find_key(rest, k);
            assert(pairs[r + 1] == rest[r]);
            assert forall|i: int| 0 <= i < r + 1 implies pairs[i].0 != k by {
                if i > 0 {
                    assert(pairs[i] == rest[i - 1]);
                }
            }
        }
    }
}

/// A generic table-set: overwrites the value at an existing equal key —
/// last write wins — and appends a fresh pair otherwise.
pub open spec fn table_put(
    pairs: Seq<(GuestVal, GuestVal)>,
    k: GuestVal,
    v: GuestVal,
) -> Seq<(GuestVal, GuestVal)> {
    let i = find_key(pairs, k);
    if i == -1 {
        pairs.push((k, v))
    } else {
        pairs.update(i, (k, v))
    }
}

/// No two pairs share a key.
pub open spec fn keys_unique(pairs: Seq<(GuestVal, GuestVal)>) -> bool {
    forall|i: int, j: int| 0 <= i < j < pairs.len() ==> pairs[i].0 != pairs[j].0
}

pub proof fn lemma_table_put_preserves_unique(
    pairs: Seq<(GuestVal, GuestVal)>,
    k: GuestVal,
    v: GuestVal,
)
    requires
        keys_unique(pairs),
    ensures
        keys_unique(table_put(pairs, k, v)),
{
    lemma_find_key(pairs, k);
    let i = find_key(pairs, k);
    if i == -1 {
        assert forall|a: int, b: int|
            0 <= a < b < table_put(pairs, k, v).len() implies table_put(pairs, k, v)[a].0
            != table_put(pairs, k, v)[b].0 by {
            if b == pairs.len() {
                assert(pairs[a].0 != k);
            }
        }
    } else {
        assert forall|a: int, b: int|
            0 <= a < b < table_put(pairs, k, v).len() implies table_put(pairs, k, v)[a].0
            != table_put(pairs, k, v)[b].0 by {
            if a == i {
                assert(pairs[b].0 != pairs[i].0);
            } else if b == i {
                assert(pairs[a].0 != pairs[i].0);
            }
        }
    }
}

/// Conversion of a host table's pairs, applied in order onto `acc`.
pub open spec fn put_pairs(
    acc: Seq<(GuestVal, GuestVal)>,
    ps: Seq<(HostVal, HostVal)>,
) -> Seq<(GuestVal, GuestVal)>
    decreases ps,
{
    if ps.len() == 0 {
        acc
    } else {
        put_pairs(table_put(acc, to_guest_spec(ps[0].0), to_guest_spec(ps[0].1)), ps.drop_first())
    }
}

pub proof fn lemma_put_pairs_preserves_unique(
    acc: Seq<(GuestVal, GuestVal)>,
    ps: Seq<(HostVal, HostVal)>,
)
    requires
        keys_unique(acc),
    ensures
        keys_unique(put_pairs(acc, ps)),
    decreases ps,
{
    if ps.len() > 0 {
        lemma_table_put_preserves_unique(acc, to_guest_spec(ps[0].0), to_guest_spec(ps[0].1));
        lemma_put_pairs_preserves_unique(
            table_put(acc, to_guest_spec(ps[0].0), to_guest_spec(ps[0].1)),
            ps.drop_first(),
        );
    }
}

/// Host-to-guest conversion: the host tag decides. Each numeric subtype is
/// preserved, a length-prefixed string crosses with its exact bytes, a
/// NUL-terminated string is read up to the terminator, an array becomes the
/// dense 1-based part of a fresh guest table with each element converted
/// recursively, and an associative table becomes the hash part via generic
/// table-sets, so that aliased keys collapse with the last write winning.
pub open spec fn to_guest_spec(v: HostVal) -> GuestVal
    decreases v,
{
    match v {
        HostVal::Nil => GuestVal::Nil,
        HostVal::Bool(b) => GuestVal::Bool(b),
        HostVal::Int(i) => GuestVal::Int(i),
        HostVal::Number(n) => GuestVal::Number(n),
        HostVal::Str(s) => GuestVal::Str(s),
        HostVal::CStr(s) => GuestVal::Str(cstr_bytes(s)),
        HostVal::Array(vs) => GuestVal::Table { arr: to_guest_seq(vs), hash: Seq::empty() },
        HostVal::Table(ps) => GuestVal::Table {
            arr: Seq::empty(),
            hash: put_pairs(Seq::empty(), ps),
        },
    }
}

pub open spec fn to_guest_seq(vs: Seq<HostVal>) -> Seq<GuestVal>
    decreases vs,
{
    if vs.len() == 0 {
        Seq::empty()
    } else {
        seq![to_guest_spec(vs[0])] + to_guest_seq(vs.drop_first())
    }
}

pub proof fn lemma_to_guest_seq(vs: Seq<HostVal>)
    ensures
        to_guest_seq(vs).len() == vs.len(),
        forall|i: int| 0 <= i < vs.len() ==> to_guest_seq(vs)[i] == to_guest_spec(vs[i]),
    decreases vs.len(),
{
    if vs.len() > 0 {
        lemma_to_guest_seq(vs.drop_first());
    }
}

/// The keys of a converted associative table are unique: aliased keys have
/// collapsed, the last write winning.
pub proof fn lemma_converted_table_keys_unique(ps: Seq<(HostVal, HostVal)>)
    ensures
        to_guest_spec(HostVal::Table(ps)) matches GuestVal::Table { arr, hash } && keys_unique(
            hash,
        ),
{
    lemma_put_pairs_preserves_unique(Seq::empty(), ps);
}

/// Host values that survive the round trip to the guest and back exactly:
/// nil, booleans, both numeric subtypes, and length-prefixed strings.
pub open spec fn round_trippable(v: HostVal) -> bool {
    match v {
        HostVal::Nil => true,
        HostVal::Bool(_) => true,
        HostVal::Int(_) => true,
        HostVal::Number(_) => true,
        HostVal::Str(_) => true,
        _ => false,
    }
}

/// Round-trip conversion: for every representable scalar or string host
/// value, converting to the guest domain and back is the identity. A host
/// array or table cannot round-trip, because guest tables deliberately
/// truncate to nil on the way back; a NUL-terminated string comes back as
/// the equivalent length-prefixed string, shown separately below.
pub proof fn lemma_round_trip(v: HostVal)
    requires
        round_trippable(v),
    ensures
        to_host_spec(to_guest_spec(v)) == v,
{
}

/// A NUL-terminated host string round-trips to the length-prefixed string
/// holding the same observable bytes.
pub proof fn lemma_cstr_round_trip(s: Seq<u8>)
    ensures
        to_host_spec(to_guest_spec(HostVal::CStr(s))) == HostVal::Str(cstr_bytes(s)),
{
}

/// A host array or table does not survive the round trip: it becomes a
/// guest table on the way out, and guest tables truncate to nil on the way
/// back.
pub proof fn lemma_container_round_trip_truncates(v: HostVal)
    requires
        v is Array || v is Table,
    ensures
        to_host_spec(to_guest_spec(v)) == HostVal::Nil,
{
}

/// Converting any unsupported guest value — a function, thread, userdata or
/// table — yields host nil, never an error.
pub proof fn lemma_unsupported_guest_truncates(v: GuestVal)
    requires
        !(v is Nil || v is Bool || v is Int || v is Number || v is Str),
    ensures
        to_host_spec(v) == HostVal::Nil,
{
}

/// `put_pairs` is a left fold: appending one more host pair applies one
/// more table-set.
pub proof fn lemma_put_pairs_snoc(
    acc: Seq<(GuestVal, GuestVal)>,
    ps: Seq<(HostVal, HostVal)>,
    p: (HostVal, HostVal),
)
    ensures
        put_pairs(acc, ps.push(p)) == table_put(
            put_pairs(acc, ps),
            to_guest_spec(p.0),
            to_guest_spec(p.1),
        ),
    decreases ps,
{
    if ps.len() == 0 {
        assert(ps.push(p).drop_first() =~= Seq::<(HostVal, HostVal)>::empty());
        assert(put_pairs(acc, ps.push(p)) == put_pairs(
            table_put(acc, to_guest_spec(p.0), to_guest_spec(p.1)),
            ps.push(p).drop_first(),
        ));
    } else {
        assert(ps.push(p).drop_first() =~= ps.drop_first().push(p));
        lemma_put_pairs_snoc(
            table_put(acc, to_guest_spec(ps[0].0), to_guest_spec(ps[0].1)),
            ps.drop_first(),
            p,
        );
    }
}

pub proof fn lemma_host_view_seq(s: Seq<HostValue>)
    ensures
        host_view_seq(s).len() == s.len(),
        forall|i: int| 0 <= i < s.len() ==> host_view_seq(s)[i] == host_view(s[i]),
    decreases s.len(),
{
    if s.len() > 0 {
        lemma_host_view_seq(s.drop_first());
    }
}

pub proof fn lemma_host_view_pairs(s: Seq<(HostValue, HostValue)>)
    ensures
        host_view_pairs(s).len() == s.len(),
        forall|i: int|
            0 <= i < s.len() ==> host_view_pairs(s)[i] == (host_view(s[i].0), host_view(s[i].1)),
    decreases s.len(),
{
    if s.len() > 0 {
        lemma_host_view_pairs(s.drop_first());
    }
}

pub proof fn lemma_guest_view_seq(s: Seq<GuestValue>)
    ensures
        guest_view_seq(s).len() == s.len(),
        forall|i: int| 0 <= i < s.len() ==> guest_view_seq(s)[i] == guest_view(s[i]),
    decreases s.len(),
{
    if s.len() > 0 {
        lemma_guest_view_seq(s.drop_first());
    }
}

pub proof fn lemma_guest_view_pairs(s: Seq<(GuestValue, GuestValue)>)
    ensures
        guest_view_pairs(s).len() == s.len(),
        forall|i: int|
            0 <= i < s.len() ==> guest_view_pairs(s)[i] == (
                guest_view(s[i].0),
                guest_view(s[i].1),
            ),
    decreases s.len(),
{
    if s.len() > 0 {
        lemma_guest_view_pairs(s.drop_first());
    }
}

/// An exact copy of a byte string.
pub fn copy_bytes(src: &Vec<u8>) -> (r: Vec<u8>)
    ensures
        r@ == src@,
{
    let mut out: Vec<u8> = Vec::new();
    let mut i: usize = 0;
    while i < src.len()
        invariant
            i <= src@.len(),
            out@ =~= src@.take(i as int),
        decreases src@.len() - i,
    {
        out.push(src[i]);
        i = i + 1;
    }
    proof {
        assert(out@ =~= src@);
    }
    out
}

pub proof fn lemma_cstr_bytes_prefix(s: Seq<u8>, p: int)
    requires
        0 <= p <= s.len(),
        forall|i: int| 0 <= i < p ==> s[i] != 0,
        p < s.len() ==> s[p] == 0,
    ensures
        cstr_bytes(s) == s.subrange(0, p),
    decreases s.len(),
{
    if p == 0 {
        assert(s.subrange(0, 0) =~= Seq::<u8>::empty());
    } else {
        let rest = s.drop_first();
        assert(forall|i: int| 0 <= i < rest.len() ==> rest[i] == s[i + 1]);
        lemma_cstr_bytes_prefix(rest, p - 1);
        assert(seq![s[0]] + rest.subrange(0, p - 1) =~= s.subrange(0, p));
    }
}

/// Reads a NUL-terminated string: the bytes before the first NUL.
pub fn cstr_truncate(src: &Vec<u8>) -> (r: Vec<u8>)
    ensures
        r@ == cstr_bytes(src@),
{
    let mut out: Vec<u8> = Vec::new();
    let mut i: usize = 0;
    while i < src.len()
        invariant
            i <= src@.len(),
            out@ =~= src@.take(i as int),
            forall|j: int| 0 <= j < i ==> src@[j] != 0,
        decreases src@.len() - i,
    {
        if src[i] == 0 {
            proof {
                lemma_cstr_bytes_prefix(src@, i as int);
                assert(out@ =~= src@.subrange(0, i as int));
            }
            return out;
        }
        out.push(src[i]);
        i = i + 1;
    }
    proof {
        lemma_cstr_bytes_prefix(src@, src@.len() as int);
        assert(out@ =~= src@.subrange(0, src@.len() as int));
    }
    out
}

/// Byte-string equality.
pub fn bytes_eq(x: &Vec<u8>, y: &Vec<u8>) -> (r: bool)
    ensures
        r == (x@ == y@),
{
    if x.len() != y.len() {
        return false;
    }
    let mut i: usize = 0;
    while i < x.len()
        invariant
            i <= x@.len(),
            x@.len() == y@.len(),
            forall|j: int| 0 <= j < i ==> x@[j] == y@[j],
        decreases x@.len() - i,
    {
        if x[i] != y[i] {
            return false;
        }
        i = i + 1;
    }
    proof {
        assert(x@ =~= y@);
    }
    true
}

/// Deep structural equality of two guest values, the equality under which
/// table keys collapse.
#[verifier::loop_isolation(false)]
pub fn guest_eq(a: &GuestValue, b: &GuestValue) -> (r: bool)
    ensures
        r == (a@ == b@),
    decreases *a,
{
    match (a, b) {
        (GuestValue::Nil, GuestValue::Nil) => true,
        (GuestValue::Bool(x), GuestValue::Bool(y)) => x == y,
        (GuestValue::Int(x), GuestValue::Int(y)) => x == y,
        (GuestValue::Number(x), GuestValue::Number(y)) => x == y,
        (GuestValue::Str(x), GuestValue::Str(y)) => bytes_eq(x, y),
        (GuestValue::Function, GuestValue::Function) => true,
        (GuestValue::Thread, GuestValue::Thread) => true,
        (GuestValue::Userdata, GuestValue::Userdata) => true,
        (GuestValue::Table(t1), GuestValue::Table(t2)) => {
            proof {
                lemma_guest_view_seq(t1.arr@);
                lemma_guest_view_seq(t2.arr@);
                lemma_guest_view_pairs(t1.hash@);
                lemma_guest_view_pairs(t2.hash@);
            }
            if t1.arr.len() != t2.arr.len() || t1.hash.len() != t2.hash.len() {
                return false;
            }
            let mut i: usize = 0;
            while i < t1.arr.len()
                invariant
                    i <= t1.arr@.len(),
                    t1.arr@.len() == t2.arr@.len(),
                    forall|j: int| 0 <= j < i ==> guest_view(t1.arr@[j]) == guest_view(t2.arr@[j]),
                decreases t1.arr@.len() - i,
            {
                if !guest_eq(&t1.arr[i], &t2.arr[i]) {
                    proof {
                        lemma_guest_view_seq(t1.arr@);
                        lemma_guest_view_seq(t2.arr@);
                        assert(guest_view_seq(t1.arr@)[i as int] != guest_view_seq(
                            t2.arr@,
                        )[i as int]);
                        assert(guest_view_seq(t1.arr@) != guest_view_seq(t2.arr@));
                    }
                    return false;
                }
                i = i + 1;
            }
            let mut j: usize = 0;
            while j < t1.hash.len()
                invariant
                    j <= t1.hash@.len(),
                    t1.hash@.len() == t2.hash@.len(),
                    forall|m: int|
                        0 <= m < j ==> guest_view(t1.hash@[m].0) == guest_view(t2.hash@[m].0)
                            && guest_view(t1.hash@[m].1) == guest_view(t2.hash@[m].1),
                decreases t1.hash@.len() - j,
            {
                if !guest_eq(&t1.hash[j].0, &t2.hash[j].0) {
                    proof {
                        lemma_guest_view_pairs(t1.hash@);
                        lemma_guest_view_pairs(t2.hash@);
                        assert(guest_view_pairs(t1.hash@)[j as int].0 != guest_view_pairs(
                            t2.hash@,
                        )[j as int].0);
                        assert(guest_view_pairs(t1.hash@) != guest_view_pairs(t2.hash@));
                        assert(a@ == GuestVal::Table {
                            arr: guest_view_seq(t1.arr@),
                            hash: guest_view_pairs(t1.hash@),
                        });
                        assert(b@ == GuestVal::Table {
                            arr: guest_view_seq(t2.arr@),
                            hash: guest_view_pairs(t2.hash@),
                        });
                    }
                    return false;
                }
                if !guest_eq(&t1.hash[j].1, &t2.hash[j].1) {
                    proof {
                        lemma_guest_view_pairs(t1.hash@);
                        lemma_guest_view_pairs(t2.hash@);
                        assert(guest_view_pairs(t1.hash@)[j as int].1 != guest_view_pairs(
                            t2.hash@,
                        )[j as int].1);
                        assert(guest_view_pairs(t1.hash@) != guest_view_pairs(t2.hash@));
                    }
                    return false;
                }
                j = j + 1;
            }
            proof {
                lemma_guest_view_seq(t1.arr@);
                lemma_guest_view_seq(t2.arr@);
                lemma_guest_view_pairs(t1.hash@);
                lemma_guest_view_pairs(t2.hash@);
                assert(guest_view_seq(t1.arr@) =~= guest_view_seq(t2.arr@));
                assert(guest_view_pairs(t1.hash@) =~= guest_view_pairs(t2.hash@));
            }
            true
        },
        _ => {
            proof {
                assert(a@ != b@);
            }
            false
        },
    }
}

/// Guest-to-host conversion, as performed when guest arguments cross into
/// the host engine. Truncation of unsupported guest kinds is silent.
pub fn to_host(v: &GuestValue) -> (r: HostValue)
    ensures
        r@ == to_host_spec(v@),
{
    match v {
        GuestValue::Bool(b) => HostValue::Bool(*b),
        GuestValue::Nil => HostValue::Nil,
        GuestValue::Str(s) => HostValue::Str(copy_bytes(s)),
        GuestValue::Int(i) => HostValue::Int(*i),
        GuestValue::Number(n) => HostValue::Number(*n),
        _ => HostValue::Nil,
    }
}

/// One generic table-set on a guest table's hash part: overwrites the value
/// at an existing equal key, appends otherwise.
#[verifier::loop_isolation(false)]
pub fn table_put_exec(pairs: &mut Vec<(GuestValue, GuestValue)>, k: GuestValue, v: GuestValue)
    ensures
        guest_view_pairs(final(pairs)@) == table_put(guest_view_pairs(old(pairs)@), k@, v@),
{
    let ghost orig = guest_view_pairs(pairs@);
    proof {
        lemma_guest_view_pairs(pairs@);
        lemma_find_key(orig, k@);
    }
    let mut i: usize = 0;
    while i < pairs.len()
        invariant
            i <= pairs@.len(),
            orig == guest_view_pairs(pairs@),
            orig.len() == pairs@.len(),
            forall|m: int|
                0 <= m < pairs@.len() ==> orig[m] == (
                    guest_view(pairs@[m].0),
                    guest_view(pairs@[m].1),
                ),
            forall|j: int| 0 <= j < i ==> orig[j].0 != k@,
        decreases pairs@.len() - i,
    {
        if guest_eq(&pairs[i].0, &k) {
            proof {
                lemma_find_key(orig, k@);
                assert(orig[i as int].0 == k@);
                let r = find_key(orig, k@);
                if r == -1 {
                    assert(orig[i as int].0 != k@);
                } else if r < i as int {
                    assert(orig[r].0 != k@);
                } else if r > i as int {
                    assert(orig[i as int].0 != k@);
                }
                assert(find_key(orig, k@) == i as int);
            }
            pairs[i] = (k, v);
            proof {
                lemma_guest_view_pairs(pairs@);
                assert(guest_view_pairs(pairs@) =~= orig.update(i as int, (k@, v@)));
            }
            return ;
        }
        i = i + 1;
    }
    proof {
        assert(find_key(orig, k@) == -1);
    }
    pairs.push((k, v));
    proof {
        lemma_guest_view_pairs(pairs@);
        assert(guest_view_pairs(pairs@) =~= orig.push((k@, v@)));
    }
}

/// Host-to-guest conversion, as performed when host results are handed back
/// to guest code.
#[verifier::loop_isolation(false)]
pub fn to_guest(v: &HostValue) -> (r: GuestValue)
    ensures
        r@ == to_guest_spec(v@),
    decreases *v,
{
    match v {
        HostValue::Nil => GuestValue::Nil,
        HostValue::Bool(b) => GuestValue::Bool(*b),
        HostValue::Int(i) => GuestValue::Int(*i),
        HostValue::Number(n) => GuestValue::Number(*n),
        HostValue::Str(s) => GuestValue::Str(copy_bytes(s)),
        HostValue::CStr(s) => GuestValue::Str(cstr_truncate(s)),
        HostValue::Array(vs) => {
            let mut arr: Vec<GuestValue> = Vec::new();
            let mut i: usize = 0;
            while i < vs.len()
                invariant
                    i <= vs@.len(),
                    arr@.len() == i,
                    forall|j: int|
                        0 <= j < i ==> guest_view(arr@[j]) == to_guest_spec(host_view(vs@[j])),
                decreases vs@.len() - i,
            {
                let converted = to_guest(&vs[i]);
                arr.push(converted);
                i = i + 1;
            }
            proof {
                lemma_guest_view_seq(arr@);
                lemma_host_view_seq(vs@);
                lemma_to_guest_seq(host_view_seq(vs@));
                assert(guest_view_seq(arr@) =~= to_guest_seq(host_view_seq(vs@)));
            }
            GuestValue::Table(GuestTable { arr, hash: Vec::new() })
        },
        HostValue::Table(ps) => {
            let mut hash: Vec<(GuestValue, GuestValue)> = Vec::new();
            let mut i: usize = 0;
            while i < ps.len()
                invariant
                    i <= ps@.len(),
                    guest_view_pairs(hash@) == put_pairs(
                        Seq::empty(),
                        host_view_pairs(ps@).take(i as int),
                    ),
                decreases ps@.len() - i,
            {
                let gk = to_guest(&ps[i].0);
                let gv = to_guest(&ps[i].1);
                proof {
                    lemma_host_view_pairs(ps@);
                    assert(host_view_pairs(ps@).take(i + 1 as int) =~= host_view_pairs(
                        ps@,
                    ).take(i as int).push(host_view_pairs(ps@)[i as int]));
                    lemma_put_pairs_snoc(
                        Seq::empty(),
                        host_view_pairs(ps@).take(i as int),
                        host_view_pairs(ps@)[i as int],
                    );
                }
                table_put_exec(&mut hash, gk, gv);
                i = i + 1;
            }
            proof {
                lemma_host_view_pairs(ps@);
                assert(host_view_pairs(ps@).take(ps@.len() as int) =~= host_view_pairs(ps@));
            }
            GuestValue::Table(GuestTable { arr: Vec::new(), hash })
        },
    }
}

} // verus!
