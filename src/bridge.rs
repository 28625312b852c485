//! Conversion between JSON values and the engine's values.
use vstd::prelude::*;
use crate::error::Error;
use crate::value::{Context, Json, JsonM, LiquidM, LiquidValue, Number};

verus! {

/// The engine value of a JSON number, where there is one: an integer above
/// `i64::MAX` has none.
pub open spec fn number_to_liquid(n: Number) -> Option<LiquidM> {
    match n {
        Number::PosInt(u) => if u <= i64::MAX as u64 { Some(LiquidM::Integer(u as i64)) } else { None },
        Number::NegInt(i) => Some(LiquidM::Integer(i)),
        Number::Float(f) => Some(LiquidM::Float(f)),
    }
}

/// Whether every number in `j` has an engine value.
pub open spec fn convertible(j: JsonM) -> bool
    decreases j,
{
    match j {
        JsonM::Number(n) => number_to_liquid(n) is Some,
        JsonM::Array(a) => all_convertible(a),
        JsonM::Object(o) => all_values_convertible(o),
        _ => true,
    }
}

pub open spec fn all_convertible(s: Seq<JsonM>) -> bool
    decreases s,
{
    if s.len() == 0 {
        true
    } else {
        all_convertible(s.subrange(0, s.len() - 1)) && convertible(s[s.len() - 1])
    }
}

pub open spec fn all_values_convertible(s: Seq<(Seq<char>, JsonM)>) -> bool
    decreases s,
{
    if s.len() == 0 {
        true
    } else {
        all_values_convertible(s.subrange(0, s.len() - 1)) && convertible(s[s.len() - 1].1)
    }
}

/// The engine value of a JSON value whose numbers all convert.
pub open spec fn to_liquid(j: JsonM) -> LiquidM
    decreases j,
{
    match j {
        JsonM::Null => LiquidM::Nil,
        JsonM::Bool(b) => LiquidM::Bool(b),
        JsonM::Number(n) => match number_to_liquid(n) {
            Some(v) => v,
            None => LiquidM::Nil,
        },
        JsonM::Str(s) => LiquidM::Str(s),
        JsonM::Array(a) => LiquidM::Array(
            Seq::new(a.len(), |i: int| if 0 <= i < a.len() { to_liquid(a[i]) } else { LiquidM::Nil }),
        ),
        JsonM::Object(o) => LiquidM::Object(
            Seq::new(o.len(), |i: int| if 0 <= i < o.len() { (o[i].0, to_liquid(o[i].1)) } else { (Seq::empty(), LiquidM::Nil) }),
        ),
    }
}

} // verus!

verus! {

/// Whether the IEEE 754 bit pattern `bits` is a finite float.
pub open spec fn is_finite_bits(bits: u64) -> bool {
    (bits >> 52u64) & 0x7ffu64 != 0x7ffu64
}

/// The JSON value of an engine value. A float that is not finite has no JSON
/// number and becomes null.
pub open spec fn to_json(v: LiquidM) -> JsonM
    decreases v,
{
    match v {
        LiquidM::Nil => JsonM::Null,
        LiquidM::Bool(b) => JsonM::Bool(b),
        LiquidM::Integer(i) => JsonM::Number(
            if i >= 0 { Number::PosInt(i as u64) } else { Number::NegInt(i) },
        ),
        LiquidM::Float(f) => if is_finite_bits(f) { JsonM::Number(Number::Float(f)) } else { JsonM::Null },
        LiquidM::Str(s) => JsonM::Str(s),
        LiquidM::Array(a) => JsonM::Array(
            Seq::new(a.len(), |i: int| if 0 <= i < a.len() { to_json(a[i]) } else { JsonM::Null }),
        ),
        LiquidM::Object(o) => JsonM::Object(
            Seq::new(o.len(), |i: int| if 0 <= i < o.len() { (o[i].0, to_json(o[i].1)) } else { (Seq::empty(), JsonM::Null) }),
        ),
    }
}

proof fn lemma_convertible_array(s: Seq<JsonM>)
    ensures
        convertible(JsonM::Array(s)) <==> forall|k: int| 0 <= k < s.len() ==> #[trigger] convertible(s[k]),
    decreases s.len(),
{
    if s.len() > 0 {
        let p = s.subrange(0, s.len() - 1);
        lemma_convertible_array(p);
        assert(convertible(JsonM::Array(p)) == all_convertible(p));
        assert(convertible(JsonM::Array(s)) == (all_convertible(p) && convertible(s[s.len() - 1])));
        if forall|k: int| 0 <= k < s.len() ==> #[trigger] convertible(s[k]) {
            assert forall|k: int| 0 <= k < p.len() implies #[trigger] convertible(p[k]) by {
                assert(p[k] == s[k]);
            }
        }
        if convertible(JsonM::Array(s)) {
            assert forall|k: int| 0 <= k < s.len() implies #[trigger] convertible(s[k]) by {
                if k < p.len() {
                    assert(p[k] == s[k]);
                }
            }
        }
    }
}

proof fn lemma_convertible_object(s: Seq<(Seq<char>, JsonM)>)
    ensures
        convertible(JsonM::Object(s)) <==> forall|k: int| 0 <= k < s.len() ==> #[trigger] convertible(s[k].1),
    decreases s.len(),
{
    if s.len() > 0 {
        let p = s.subrange(0, s.len() - 1);
        lemma_convertible_object(p);
        assert(convertible(JsonM::Object(p)) == all_values_convertible(p));
        assert(convertible(JsonM::Object(s)) == (all_values_convertible(p) && convertible(s[s.len() - 1].1)));
        if forall|k: int| 0 <= k < s.len() ==> #[trigger] convertible(s[k].1) {
            assert forall|k: int| 0 <= k < p.len() implies #[trigger] convertible(p[k].1) by {
                assert(p[k] == s[k]);
            }
        }
        if convertible(JsonM::Object(s)) {
            assert forall|k: int| 0 <= k < s.len() implies #[trigger] convertible(s[k].1) by {
                if k < p.len() {
                    assert(p[k] == s[k]);
                }
            }
        }
    }
}

/// The engine value of a JSON value; fails with [`Error::U64`] exactly when
/// the value holds an integer above `i64::MAX`.
pub fn to_liquid_value(j: &Json) -> (r: Result<LiquidValue, Error>)
    ensures
        r is Ok <==> convertible(j@),
        r matches Ok(v) ==> v@ == to_liquid(j@),
        r matches Err(e) ==> e is U64,
    decreases j,
{
    match j {
        Json::Null => Ok(LiquidValue::Nil),
        Json::Bool(b) => Ok(LiquidValue::Bool(*b)),
        Json::Number(n) => match n {
            Number::PosInt(u) => {
                if *u <= i64::MAX as u64 {
                    Ok(LiquidValue::Integer(*u as i64))
                } else {
                    Err(Error::U64)
                }
            },
            Number::NegInt(i) => Ok(LiquidValue::Integer(*i)),
            Number::Float(f) => Ok(LiquidValue::Float(*f)),
        },
        Json::String(s) => Ok(LiquidValue::Str(s.clone())),
        Json::Array(a) => {
            let ghost jm = j@;
            let mut out: Vec<LiquidValue> = Vec::new();
            let mut i: usize = 0;
            while i < a.len()
                invariant
                    jm == j@,
                    j matches Json::Array(aa) && aa@ == a@,
                    i <= a.len(),
                    out@.len() == i,
                    forall|k: int| 0 <= k < i ==> convertible(#[trigger] a@[k]@),
                    forall|k: int| 0 <= k < i ==> (#[trigger] out@[k])@ == to_liquid(a@[k]@),
                decreases a.len() - i,
            {
                match to_liquid_value(&a[i]) {
                    Ok(v) => {
                        out.push(v);
                    },
                    Err(e) => {
                        proof {
                            lemma_convertible_array(jm->Array_0);
                            assert(jm->Array_0[i as int] == a@[i as int]@);
                        }
                        return Err(e);
                    },
                }
                i += 1;
            }
            proof {
                lemma_convertible_array(jm->Array_0);
                assert(forall|k: int| 0 <= k < a@.len() ==> jm->Array_0[k] == a@[k]@);
            }
            let r = LiquidValue::Array(out);
            assert(r@ == to_liquid(j@)) by {
                if let JsonM::Array(ms) = j@ {
                    assert(ms.len() == a@.len());
                    assert(forall|k: int| 0 <= k < a@.len() ==> ms[k] == a@[k]@);
                    let lhs = r@->Array_0;
                    let rhs = to_liquid(j@)->Array_0;
                    assert(lhs =~= rhs);
                }
            }
            Ok(r)
        },
        Json::Object(o) => {
            let ghost jm = j@;
            let mut out: Vec<(String, LiquidValue)> = Vec::new();
            let mut i: usize = 0;
            while i < o.len()
                invariant
                    jm == j@,
                    j matches Json::Object(oo) && oo@ == o@,
                    i <= o.len(),
                    out@.len() == i,
                    forall|k: int| 0 <= k < i ==> convertible(#[trigger] o@[k].1@),
                    forall|k: int| 0 <= k < i ==> (#[trigger] out@[k]).0@ == o@[k].0@,
                    forall|k: int| 0 <= k < i ==> (#[trigger] out@[k]).1@ == to_liquid(o@[k].1@),
                decreases o.len() - i,
            {
                match to_liquid_value(&o[i].1) {
                    Ok(v) => {
                        out.push((o[i].0.clone(), v));
                    },
                    Err(e) => {
                        proof {
                            lemma_convertible_object(jm->Object_0);
                            assert(jm->Object_0[i as int].1 == o@[i as int].1@);
                        }
                        return Err(e);
                    },
                }
                i += 1;
            }
            proof {
                lemma_convertible_object(jm->Object_0);
                assert(forall|k: int| 0 <= k < o@.len() ==> jm->Object_0[k].1 == o@[k].1@);
            }
            let r = LiquidValue::Object(out);
            assert(r@ == to_liquid(j@)) by {
                if let JsonM::Object(ms) = j@ {
                    assert(ms.len() == o@.len());
                    assert(forall|k: int| 0 <= k < o@.len() ==> ms[k] == (o@[k].0@, o@[k].1@));
                    let lhs = r@->Object_0;
                    let rhs = to_liquid(j@)->Object_0;
                    assert(lhs =~= rhs);
                }
            }
            Ok(r)
        },
    }
}

} // verus!

verus! {

/// The JSON value of an engine value.
pub fn to_json_value(v: &LiquidValue) -> (r: Json)
    ensures
        r@ == to_json(v@),
    decreases v,
{
    match v {
        LiquidValue::Nil => Json::Null,
        LiquidValue::Bool(b) => Json::Bool(*b),
        LiquidValue::Integer(i) => {
            if *i >= 0 {
                Json::Number(Number::PosInt(*i as u64))
            } else {
                Json::Number(Number::NegInt(*i))
            }
        },
        LiquidValue::Float(f) => {
            if (*f >> 52u64) & 0x7ffu64 != 0x7ffu64 {
                Json::Number(Number::Float(*f))
            } else {
                Json::Null
            }
        },
        LiquidValue::Str(s) => Json::String(s.clone()),
        LiquidValue::Array(a) => {
            let mut out: Vec<Json> = Vec::new();
            let mut i: usize = 0;
            while i < a.len()
                invariant
                    v matches LiquidValue::Array(aa) && aa@ == a@,
                    i <= a.len(),
                    out@.len() == i,
                    forall|k: int| 0 <= k < i ==> (#[trigger] out@[k])@ == to_json(a@[k]@),
                decreases a.len() - i,
            {
                out.push(to_json_value(&a[i]));
                i += 1;
            }
            let r = Json::Array(out);
            assert(r@->Array_0 =~= to_json(v@)->Array_0);
            r
        },
        LiquidValue::Object(o) => {
            let mut out: Vec<(String, Json)> = Vec::new();
            let mut i: usize = 0;
            while i < o.len()
                invariant
                    v matches LiquidValue::Object(oo) && oo@ == o@,
                    i <= o.len(),
                    out@.len() == i,
                    forall|k: int| 0 <= k < i ==> (#[trigger] out@[k]).0@ == o@[k].0@,
                    forall|k: int| 0 <= k < i ==> (#[trigger] out@[k]).1@ == to_json(o@[k].1@),
                decreases o.len() - i,
            {
                out.push((o[i].0.clone(), to_json_value(&o[i].1)));
                i += 1;
            }
            let r = Json::Object(out);
            assert(r@->Object_0 =~= to_json(v@)->Object_0);
            r
        },
    }
}

/// The context of a render: the entries of the data object as engine values.
pub open spec fn context_of(data: JsonM) -> Seq<(Seq<char>, LiquidM)>
    recommends
        data is Object,
{
    to_liquid(data)->Object_0
}

/// Builds the context of a render from its data, which must be a JSON object
/// whose numbers the engine can hold.
pub fn to_liquid_obj(data: &Json) -> (r: Result<Context, Error>)
    ensures
        data@ !is Object ==> (r matches Err(Error::InvalidContext(d)) && d@ == data@),
        data@ is Object && !convertible(data@) ==> (r matches Err(e) && e is U64),
        data@ is Object && convertible(data@) ==> (r matches Ok(c) && c@ == context_of(data@)),
{
    match data {
        Json::Object(_) => match to_liquid_value(data) {
            Ok(LiquidValue::Object(entries)) => {
                let c = Context { entries };
                assert(c@ =~= context_of(data@));
                Ok(c)
            },
            Ok(_) => {
                assert(false);
                Err(Error::U64)
            },
            Err(e) => Err(e),
        },
        _ => Err(Error::InvalidContext(data.clone())),
    }
}

} // verus!

verus! {

/// Whether `n` is in the form that JSON parsing gives: a non-negative
/// integer as `PosInt`, a negative one as `NegInt`, a float finite.
pub open spec fn canonical_number(n: Number) -> bool {
    match n {
        Number::PosInt(_) => true,
        Number::NegInt(i) => i < 0,
        Number::Float(f) => is_finite_bits(f),
    }
}

/// Whether every number in `j` is canonical and has an engine value.
pub open spec fn canonical(j: JsonM) -> bool
    decreases j, 0int,
{
    match j {
        JsonM::Number(n) => canonical_number(n) && number_to_liquid(n) is Some,
        JsonM::Array(a) => canonical_items(a, a.len() as int),
        JsonM::Object(o) => canonical_values(o, o.len() as int),
        _ => true,
    }
}

pub open spec fn canonical_items(s: Seq<JsonM>, n: int) -> bool
    decreases s, n,
{
    if n <= 0 || n > s.len() {
        true
    } else {
        canonical_items(s, n - 1) && canonical(s[n - 1])
    }
}

pub open spec fn canonical_values(s: Seq<(Seq<char>, JsonM)>, n: int) -> bool
    decreases s, n,
{
    if n <= 0 || n > s.len() {
        true
    } else {
        canonical_values(s, n - 1) && canonical(s[n - 1].1)
    }
}

proof fn lemma_canonical_items(s: Seq<JsonM>, n: int, k: int)
    requires
        0 <= k < n <= s.len(),
        canonical_items(s, n),
    ensures
        canonical(s[k]),
    decreases n,
{
    if k < n - 1 {
        lemma_canonical_items(s, n - 1, k);
    }
}

proof fn lemma_canonical_values(s: Seq<(Seq<char>, JsonM)>, n: int, k: int)
    requires
        0 <= k < n <= s.len(),
        canonical_values(s, n),
    ensures
        canonical(s[k].1),
    decreases n,
{
    if k < n - 1 {
        lemma_canonical_values(s, n - 1, k);
    }
}

/// A JSON value in canonical form comes back unchanged from the engine's
/// value model: integers stay integers and keep their value, floats keep
/// their bits, and arrays and objects keep their order.
pub proof fn lemma_round_trip(j: JsonM)
    requires
        canonical(j),
    ensures
        to_json(to_liquid(j)) == j,
    decreases j, 0int,
{
    match j {
        JsonM::Number(n) => {},
        JsonM::Array(a) => {
            let back = to_json(to_liquid(j))->Array_0;
            assert forall|k: int| 0 <= k < a.len() implies back[k] == a[k] by {
                lemma_canonical_items(a, a.len() as int, k);
                lemma_round_trip(a[k]);
            }
            assert(back =~= a);
        },
        JsonM::Object(o) => {
            let back = to_json(to_liquid(j))->Object_0;
            assert forall|k: int| 0 <= k < o.len() implies back[k] == o[k] by {
                lemma_canonical_values(o, o.len() as int, k);
                lemma_round_trip(o[k].1);
            }
            assert(back =~= o);
        },
        _ => {},
    }
}

} // verus!
