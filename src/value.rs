//! JSON documents and the values of the template engine, with their models.
use vstd::prelude::*;

verus! {

/// A JSON number: a non-negative integer, a negative integer, or a float
/// held as its IEEE 754 bit pattern.
#[derive(Clone, Copy, Debug, PartialEq, Eq, Structural)]
pub enum Number {
    PosInt(u64),
    NegInt(i64),
    Float(u64),
}

/// A JSON value. Object members keep their order.
#[derive(Debug)]
pub enum Json {
    Null,
    Bool(bool),
    Number(Number),
    String(String),
    Array(Vec<Json>),
    Object(Vec<(String, Json)>),
}

/// The mathematical model of a [`Json`] value.
pub enum JsonM {
    Null,
    Bool(bool),
    Number(Number),
    Str(Seq<char>),
    Array(Seq<JsonM>),
    Object(Seq<(Seq<char>, JsonM)>),
}

pub open spec fn json_model(j: Json) -> JsonM
    decreases j,
{
    match j {
        Json::Null => JsonM::Null,
        Json::Bool(b) => JsonM::Bool(b),
        Json::Number(n) => JsonM::Number(n),
        Json::String(s) => JsonM::Str(s@),
        Json::Array(v) => JsonM::Array(
            Seq::new(v@.len(), |i: int| if 0 <= i < v@.len() { json_model(v@[i]) } else { JsonM::Null }),
        ),
        Json::Object(v) => JsonM::Object(
            Seq::new(v@.len(), |i: int| if 0 <= i < v@.len() { (v@[i].0@, json_model(v@[i].1)) } else { (Seq::empty(), JsonM::Null) }),
        ),
    }
}

impl View for Json {
    type V = JsonM;

    open spec fn view(&self) -> JsonM {
        json_model(*self)
    }
}

/// A value of the template engine: nil, a scalar, an array or an object.
/// Object entries keep their order; where a key occurs twice the later entry
/// is the one that counts.
#[derive(Debug)]
pub enum LiquidValue {
    Nil,
    Bool(bool),
    Integer(i64),
    Float(u64),
    Str(String),
    Array(Vec<LiquidValue>),
    Object(Vec<(String, LiquidValue)>),
}

/// The mathematical model of a [`LiquidValue`].
pub enum LiquidM {
    Nil,
    Bool(bool),
    Integer(i64),
    Float(u64),
    Str(Seq<char>),
    Array(Seq<LiquidM>),
    Object(Seq<(Seq<char>, LiquidM)>),
}

pub open spec fn liquid_model(v: LiquidValue) -> LiquidM
    decreases v,
{
    match v {
        LiquidValue::Nil => LiquidM::Nil,
        LiquidValue::Bool(b) => LiquidM::Bool(b),
        LiquidValue::Integer(i) => LiquidM::Integer(i),
        LiquidValue::Float(f) => LiquidM::Float(f),
        LiquidValue::Str(s) => LiquidM::Str(s@),
        LiquidValue::Array(a) => LiquidM::Array(
            Seq::new(a@.len(), |i: int| if 0 <= i < a@.len() { liquid_model(a@[i]) } else { LiquidM::Nil }),
        ),
        LiquidValue::Object(o) => LiquidM::Object(
            Seq::new(o@.len(), |i: int| if 0 <= i < o@.len() { (o@[i].0@, liquid_model(o@[i].1)) } else { (Seq::empty(), LiquidM::Nil) }),
        ),
    }
}

impl View for LiquidValue {
    type V = LiquidM;

    open spec fn view(&self) -> LiquidM {
        liquid_model(*self)
    }
}

/// The data a template is evaluated against: named engine values.
#[derive(Debug)]
pub struct Context {
    pub entries: Vec<(String, LiquidValue)>,
}

pub open spec fn entries_model(e: Seq<(String, LiquidValue)>) -> Seq<(Seq<char>, LiquidM)> {
    Seq::new(e.len(), |i: int| (e[i].0@, e[i].1@))
}

impl View for Context {
    type V = Seq<(Seq<char>, LiquidM)>;

    open spec fn view(&self) -> Seq<(Seq<char>, LiquidM)> {
        entries_model(self.entries@)
    }
}

/// The value bound to `key`: that of the last entry with this key.
pub open spec fn lookup(c: Seq<(Seq<char>, LiquidM)>, key: Seq<char>) -> Option<LiquidM>
    decreases c.len(),
{
    if c.len() == 0 {
        None
    } else if c.last().0 == key {
        Some(c.last().1)
    } else {
        lookup(c.drop_last(), key)
    }
}

} // verus!

verus! {

impl Clone for Json {
    fn clone(&self) -> (r: Json)
        ensures
            r@ == self@,
        decreases self,
    {
        match self {
            Json::Null => Json::Null,
            Json::Bool(b) => Json::Bool(*b),
            Json::Number(n) => Json::Number(*n),
            Json::String(s) => Json::String(s.clone()),
            Json::Array(a) => {
                let mut out: Vec<Json> = Vec::new();
                let mut i: usize = 0;
                while i < a.len()
                    invariant
                        self matches Json::Array(aa) && aa@ == a@,
                        i <= a.len(),
                        out@.len() == i,
                        forall|k: int| 0 <= k < i ==> (#[trigger] out@[k])@ == a@[k]@,
                    decreases a.len() - i,
                {
                    out.push(a[i].clone());
                    i += 1;
                }
                let r = Json::Array(out);
                assert(r@->Array_0 =~= self@->Array_0);
                r
            },
            Json::Object(o) => {
                let mut out: Vec<(String, Json)> = Vec::new();
                let mut i: usize = 0;
                while i < o.len()
                    invariant
                        self matches Json::Object(oo) && oo@ == o@,
                        i <= o.len(),
                        out@.len() == i,
                        forall|k: int| 0 <= k < i ==> (#[trigger] out@[k]).0@ == o@[k].0@,
                        forall|k: int| 0 <= k < i ==> (#[trigger] out@[k]).1@ == o@[k].1@,
                    decreases o.len() - i,
                {
                    out.push((o[i].0.clone(), o[i].1.clone()));
                    i += 1;
                }
                let r = Json::Object(out);
                assert(r@->Object_0 =~= self@->Object_0);
                r
            },
        }
    }
}

} // verus!

verus! {

impl Clone for LiquidValue {
    fn clone(&self) -> (r: LiquidValue)
        ensures
            r@ == self@,
        decreases self,
    {
        match self {
            LiquidValue::Nil => LiquidValue::Nil,
            LiquidValue::Bool(b) => LiquidValue::Bool(*b),
            LiquidValue::Integer(i) => LiquidValue::Integer(*i),
            LiquidValue::Float(f) => LiquidValue::Float(*f),
            LiquidValue::Str(s) => LiquidValue::Str(s.clone()),
            LiquidValue::Array(a) => {
                let mut out: Vec<LiquidValue> = Vec::new();
                let mut i: usize = 0;
                while i < a.len()
                    invariant
                        self matches LiquidValue::Array(aa) && aa@ == a@,
                        i <= a.len(),
                        out@.len() == i,
                        forall|k: int| 0 <= k < i ==> (#[trigger] out@[k])@ == a@[k]@,
                    decreases a.len() - i,
                {
                    out.push(a[i].clone());
                    i += 1;
                }
                let r = LiquidValue::Array(out);
                assert(r@->Array_0 =~= self@->Array_0);
                r
            },
            LiquidValue::Object(o) => {
                let mut out: Vec<(String, LiquidValue)> = Vec::new();
                let mut i: usize = 0;
                while i < o.len()
                    invariant
                        self matches LiquidValue::Object(oo) && oo@ == o@,
                        i <= o.len(),
                        out@.len() == i,
                        forall|k: int| 0 <= k < i ==> (#[trigger] out@[k]).0@ == o@[k].0@,
                        forall|k: int| 0 <= k < i ==> (#[trigger] out@[k]).1@ == o@[k].1@,
                    decreases o.len() - i,
                {
                    out.push((o[i].0.clone(), o[i].1.clone()));
                    i += 1;
                }
                let r = LiquidValue::Object(out);
                assert(r@->Object_0 =~= self@->Object_0);
                r
            },
        }
    }
}

} // verus!
