//! The logic of the filters that this library adds to the template language:
//! `each`, `base64_encode` and `base64_decode`, and `json`.
use vstd::prelude::*;
use vstd::utf8::{decode_utf8, encode_utf8, encode_utf8_decode_utf8, encode_utf8_valid_utf8, valid_utf8};
use crate::value::{Context, LiquidM, LiquidValue};

verus! {

broadcast use vstd::string::group_string_axioms;

/// The name under which `each` binds the element in its sub-template.
pub open spec fn element_name() -> Seq<char> {
    seq!['e', 'l']
}

/// The `each` filter: evaluates a sub-template once per element of an array.
#[derive(Debug)]
pub struct Each {}

impl Each {
    pub fn new() -> (r: Self) {
        Each {  }
    }

    /// The contexts that the sub-template is evaluated against, one per
    /// element, each binding only `el` to its element. An input that is not
    /// an array is refused with the cause `Array expected`.
    pub fn element_contexts(&self, input: &LiquidValue) -> (r: Result<Vec<Context>, String>)
        ensures
            input@ is Array <==> r is Ok,
            r matches Ok(cs) ==> cs@.len() == input@->Array_0.len() && forall|i: int|
                0 <= i < cs@.len() ==> (#[trigger] cs@[i])@ == seq![
                    (element_name(), input@->Array_0[i]),
                ],
            r matches Err(m) ==> m@ == "Array expected"@,
    {
        match input {
            LiquidValue::Array(a) => {
                let mut cs: Vec<Context> = Vec::new();
                let mut i: usize = 0;
                while i < a.len()
                    invariant
                        input matches LiquidValue::Array(aa) && aa@ == a@,
                        i <= a@.len(),
                        cs@.len() == i,
                        forall|k: int|
                            0 <= k < i ==> (#[trigger] cs@[k])@ == seq![(element_name(), a@[k]@)],
                    decreases a@.len() - i,
                {
                    let name = "el".to_string();
                    proof {
                        reveal_strlit("el");
                    }
                    assert(name@ =~= element_name());
                    let mut entries: Vec<(String, LiquidValue)> = Vec::new();
                    entries.push((name, a[i].clone()));
                    let c = Context { entries };
                    assert(c@ =~= seq![(element_name(), a@[i as int]@)]);
                    cs.push(c);
                    i += 1;
                }
                assert(forall|k: int| 0 <= k < a@.len() ==> input@->Array_0[k] == a@[k]@);
                Ok(cs)
            },
            _ => Err("Array expected".to_string()),
        }
    }

    /// The filter's result: the texts that the sub-template gave, one per
    /// element and in order, as an array of strings.
    pub fn collect(&self, texts: Vec<String>) -> (r: LiquidValue)
        ensures
            r@ == LiquidM::Array(Seq::new(texts@.len(), |i: int| LiquidM::Str(texts@[i]@))),
    {
        let mut out: Vec<LiquidValue> = Vec::new();
        let mut i: usize = 0;
        while i < texts.len()
            invariant
                i <= texts@.len(),
                out@.len() == i,
                forall|k: int| 0 <= k < i ==> (#[trigger] out@[k])@ == LiquidM::Str(texts@[k]@),
            decreases texts@.len() - i,
        {
            out.push(LiquidValue::Str(texts[i].clone()));
            i += 1;
        }
        let r = LiquidValue::Array(out);
        assert(r@->Array_0 =~= Seq::new(texts@.len(), |i: int| LiquidM::Str(texts@[i]@)));
        r
    }
}

/// The characters of the standard, padded base64 encoding of `b`.
pub uninterp spec fn base64_encoded(b: Seq<u8>) -> Seq<char>;

/// The bytes that the text `s` decodes to as standard, padded base64, where
/// it is such a text.
pub uninterp spec fn base64_decoded(s: Seq<char>) -> Option<Seq<u8>>;

/// Relies on base64's `Engine::encode` with the `STANDARD` engine: the padded
/// encoding of the string's UTF-8 bytes, which the same engine decodes back.
#[verifier::external_body]
fn encode_standard(s: &str) -> (r: String)
    ensures
        r@ == base64_encoded(encode_utf8(s@)),
        base64_decoded(r@) == Some(encode_utf8(s@)),
{
    base64::Engine::encode(&base64::engine::general_purpose::STANDARD, s)
}

/// Relies on base64's `Engine::decode` with the `STANDARD` engine: the bytes,
/// or the decoder's message where the text is not padded standard base64.
#[verifier::external_body]
fn decode_standard(s: &str) -> (r: Result<Vec<u8>, String>)
    ensures
        match base64_decoded(s@) {
            Some(b) => r matches Ok(v) && v@ == b,
            None => r is Err,
        },
{
    base64::Engine::decode(&base64::engine::general_purpose::STANDARD, s).map_err(|e| e.to_string())
}

/// Relies on `String::from_utf8`: the text of valid UTF-8 bytes, else the
/// message of the error.
#[verifier::external_body]
fn text_from_utf8(b: Vec<u8>) -> (r: Result<String, String>)
    ensures
        r is Ok <==> valid_utf8(b@),
        r matches Ok(t) ==> t@ == decode_utf8(b@),
{
    String::from_utf8(b).map_err(|e| e.to_string())
}

/// The text that `s` decodes to: base64 whose bytes are UTF-8.
pub open spec fn base64_text(s: Seq<char>) -> Option<Seq<char>> {
    match base64_decoded(s) {
        Some(b) => if valid_utf8(b) {
            Some(decode_utf8(b))
        } else {
            None
        },
        None => None,
    }
}

/// The `base64_encode` filter on the text of its input. Decoding the result
/// gives that text back.
pub fn base64_encode(input: &str) -> (r: LiquidValue)
    ensures
        r@ == LiquidM::Str(base64_encoded(encode_utf8(input@))),
        base64_text(r@->Str_0) == Some(input@),
{
    let e = encode_standard(input);
    proof {
        encode_utf8_valid_utf8(input@);
        encode_utf8_decode_utf8(input@);
    }
    LiquidValue::Str(e)
}

/// The `base64_decode` filter on the text of its input: fails with the
/// decoder's message where the input is not base64 of UTF-8 text.
pub fn base64_decode(input: &str) -> (r: Result<LiquidValue, String>)
    ensures
        match base64_text(input@) {
            Some(t) => r matches Ok(v) && v@ == LiquidM::Str(t),
            None => r is Err,
        },
{
    match decode_standard(input) {
        Ok(bytes) => match text_from_utf8(bytes) {
            Ok(t) => Ok(LiquidValue::Str(t)),
            Err(m) => Err(m),
        },
        Err(m) => Err(m),
    }
}

} // verus!

verus! {

/// The strings that the `json` filter parses in `v`, in the order of a walk
/// that takes array items and object values in order.
pub open spec fn strings_in(v: LiquidM) -> Seq<Seq<char>>
    decreases v, 0int,
{
    match v {
        LiquidM::Str(s) => seq![s],
        LiquidM::Array(items) => strings_in_items(items, items.len() as int),
        LiquidM::Object(entries) => strings_in_entries(entries, entries.len() as int),
        _ => Seq::empty(),
    }
}

pub open spec fn strings_in_items(items: Seq<LiquidM>, n: int) -> Seq<Seq<char>>
    decreases items, n,
{
    if n <= 0 || n > items.len() {
        Seq::empty()
    } else {
        strings_in_items(items, n - 1) + strings_in(items[n - 1])
    }
}

pub open spec fn strings_in_entries(entries: Seq<(Seq<char>, LiquidM)>, n: int) -> Seq<Seq<char>>
    decreases entries, n,
{
    if n <= 0 || n > entries.len() {
        Seq::empty()
    } else {
        strings_in_entries(entries, n - 1) + strings_in(entries[n - 1].1)
    }
}

/// The result of the `json` filter on `v`, where `parsed` holds from
/// position `at` on what parsing each string of `strings_in(v)` as JSON gave.
/// Each string is replaced by its parsed value; the first failure is the
/// result.
pub open spec fn jsonified(v: LiquidM, parsed: Seq<Result<LiquidM, Seq<char>>>, at: int) -> Result<
    LiquidM,
    Seq<char>,
>
    decreases v, 0int,
{
    match v {
        LiquidM::Str(s) => parsed[at],
        LiquidM::Array(items) => match jsonified_items(items, parsed, at, items.len() as int) {
            Ok(vs) => Ok(LiquidM::Array(vs)),
            Err(e) => Err(e),
        },
        LiquidM::Object(entries) => match jsonified_entries(
            entries,
            parsed,
            at,
            entries.len() as int,
        ) {
            Ok(es) => Ok(LiquidM::Object(es)),
            Err(e) => Err(e),
        },
        _ => Ok(v),
    }
}

pub open spec fn jsonified_items(
    items: Seq<LiquidM>,
    parsed: Seq<Result<LiquidM, Seq<char>>>,
    at: int,
    n: int,
) -> Result<Seq<LiquidM>, Seq<char>>
    decreases items, n,
{
    if n <= 0 || n > items.len() {
        Ok(Seq::empty())
    } else {
        match jsonified_items(items, parsed, at, n - 1) {
            Err(e) => Err(e),
            Ok(vs) => match jsonified(
                items[n - 1],
                parsed,
                at + strings_in_items(items, n - 1).len(),
            ) {
                Err(e) => Err(e),
                Ok(v) => Ok(vs.push(v)),
            },
        }
    }
}

pub open spec fn jsonified_entries(
    entries: Seq<(Seq<char>, LiquidM)>,
    parsed: Seq<Result<LiquidM, Seq<char>>>,
    at: int,
    n: int,
) -> Result<Seq<(Seq<char>, LiquidM)>, Seq<char>>
    decreases entries, n,
{
    if n <= 0 || n > entries.len() {
        Ok(Seq::empty())
    } else {
        match jsonified_entries(entries, parsed, at, n - 1) {
            Err(e) => Err(e),
            Ok(es) => match jsonified(
                entries[n - 1].1,
                parsed,
                at + strings_in_entries(entries, n - 1).len(),
            ) {
                Err(e) => Err(e),
                Ok(v) => Ok(es.push((entries[n - 1].0, v))),
            },
        }
    }
}

pub open spec fn parsed_model(v: Seq<Result<LiquidValue, String>>) -> Seq<Result<LiquidM, Seq<char>>> {
    Seq::new(
        v.len(),
        |i: int|
            match v[i] {
                Ok(x) => Ok(x@),
                Err(e) => Err(e@),
            },
    )
}

pub open spec fn texts_model(v: Seq<String>) -> Seq<Seq<char>> {
    Seq::new(v.len(), |i: int| v[i]@)
}

proof fn lemma_items_len_mono(items: Seq<LiquidM>, i: int, j: int)
    requires
        0 <= i <= j <= items.len(),
    ensures
        strings_in_items(items, i).len() <= strings_in_items(items, j).len(),
    decreases j - i,
{
    if i < j {
        lemma_items_len_mono(items, i, j - 1);
    }
}

proof fn lemma_entries_len_mono(entries: Seq<(Seq<char>, LiquidM)>, i: int, j: int)
    requires
        0 <= i <= j <= entries.len(),
    ensures
        strings_in_entries(entries, i).len() <= strings_in_entries(entries, j).len(),
    decreases j - i,
{
    if i < j {
        lemma_entries_len_mono(entries, i, j - 1);
    }
}

proof fn lemma_items_err(
    items: Seq<LiquidM>,
    parsed: Seq<Result<LiquidM, Seq<char>>>,
    at: int,
    i: int,
    j: int,
)
    requires
        0 <= i <= j <= items.len(),
        jsonified_items(items, parsed, at, i) is Err,
    ensures
        jsonified_items(items, parsed, at, j) == jsonified_items(items, parsed, at, i),
    decreases j - i,
{
    if i < j {
        lemma_items_err(items, parsed, at, i, j - 1);
    }
}

proof fn lemma_entries_err(
    entries: Seq<(Seq<char>, LiquidM)>,
    parsed: Seq<Result<LiquidM, Seq<char>>>,
    at: int,
    i: int,
    j: int,
)
    requires
        0 <= i <= j <= entries.len(),
        jsonified_entries(entries, parsed, at, i) is Err,
    ensures
        jsonified_entries(entries, parsed, at, j) == jsonified_entries(entries, parsed, at, i),
    decreases j - i,
{
    if i < j {
        lemma_entries_err(entries, parsed, at, i, j - 1);
    }
}

fn collect_strings(v: &LiquidValue, out: &mut Vec<String>)
    ensures
        texts_model(final(out)@) == texts_model(old(out)@) + strings_in(v@),
    decreases v,
{
    match v {
        LiquidValue::Str(s) => {
            out.push(s.clone());
            assert(texts_model(out@) =~= texts_model(old(out)@) + strings_in(v@));
        },
        LiquidValue::Array(a) => {
            let ghost ims = v@->Array_0;
            let ghost start = texts_model(out@);
            let mut i: usize = 0;
            while i < a.len()
                invariant
                    v matches LiquidValue::Array(aa) && aa@ == a@,
                    ims == v@->Array_0,
                    i <= a@.len(),
                    texts_model(out@) == start + strings_in_items(ims, i as int),
                decreases a@.len() - i,
            {
                assert(ims[i as int] == a@[i as int]@);
                collect_strings(&a[i], out);
                assert(texts_model(out@) =~= start + strings_in_items(ims, i + 1));
                i += 1;
            }
            assert(start + strings_in(v@) =~= texts_model(out@));
        },
        LiquidValue::Object(o) => {
            let ghost es = v@->Object_0;
            let ghost start = texts_model(out@);
            let mut i: usize = 0;
            while i < o.len()
                invariant
                    v matches LiquidValue::Object(oo) && oo@ == o@,
                    es == v@->Object_0,
                    i <= o@.len(),
                    texts_model(out@) == start + strings_in_entries(es, i as int),
                decreases o@.len() - i,
            {
                assert(es[i as int] == (o@[i as int].0@, o@[i as int].1@));
                collect_strings(&o[i].1, out);
                assert(texts_model(out@) =~= start + strings_in_entries(es, i + 1));
                i += 1;
            }
            assert(start + strings_in(v@) =~= texts_model(out@));
        },
        _ => {
            assert(texts_model(out@) =~= texts_model(old(out)@) + strings_in(v@));
        },
    }
}

/// The strings that the `json` filter parses in `v`, in the order in which
/// [`jsonify`] expects what parsing them gave.
pub fn json_sources(v: &LiquidValue) -> (r: Vec<String>)
    ensures
        texts_model(r@) == strings_in(v@),
{
    let mut out: Vec<String> = Vec::new();
    assert(texts_model(out@) =~= Seq::empty());
    collect_strings(v, &mut out);
    assert(texts_model(out@) =~= strings_in(v@));
    out
}

fn jsonify_node(v: &LiquidValue, parsed: &Vec<Result<LiquidValue, String>>, pos: &mut usize) -> (r:
    Result<LiquidValue, String>)
    requires
        *old(pos) + strings_in(v@).len() <= parsed@.len(),
    ensures
        match jsonified(v@, parsed_model(parsed@), *old(pos) as int) {
            Ok(x) => r matches Ok(y) && y@ == x && *final(pos) == *old(pos) + strings_in(v@).len(),
            Err(e) => r matches Err(m) && m@ == e,
        },
    decreases v,
{
    let ghost pm = parsed_model(parsed@);
    match v {
        LiquidValue::Str(_) => {
            let p = &parsed[*pos];
            assert(pm[*pos as int] == match *p {
                Ok(x) => Ok::<LiquidM, Seq<char>>(x@),
                Err(e) => Err(e@),
            });
            assert(*pos < parsed.len());
            *pos += 1;
            match p {
                Ok(x) => Ok(x.clone()),
                Err(e) => Err(e.clone()),
            }
        },
        LiquidValue::Array(a) => {
            let ghost ims = v@->Array_0;
            let ghost pos0 = *pos as int;
            let mut out: Vec<LiquidValue> = Vec::new();
            let mut i: usize = 0;
            assert(Seq::new(out@.len(), |k: int| out@[k]@) =~= Seq::<LiquidM>::empty());
            while i < a.len()
                invariant
                    v matches LiquidValue::Array(aa) && aa@ == a@,
                    ims == v@->Array_0,
                    pm == parsed_model(parsed@),
                    i <= a@.len(),
                    pos0 == *old(pos),
                    pos0 + strings_in_items(ims, ims.len() as int).len() <= parsed@.len(),
                    *pos == pos0 + strings_in_items(ims, i as int).len(),
                    jsonified_items(ims, pm, pos0, i as int) == Ok::<Seq<LiquidM>, Seq<char>>(
                        Seq::new(out@.len(), |k: int| out@[k]@),
                    ),
                decreases a@.len() - i,
            {
                assert(ims[i as int] == a@[i as int]@);
                proof {
                    lemma_items_len_mono(ims, i + 1, ims.len() as int);
                }
                match jsonify_node(&a[i], parsed, pos) {
                    Ok(x) => {
                        out.push(x);
                        assert(Seq::new(out@.len(), |k: int| out@[k]@) =~= jsonified_items(
                            ims,
                            pm,
                            pos0,
                            i + 1,
                        )->Ok_0);
                    },
                    Err(e) => {
                        proof {
                            lemma_items_err(ims, pm, pos0, i + 1, ims.len() as int);
                        }
                        return Err(e);
                    },
                }
                i += 1;
            }
            let r = LiquidValue::Array(out);
            assert(r@->Array_0 =~= Seq::new(out@.len(), |k: int| out@[k]@));
            Ok(r)
        },
        LiquidValue::Object(o) => {
            let ghost es = v@->Object_0;
            let ghost pos0 = *pos as int;
            let mut out: Vec<(String, LiquidValue)> = Vec::new();
            let mut i: usize = 0;
            assert(Seq::new(out@.len(), |k: int| (out@[k].0@, out@[k].1@)) =~= Seq::<
                (Seq<char>, LiquidM),
            >::empty());
            while i < o.len()
                invariant
                    v matches LiquidValue::Object(oo) && oo@ == o@,
                    es == v@->Object_0,
                    pm == parsed_model(parsed@),
                    i <= o@.len(),
                    pos0 == *old(pos),
                    pos0 + strings_in_entries(es, es.len() as int).len() <= parsed@.len(),
                    *pos == pos0 + strings_in_entries(es, i as int).len(),
                    jsonified_entries(es, pm, pos0, i as int) == Ok::<
                        Seq<(Seq<char>, LiquidM)>,
                        Seq<char>,
                    >(Seq::new(out@.len(), |k: int| (out@[k].0@, out@[k].1@))),
                decreases o@.len() - i,
            {
                assert(es[i as int] == (o@[i as int].0@, o@[i as int].1@));
                proof {
                    lemma_entries_len_mono(es, i + 1, es.len() as int);
                }
                match jsonify_node(&o[i].1, parsed, pos) {
                    Ok(x) => {
                        out.push((o[i].0.clone(), x));
                        assert(Seq::new(out@.len(), |k: int| (out@[k].0@, out@[k].1@))
                            =~= jsonified_entries(es, pm, pos0, i + 1)->Ok_0);
                    },
                    Err(e) => {
                        proof {
                            lemma_entries_err(es, pm, pos0, i + 1, es.len() as int);
                        }
                        return Err(e);
                    },
                }
                i += 1;
            }
            let r = LiquidValue::Object(out);
            assert(r@->Object_0 =~= Seq::new(out@.len(), |k: int| (out@[k].0@, out@[k].1@)));
            Ok(r)
        },
        _ => Ok(v.clone()),
    }
}

/// The `json` filter: `v` with each string replaced by what parsing it as
/// JSON gave, where `parsed` holds those results in the order that
/// [`json_sources`] lists the strings. The first failure is the error.
pub fn jsonify(v: &LiquidValue, parsed: &Vec<Result<LiquidValue, String>>) -> (r: Result<
    LiquidValue,
    String,
>)
    requires
        parsed@.len() == strings_in(v@).len(),
    ensures
        match jsonified(v@, parsed_model(parsed@), 0) {
            Ok(x) => r matches Ok(y) && y@ == x,
            Err(e) => r matches Err(m) && m@ == e,
        },
{
    let mut pos: usize = 0;
    jsonify_node(v, parsed, &mut pos)
}

} // verus!
