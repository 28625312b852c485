//! The tree walk that turns a JSON template and a context into a rendered
//! JSON document.
//!
//! A string node that is a bare reference to a context entry takes that
//! entry's value. Every other string, and every object key, is source for
//! the template engine: [`LiquidJson::requests`] lists those sources in the
//! order of the walk, and [`LiquidJson::render`] assembles the document from
//! what the engine gave for each of them, in the same order.
use vstd::prelude::*;
use crate::bridge::{to_json, to_json_value};
use crate::error::Error;
use crate::single::{single_reference, single_value};
use crate::value::{lookup, Context, Json, JsonM, LiquidM, LiquidValue};

verus! {

/// What the engine gave for one source: its text, and the value that the
/// `output` filter captured while it ran, if it did.
#[derive(Debug)]
pub struct Rendered {
    pub text: String,
    pub captured: Option<LiquidValue>,
}

/// The model of one evaluation: text and capture, or the engine's message.
pub type OutcomeM = Result<(Seq<char>, Option<LiquidM>), Seq<char>>;

pub open spec fn outcome_model(o: Result<Rendered, String>) -> OutcomeM {
    match o {
        Ok(r) => Ok(
            (r.text@, match r.captured {
                Some(v) => Some(v@),
                None => None,
            }),
        ),
        Err(e) => Err(e@),
    }
}

pub open spec fn outcomes_model(v: Seq<Result<Rendered, String>>) -> Seq<OutcomeM> {
    Seq::new(v.len(), |i: int| outcome_model(v[i]))
}

pub open spec fn strings_model(v: Seq<String>) -> Seq<Seq<char>> {
    Seq::new(v.len(), |i: int| v[i]@)
}

pub open spec fn members_model(v: Seq<(String, Json)>) -> Seq<(Seq<char>, JsonM)> {
    Seq::new(v.len(), |i: int| (v[i].0@, v[i].1@))
}

/// The value that a string node takes without the engine: that of the
/// context entry it names, where it is a bare reference to one.
pub open spec fn direct(s: Seq<char>, ctx: Seq<(Seq<char>, LiquidM)>) -> Option<LiquidM> {
    match single_reference(s) {
        Some(k) => lookup(ctx, k),
        None => None,
    }
}

/// The result of a string node that the engine evaluated: the captured
/// value where there is one, else the text.
pub open spec fn node_result(o: OutcomeM) -> Result<JsonM, Seq<char>> {
    match o {
        Ok((text, Some(v))) => Ok(to_json(v)),
        Ok((text, None)) => Ok(JsonM::Str(text)),
        Err(e) => Err(e),
    }
}

/// The sources in `t` that the engine evaluates, in the order of the walk:
/// for an object member its key, then those of its value.
pub open spec fn requests_of(t: JsonM, ctx: Seq<(Seq<char>, LiquidM)>) -> Seq<Seq<char>>
    decreases t, 0int,
{
    match t {
        JsonM::Str(s) => if direct(s, ctx) is Some {
            Seq::empty()
        } else {
            seq![s]
        },
        JsonM::Array(items) => requests_items(items, ctx, items.len() as int),
        JsonM::Object(members) => requests_members(members, ctx, members.len() as int),
        _ => Seq::empty(),
    }
}

/// The sources of the first `n` items.
pub open spec fn requests_items(items: Seq<JsonM>, ctx: Seq<(Seq<char>, LiquidM)>, n: int) -> Seq<
    Seq<char>,
>
    decreases items, n,
{
    if n <= 0 || n > items.len() {
        Seq::empty()
    } else {
        requests_items(items, ctx, n - 1) + requests_of(items[n - 1], ctx)
    }
}

/// The sources of the first `n` members.
pub open spec fn requests_members(
    members: Seq<(Seq<char>, JsonM)>,
    ctx: Seq<(Seq<char>, LiquidM)>,
    n: int,
) -> Seq<Seq<char>>
    decreases members, n,
{
    if n <= 0 || n > members.len() {
        Seq::empty()
    } else {
        requests_members(members, ctx, n - 1) + seq![members[n - 1].0] + requests_of(
            members[n - 1].1,
            ctx,
        )
    }
}

/// The position of the last member with key `k`, or -1.
pub open spec fn key_index(ps: Seq<(Seq<char>, JsonM)>, k: Seq<char>) -> int
    decreases ps.len(),
{
    if ps.len() == 0 {
        -1
    } else if ps.last().0 == k {
        ps.len() - 1
    } else {
        key_index(ps.drop_last(), k)
    }
}

/// Members after a member `(k, v)` is added: it takes the place of a member
/// with the same key, else it comes last.
pub open spec fn put(ps: Seq<(Seq<char>, JsonM)>, k: Seq<char>, v: JsonM) -> Seq<(Seq<char>, JsonM)> {
    let i = key_index(ps, k);
    if i >= 0 {
        ps.update(i, (k, v))
    } else {
        ps.push((k, v))
    }
}

/// The rendering of `t`, where `outs` holds from position `at` on what the
/// engine gave for the sources of `t`, in order. The first failure in the
/// order of the walk is the result.
pub open spec fn rendered_of(
    t: JsonM,
    ctx: Seq<(Seq<char>, LiquidM)>,
    outs: Seq<OutcomeM>,
    at: int,
) -> Result<JsonM, Seq<char>>
    decreases t, 0int,
{
    match t {
        JsonM::Str(s) => match direct(s, ctx) {
            Some(v) => Ok(to_json(v)),
            None => node_result(outs[at]),
        },
        JsonM::Array(items) => match rendered_items(items, ctx, outs, at, items.len() as int) {
            Ok(vs) => Ok(JsonM::Array(vs)),
            Err(e) => Err(e),
        },
        JsonM::Object(members) => match rendered_members(
            members,
            ctx,
            outs,
            at,
            members.len() as int,
        ) {
            Ok(ps) => Ok(JsonM::Object(ps)),
            Err(e) => Err(e),
        },
        _ => Ok(t),
    }
}

/// The rendering of the first `n` items.
pub open spec fn rendered_items(
    items: Seq<JsonM>,
    ctx: Seq<(Seq<char>, LiquidM)>,
    outs: Seq<OutcomeM>,
    at: int,
    n: int,
) -> Result<Seq<JsonM>, Seq<char>>
    decreases items, n,
{
    if n <= 0 || n > items.len() {
        Ok(Seq::empty())
    } else {
        match rendered_items(items, ctx, outs, at, n - 1) {
            Err(e) => Err(e),
            Ok(vs) => match rendered_of(
                items[n - 1],
                ctx,
                outs,
                at + requests_items(items, ctx, n - 1).len(),
            ) {
                Err(e) => Err(e),
                Ok(v) => Ok(vs.push(v)),
            },
        }
    }
}

/// The rendering of the first `n` members: each key is rendered as text, and
/// a later member overrides an earlier one with the same rendered key.
pub open spec fn rendered_members(
    members: Seq<(Seq<char>, JsonM)>,
    ctx: Seq<(Seq<char>, LiquidM)>,
    outs: Seq<OutcomeM>,
    at: int,
    n: int,
) -> Result<Seq<(Seq<char>, JsonM)>, Seq<char>>
    decreases members, n,
{
    if n <= 0 || n > members.len() {
        Ok(Seq::empty())
    } else {
        match rendered_members(members, ctx, outs, at, n - 1) {
            Err(e) => Err(e),
            Ok(ps) => {
                let k_at = at + requests_members(members, ctx, n - 1).len();
                match outs[k_at] {
                    Err(e) => Err(e),
                    Ok((key, _)) => match rendered_of(members[n - 1].1, ctx, outs, k_at + 1) {
                        Err(e) => Err(e),
                        Ok(v) => Ok(put(ps, key, v)),
                    },
                }
            },
        }
    }
}

} // verus!

verus! {

pub open spec fn jsons_model(v: Seq<Json>) -> Seq<JsonM> {
    Seq::new(v.len(), |i: int| v[i]@)
}

proof fn lemma_items_len_mono(items: Seq<JsonM>, ctx: Seq<(Seq<char>, LiquidM)>, i: int, j: int)
    requires
        0 <= i <= j <= items.len(),
    ensures
        requests_items(items, ctx, i).len() <= requests_items(items, ctx, j).len(),
    decreases j - i,
{
    if i < j {
        lemma_items_len_mono(items, ctx, i, j - 1);
    }
}

proof fn lemma_members_len_mono(
    members: Seq<(Seq<char>, JsonM)>,
    ctx: Seq<(Seq<char>, LiquidM)>,
    i: int,
    j: int,
)
    requires
        0 <= i <= j <= members.len(),
    ensures
        requests_members(members, ctx, i).len() <= requests_members(members, ctx, j).len(),
    decreases j - i,
{
    if i < j {
        lemma_members_len_mono(members, ctx, i, j - 1);
    }
}

proof fn lemma_items_err(
    items: Seq<JsonM>,
    ctx: Seq<(Seq<char>, LiquidM)>,
    outs: Seq<OutcomeM>,
    at: int,
    i: int,
    j: int,
)
    requires
        0 <= i <= j <= items.len(),
        rendered_items(items, ctx, outs, at, i) is Err,
    ensures
        rendered_items(items, ctx, outs, at, j) == rendered_items(items, ctx, outs, at, i),
    decreases j - i,
{
    if i < j {
        lemma_items_err(items, ctx, outs, at, i, j - 1);
    }
}

proof fn lemma_members_err(
    members: Seq<(Seq<char>, JsonM)>,
    ctx: Seq<(Seq<char>, LiquidM)>,
    outs: Seq<OutcomeM>,
    at: int,
    i: int,
    j: int,
)
    requires
        0 <= i <= j <= members.len(),
        rendered_members(members, ctx, outs, at, i) is Err,
    ensures
        rendered_members(members, ctx, outs, at, j) == rendered_members(members, ctx, outs, at, i),
    decreases j - i,
{
    if i < j {
        lemma_members_err(members, ctx, outs, at, i, j - 1);
    }
}

/// The value of the last context entry named `k`.
fn lookup_value<'a>(ctx: &'a Context, k: &String) -> (r: Option<&'a LiquidValue>)
    ensures
        r is Some <==> lookup(ctx@, k@) is Some,
        r matches Some(v) ==> v@ == lookup(ctx@, k@)->0,
{
    let mut i = ctx.entries.len();
    assert(ctx@.subrange(0, i as int) =~= ctx@);
    while i > 0
        invariant
            i <= ctx.entries@.len(),
            lookup(ctx@, k@) == lookup(ctx@.subrange(0, i as int), k@),
        decreases i,
    {
        let ghost sub = ctx@.subrange(0, i as int);
        if ctx.entries[i - 1].0 == *k {
            return Some(&ctx.entries[i - 1].1);
        }
        assert(sub.drop_last() =~= ctx@.subrange(0, i - 1));
        i -= 1;
    }
    None
}

/// The context value that the string `s` takes without the engine.
fn direct_value<'a>(s: &String, ctx: &'a Context) -> (r: Option<&'a LiquidValue>)
    ensures
        r is Some <==> direct(s@, ctx@) is Some,
        r matches Some(v) ==> v@ == direct(s@, ctx@)->0,
{
    match single_value(s.as_str()) {
        Some(k) => lookup_value(ctx, &k),
        None => None,
    }
}

/// Adds the member `(k, v)`, in place of a member with the same key if
/// there is one.
fn put_member(ps: &mut Vec<(String, Json)>, k: String, v: Json)
    ensures
        members_model(final(ps)@) == put(members_model(old(ps)@), k@, v@),
{
    let ghost m = members_model(ps@);
    let mut i = ps.len();
    assert(m.subrange(0, i as int) =~= m);
    while i > 0
        invariant
            i <= ps@.len(),
            m == members_model(ps@),
            ps@ == old(ps)@,
            key_index(m, k@) == key_index(m.subrange(0, i as int), k@),
        decreases i,
    {
        let ghost sub = m.subrange(0, i as int);
        if ps[i - 1].0 == k {
            assert(sub.last().0 == k@);
            assert(key_index(m, k@) == i - 1);
            ps.set(i - 1, (k, v));
            assert(members_model(ps@) =~= put(m, k@, v@));
            return;
        }
        assert(sub.drop_last() =~= m.subrange(0, i - 1));
        i -= 1;
    }
    ps.push((k, v));
    assert(members_model(ps@) =~= put(m, k@, v@));
}

fn collect_requests(t: &Json, ctx: &Context, out: &mut Vec<String>)
    ensures
        strings_model(final(out)@) == strings_model(old(out)@) + requests_of(t@, ctx@),
    decreases t,
{
    match t {
        Json::String(s) => {
            if direct_value(s, ctx).is_none() {
                out.push(s.clone());
                assert(strings_model(out@) =~= strings_model(old(out)@) + requests_of(t@, ctx@));
            } else {
                assert(strings_model(out@) =~= strings_model(old(out)@) + requests_of(t@, ctx@));
            }
        },
        Json::Array(a) => {
            let ghost ims = t@->Array_0;
            let ghost start = strings_model(out@);
            let mut i: usize = 0;
            while i < a.len()
                invariant
                    t matches Json::Array(aa) && aa@ == a@,
                    ims == t@->Array_0,
                    i <= a@.len(),
                    strings_model(out@) == start + requests_items(ims, ctx@, i as int),
                decreases a@.len() - i,
            {
                assert(ims[i as int] == a@[i as int]@);
                collect_requests(&a[i], ctx, out);
                assert(strings_model(out@) =~= start + requests_items(ims, ctx@, i + 1));
                i += 1;
            }
            assert(start + requests_of(t@, ctx@) =~= strings_model(out@));
        },
        Json::Object(o) => {
            let ghost ms = t@->Object_0;
            let ghost start = strings_model(out@);
            let mut i: usize = 0;
            while i < o.len()
                invariant
                    t matches Json::Object(oo) && oo@ == o@,
                    ms == t@->Object_0,
                    i <= o@.len(),
                    strings_model(out@) == start + requests_members(ms, ctx@, i as int),
                decreases o@.len() - i,
            {
                assert(ms[i as int] == (o@[i as int].0@, o@[i as int].1@));
                out.push(o[i].0.clone());
                assert(strings_model(out@) =~= start + requests_members(ms, ctx@, i as int) + seq![ms[i as int].0]);
                collect_requests(&o[i].1, ctx, out);
                assert(strings_model(out@) =~= start + requests_members(ms, ctx@, i + 1));
                i += 1;
            }
            assert(start + requests_of(t@, ctx@) =~= strings_model(out@));
        },
        _ => {
            assert(strings_model(out@) =~= strings_model(old(out)@) + requests_of(t@, ctx@));
        },
    }
}

} // verus!

verus! {

fn render_node(
    t: &Json,
    ctx: &Context,
    outs: &Vec<Result<Rendered, String>>,
    pos: &mut usize,
) -> (r: Result<Json, String>)
    requires
        *old(pos) + requests_of(t@, ctx@).len() <= outs@.len(),
    ensures
        match rendered_of(t@, ctx@, outcomes_model(outs@), *old(pos) as int) {
            Ok(v) => r matches Ok(j) && j@ == v && *final(pos) == *old(pos) + requests_of(
                t@,
                ctx@,
            ).len(),
            Err(e) => r matches Err(m) && m@ == e,
        },
    decreases t,
{
    let ghost om = outcomes_model(outs@);
    match t {
        Json::String(s) => match direct_value(s, ctx) {
            Some(v) => Ok(to_json_value(v)),
            None => {
                assert(requests_of(t@, ctx@) =~= seq![s@]);
                let o = &outs[*pos];
                assert(om[*pos as int] == outcome_model(*o));
                assert(*pos < outs.len());
                *pos += 1;
                match o {
                    Ok(rd) => match &rd.captured {
                        Some(v) => Ok(to_json_value(v)),
                        None => Ok(Json::String(rd.text.clone())),
                    },
                    Err(e) => Err(e.clone()),
                }
            },
        },
        Json::Array(a) => {
            let ghost ims = t@->Array_0;
            let ghost pos0 = *pos as int;
            let mut out: Vec<Json> = Vec::new();
            let mut i: usize = 0;
            assert(jsons_model(out@) =~= Seq::empty());
            while i < a.len()
                invariant
                    t matches Json::Array(aa) && aa@ == a@,
                    ims == t@->Array_0,
                    om == outcomes_model(outs@),
                    i <= a@.len(),
                    pos0 == *old(pos),
                    pos0 + requests_items(ims, ctx@, ims.len() as int).len() <= outs@.len(),
                    *pos == pos0 + requests_items(ims, ctx@, i as int).len(),
                    rendered_items(ims, ctx@, om, pos0, i as int) == Ok::<Seq<JsonM>, Seq<char>>(
                        jsons_model(out@),
                    ),
                decreases a@.len() - i,
            {
                assert(ims[i as int] == a@[i as int]@);
                proof {
                    lemma_items_len_mono(ims, ctx@, i + 1, ims.len() as int);
                }
                match render_node(&a[i], ctx, outs, pos) {
                    Ok(v) => {
                        out.push(v);
                        assert(jsons_model(out@) =~= rendered_items(
                            ims,
                            ctx@,
                            om,
                            pos0,
                            i + 1,
                        )->Ok_0);
                    },
                    Err(e) => {
                        proof {
                            lemma_items_err(ims, ctx@, om, pos0, i + 1, ims.len() as int);
                        }
                        return Err(e);
                    },
                }
                i += 1;
            }
            let r = Json::Array(out);
            assert(r@->Array_0 =~= jsons_model(out@));
            Ok(r)
        },
        Json::Object(o) => {
            let ghost ms = t@->Object_0;
            let ghost pos0 = *pos as int;
            let mut out: Vec<(String, Json)> = Vec::new();
            let mut i: usize = 0;
            assert(members_model(out@) =~= Seq::empty());
            while i < o.len()
                invariant
                    t matches Json::Object(oo) && oo@ == o@,
                    ms == t@->Object_0,
                    om == outcomes_model(outs@),
                    i <= o@.len(),
                    pos0 == *old(pos),
                    pos0 + requests_members(ms, ctx@, ms.len() as int).len() <= outs@.len(),
                    *pos == pos0 + requests_members(ms, ctx@, i as int).len(),
                    rendered_members(ms, ctx@, om, pos0, i as int) == Ok::<
                        Seq<(Seq<char>, JsonM)>,
                        Seq<char>,
                    >(members_model(out@)),
                decreases o@.len() - i,
            {
                assert(ms[i as int] == (o@[i as int].0@, o@[i as int].1@));
                proof {
                    lemma_members_len_mono(ms, ctx@, i + 1, ms.len() as int);
                    assert(requests_members(ms, ctx@, i + 1).len() == requests_members(ms, ctx@, i as int).len() + 1
                        + requests_of(ms[i as int].1, ctx@).len());
                }
                let ko = &outs[*pos];
                assert(om[*pos as int] == outcome_model(*ko));
                match ko {
                    Ok(rd) => {
                        let key = rd.text.clone();
                        assert(*pos < outs.len());
                        *pos += 1;
                        match render_node(&o[i].1, ctx, outs, pos) {
                            Ok(v) => {
                                put_member(&mut out, key, v);
                            },
                            Err(e) => {
                                proof {
                                    lemma_members_err(ms, ctx@, om, pos0, i + 1, ms.len() as int);
                                }
                                return Err(e);
                            },
                        }
                    },
                    Err(e) => {
                        proof {
                            lemma_members_err(ms, ctx@, om, pos0, i + 1, ms.len() as int);
                        }
                        return Err(e.clone());
                    },
                }
                i += 1;
            }
            let r = Json::Object(out);
            assert(r@->Object_0 =~= members_model(out@));
            Ok(r)
        },
        Json::Null => Ok(Json::Null),
        Json::Bool(b) => Ok(Json::Bool(*b)),
        Json::Number(n) => Ok(Json::Number(*n)),
    }
}

/// A JSON document whose strings are templates.
#[derive(Debug)]
pub struct LiquidJson {
    raw_template: Json,
}

impl View for LiquidJson {
    type V = JsonM;

    closed spec fn view(&self) -> JsonM {
        self.raw_template@
    }
}

impl LiquidJson {
    /// A template made of the JSON document `raw_template`.
    pub fn new(raw_template: Json) -> (r: Self)
        ensures
            r@ == raw_template@,
    {
        LiquidJson { raw_template }
    }

    /// The document that the template is made of.
    pub fn as_json(&self) -> (r: &Json)
        ensures
            r@ == self@,
    {
        &self.raw_template
    }

    /// The sources that the engine must evaluate against `ctx`, in the order
    /// in which [`LiquidJson::render`] expects their outcomes.
    pub fn requests(&self, ctx: &Context) -> (r: Vec<String>)
        ensures
            strings_model(r@) == requests_of(self@, ctx@),
    {
        let mut out: Vec<String> = Vec::new();
        assert(strings_model(out@) =~= Seq::empty());
        collect_requests(&self.raw_template, ctx, &mut out);
        assert(strings_model(out@) =~= requests_of(self@, ctx@));
        out
    }

    /// The rendered document, given what the engine gave for each source that
    /// [`LiquidJson::requests`] lists, in that order. The first failure in the
    /// order of the walk is the error.
    pub fn render(&self, ctx: &Context, outcomes: &Vec<Result<Rendered, String>>) -> (r: Result<
        Json,
        Error,
    >)
        requires
            outcomes@.len() == requests_of(self@, ctx@).len(),
        ensures
            match rendered_of(self@, ctx@, outcomes_model(outcomes@), 0) {
                Ok(v) => r matches Ok(j) && j@ == v,
                Err(e) => r matches Err(Error::LiquidError(m)) && m@ == e,
            },
    {
        let mut pos: usize = 0;
        match render_node(&self.raw_template, ctx, outcomes, &mut pos) {
            Ok(j) => Ok(j),
            Err(m) => Err(Error::LiquidError(m)),
        }
    }
}

} // verus!

verus! {

/// A template kept as part of a larger configuration: its serialized form is
/// the document it is made of.
#[derive(Debug)]
pub struct LiquidJsonValue(LiquidJson);

impl View for LiquidJsonValue {
    type V = JsonM;

    closed spec fn view(&self) -> JsonM {
        self.0@
    }
}

impl LiquidJsonValue {
    /// A template made of the JSON document `raw_template`.
    pub fn new(raw_template: Json) -> (r: Self)
        ensures
            r@ == raw_template@,
    {
        LiquidJsonValue(LiquidJson::new(raw_template))
    }

    /// The sources that the engine must evaluate against `ctx`.
    pub fn requests(&self, ctx: &Context) -> (r: Vec<String>)
        ensures
            strings_model(r@) == requests_of(self@, ctx@),
    {
        self.0.requests(ctx)
    }

    /// The rendered document, as [`LiquidJson::render`] gives it.
    pub fn render(&self, ctx: &Context, outcomes: &Vec<Result<Rendered, String>>) -> (r: Result<
        Json,
        Error,
    >)
        requires
            outcomes@.len() == requests_of(self@, ctx@).len(),
        ensures
            match rendered_of(self@, ctx@, outcomes_model(outcomes@), 0) {
                Ok(v) => r matches Ok(j) && j@ == v,
                Err(e) => r matches Err(Error::LiquidError(m)) && m@ == e,
            },
    {
        self.0.render(ctx, outcomes)
    }

    /// The template.
    pub fn inner(&self) -> (r: &LiquidJson)
        ensures
            r@ == self@,
    {
        &self.0
    }

    /// The document that the template is made of.
    pub fn as_json(&self) -> (r: &Json)
        ensures
            r@ == self@,
    {
        self.0.as_json()
    }
}

} // verus!
