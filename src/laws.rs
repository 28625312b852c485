//! Properties of rendering that hold across documents.
use vstd::prelude::*;
use crate::render::{direct, key_index, put, rendered_items, rendered_members, rendered_of, requests_items, requests_members, requests_of, OutcomeM};
use crate::bridge::{canonical, context_of, lemma_round_trip, to_liquid};
use crate::single::{holds_pair, single_reference, skip_space, skip_word};
use crate::value::lookup;
use crate::value::{JsonM, LiquidM};

verus! {

/// Whether `s` holds no expression: no `{{` and no `{%`.
pub open spec fn literal(s: Seq<char>) -> bool {
    forall|i: int| 0 <= i < s.len() - 1 && #[trigger] s[i] == '{' ==> s[i + 1] != '{' && s[i + 1] != '%'
}

/// Whether no string of `t`, key or value, holds an expression, and the keys
/// of each object are distinct.
pub open spec fn plain(t: JsonM) -> bool
    decreases t, 0int,
{
    match t {
        JsonM::Str(s) => literal(s),
        JsonM::Array(items) => plain_items(items, items.len() as int),
        JsonM::Object(members) => plain_members(members, members.len() as int),
        _ => true,
    }
}

/// Whether the first `n` items are plain.
pub open spec fn plain_items(items: Seq<JsonM>, n: int) -> bool
    decreases items, n,
{
    if n <= 0 || n > items.len() {
        true
    } else {
        plain_items(items, n - 1) && plain(items[n - 1])
    }
}

/// Whether the first `n` members are plain, with keys that differ.
pub open spec fn plain_members(members: Seq<(Seq<char>, JsonM)>, n: int) -> bool
    decreases members, n,
{
    if n <= 0 || n > members.len() {
        true
    } else {
        &&& plain_members(members, n - 1)
        &&& literal(members[n - 1].0)
        &&& plain(members[n - 1].1)
        &&& key_index(members.subrange(0, n - 1), members[n - 1].0) == -1
    }
}

/// Whether `outs`, from position `at` on, gives each of `sources` back as
/// its own text, with nothing captured: what the engine does with a source
/// that holds no expression.
pub open spec fn echoes(outs: Seq<OutcomeM>, at: int, sources: Seq<Seq<char>>) -> bool {
    forall|k: int|
        0 <= k < sources.len() ==> #[trigger] outs[at + k] == Ok::<
            (Seq<char>, Option<LiquidM>),
            Seq<char>,
        >((sources[k], None))
}

proof fn lemma_literal_not_reference(s: Seq<char>)
    requires
        literal(s),
    ensures
        single_reference(s) is None,
{
    let open = skip_space(s, 0);
    if holds_pair(s, open, '{', '{') {
        assert(s[open] == '{' && s[open + 1] == '{');
    }
}

proof fn lemma_plain_rendered(t: JsonM, ctx: Seq<(Seq<char>, LiquidM)>, outs: Seq<OutcomeM>, at: int)
    requires
        plain(t),
        echoes(outs, at, requests_of(t, ctx)),
    ensures
        rendered_of(t, ctx, outs, at) == Ok::<JsonM, Seq<char>>(t),
    decreases t, 0int,
{
    match t {
        JsonM::Str(s) => {
            lemma_literal_not_reference(s);
            assert(direct(s, ctx) is None);
            assert(requests_of(t, ctx) =~= seq![s]);
            assert(outs[at + 0] == Ok::<(Seq<char>, Option<LiquidM>), Seq<char>>((s, None)));
        },
        JsonM::Array(items) => {
            lemma_plain_items(items, ctx, outs, at, items.len() as int);
            assert(items.subrange(0, items.len() as int) =~= items);
        },
        JsonM::Object(members) => {
            lemma_plain_members(members, ctx, outs, at, members.len() as int);
            assert(members.subrange(0, members.len() as int) =~= members);
        },
        _ => {},
    }
}

proof fn lemma_plain_items(
    items: Seq<JsonM>,
    ctx: Seq<(Seq<char>, LiquidM)>,
    outs: Seq<OutcomeM>,
    at: int,
    n: int,
)
    requires
        0 <= n <= items.len(),
        plain_items(items, n),
        echoes(outs, at, requests_items(items, ctx, n)),
    ensures
        rendered_items(items, ctx, outs, at, n) == Ok::<Seq<JsonM>, Seq<char>>(
            items.subrange(0, n),
        ),
    decreases items, n,
{
    if n > 0 {
        let pre = requests_items(items, ctx, n - 1);
        let last = requests_of(items[n - 1], ctx);
        assert(requests_items(items, ctx, n) == pre + last);
        assert forall|k: int| 0 <= k < pre.len() implies #[trigger] outs[at + k] == Ok::<
            (Seq<char>, Option<LiquidM>),
            Seq<char>,
        >((pre[k], None)) by {
            assert((pre + last)[k] == pre[k]);
        }
        lemma_plain_items(items, ctx, outs, at, n - 1);
        assert forall|k: int| 0 <= k < last.len() implies #[trigger] outs[at + pre.len() + k]
            == Ok::<(Seq<char>, Option<LiquidM>), Seq<char>>((last[k], None)) by {
            assert((pre + last)[pre.len() + k] == last[k]);
            assert(outs[at + (pre.len() + k)] == Ok::<(Seq<char>, Option<LiquidM>), Seq<char>>(
                ((pre + last)[pre.len() + k], None),
            ));
            assert(at + (pre.len() + k) == at + pre.len() + k);
        }
        lemma_plain_rendered(items[n - 1], ctx, outs, at + pre.len());
        assert(items.subrange(0, n - 1).push(items[n - 1]) =~= items.subrange(0, n));
    } else {
        assert(items.subrange(0, n) =~= Seq::<JsonM>::empty());
    }
}

proof fn lemma_plain_members(
    members: Seq<(Seq<char>, JsonM)>,
    ctx: Seq<(Seq<char>, LiquidM)>,
    outs: Seq<OutcomeM>,
    at: int,
    n: int,
)
    requires
        0 <= n <= members.len(),
        plain_members(members, n),
        echoes(outs, at, requests_members(members, ctx, n)),
    ensures
        rendered_members(members, ctx, outs, at, n) == Ok::<
            Seq<(Seq<char>, JsonM)>,
            Seq<char>,
        >(members.subrange(0, n)),
    decreases members, n,
{
    if n > 0 {
        let pre = requests_members(members, ctx, n - 1);
        let key = seq![members[n - 1].0];
        let last = requests_of(members[n - 1].1, ctx);
        let all = pre + key + last;
        assert(requests_members(members, ctx, n) == all);
        assert forall|k: int| 0 <= k < pre.len() implies #[trigger] outs[at + k] == Ok::<
            (Seq<char>, Option<LiquidM>),
            Seq<char>,
        >((pre[k], None)) by {
            assert(all[k] == pre[k]);
        }
        lemma_plain_members(members, ctx, outs, at, n - 1);
        assert(all[pre.len() as int] == members[n - 1].0);
        assert(outs[at + pre.len()] == Ok::<(Seq<char>, Option<LiquidM>), Seq<char>>(
            (members[n - 1].0, None),
        ));
        assert forall|k: int| 0 <= k < last.len() implies #[trigger] outs[at + pre.len() + 1 + k]
            == Ok::<(Seq<char>, Option<LiquidM>), Seq<char>>((last[k], None)) by {
            assert(all[pre.len() + 1 + k] == last[k]);
            assert(outs[at + (pre.len() + 1 + k)] == Ok::<(Seq<char>, Option<LiquidM>), Seq<char>>(
                (all[pre.len() + 1 + k], None),
            ));
            assert(at + (pre.len() + 1 + k) == at + pre.len() + 1 + k);
        }
        lemma_plain_rendered(members[n - 1].1, ctx, outs, at + pre.len() + 1);
        assert(put(members.subrange(0, n - 1), members[n - 1].0, members[n - 1].1)
            =~= members.subrange(0, n));
    } else {
        assert(members.subrange(0, n) =~= Seq::<(Seq<char>, JsonM)>::empty());
    }
}

/// Rendering a template none of whose strings holds an expression gives the
/// template back, whatever the context, where the engine gives each source
/// back as its own text.
pub proof fn lemma_shape_preserved(t: JsonM, ctx: Seq<(Seq<char>, LiquidM)>, outs: Seq<OutcomeM>)
    requires
        plain(t),
        outs.len() == requests_of(t, ctx).len(),
        echoes(outs, 0, requests_of(t, ctx)),
    ensures
        rendered_of(t, ctx, outs, 0) == Ok::<JsonM, Seq<char>>(t),
{
    lemma_plain_rendered(t, ctx, outs, 0);
}

/// Rendering again a rendered document that holds no expression gives it
/// back unchanged.
pub proof fn lemma_rerender_stable(
    t: JsonM,
    ctx: Seq<(Seq<char>, LiquidM)>,
    outs: Seq<OutcomeM>,
    ctx2: Seq<(Seq<char>, LiquidM)>,
    outs2: Seq<OutcomeM>,
)
    requires
        rendered_of(t, ctx, outs, 0) is Ok,
        plain(rendered_of(t, ctx, outs, 0)->Ok_0),
        outs2.len() == requests_of(rendered_of(t, ctx, outs, 0)->Ok_0, ctx2).len(),
        echoes(outs2, 0, requests_of(rendered_of(t, ctx, outs, 0)->Ok_0, ctx2)),
    ensures
        rendered_of(rendered_of(t, ctx, outs, 0)->Ok_0, ctx2, outs2, 0) == rendered_of(t, ctx, outs, 0),
{
    lemma_shape_preserved(rendered_of(t, ctx, outs, 0)->Ok_0, ctx2, outs2);
}

/// The source `{{ myval }}`.
pub open spec fn myval_source() -> Seq<char> {
    seq!['{', '{', ' ', 'm', 'y', 'v', 'a', 'l', ' ', '}', '}']
}

pub open spec fn myval_name() -> Seq<char> {
    seq!['m', 'y', 'v', 'a', 'l']
}

pub open spec fn this_name() -> Seq<char> {
    seq!['t', 'h', 'i', 's']
}

proof fn lemma_myval_reference()
    ensures
        single_reference(myval_source()) == Some(myval_name()),
{
    let s = myval_source();
    assert(skip_space(s, 0) == 0);
    assert(skip_space(s, 3) == 3);
    assert(skip_space(s, 2) == 3);
    assert(skip_word(s, 8) == 8);
    assert(skip_word(s, 7) == 8);
    assert(skip_word(s, 6) == 8);
    assert(skip_word(s, 5) == 8);
    assert(skip_word(s, 4) == 8);
    assert(skip_word(s, 3) == 8);
    assert(skip_space(s, 9) == 9);
    assert(skip_space(s, 8) == 9);
    assert(skip_space(s, 11) == 11);
    assert(s.subrange(3, 8) =~= myval_name());
}

/// A member whose value is exactly `{{ myval }}` takes the value bound to
/// `myval` with its own type (number, string, boolean, null, array or
/// object), not its text; the key, plain text, is rendered as itself.
pub proof fn lemma_single_substitution(v: JsonM)
    requires
        canonical(v),
    ensures
        ({
            let t = JsonM::Object(seq![(this_name(), JsonM::Str(myval_source()))]);
            let ctx = context_of(JsonM::Object(seq![(myval_name(), v)]));
            let outs = seq![Ok::<(Seq<char>, Option<LiquidM>), Seq<char>>((this_name(), None))];
            &&& requests_of(t, ctx) == seq![this_name()]
            &&& rendered_of(t, ctx, outs, 0) == Ok::<JsonM, Seq<char>>(
                JsonM::Object(seq![(this_name(), v)]),
            )
        }),
{
    let members = seq![(this_name(), JsonM::Str(myval_source()))];
    let t = JsonM::Object(members);
    let data = JsonM::Object(seq![(myval_name(), v)]);
    let ctx = context_of(data);
    let outs = seq![Ok::<(Seq<char>, Option<LiquidM>), Seq<char>>((this_name(), None))];
    lemma_myval_reference();
    assert(ctx.len() == 1);
    assert(ctx[0] == (myval_name(), to_liquid(v)));
    assert(ctx.last().0 == myval_name());
    assert(lookup(ctx, myval_name()) == Some(to_liquid(v)));
    assert(direct(myval_source(), ctx) == Some(to_liquid(v)));
    lemma_round_trip(v);
    assert(requests_of(JsonM::Str(myval_source()), ctx) =~= Seq::<Seq<char>>::empty());
    assert(requests_members(members, ctx, 0) =~= Seq::<Seq<char>>::empty());
    assert(requests_members(members, ctx, 1) =~= seq![this_name()]);
    assert(rendered_members(members, ctx, outs, 0, 0) == Ok::<
        Seq<(Seq<char>, JsonM)>,
        Seq<char>,
    >(Seq::empty()));
    assert(rendered_of(JsonM::Str(myval_source()), ctx, outs, 1) == Ok::<JsonM, Seq<char>>(v));
    assert(key_index(Seq::<(Seq<char>, JsonM)>::empty(), this_name()) == -1);
    assert(put(Seq::empty(), this_name(), v) =~= seq![(this_name(), v)]);
}

} // verus!
