//! What holds of every list that an operation goes through.

use vstd::prelude::*;

use crate::host::{self, HostCallView, ItemView, ReplyView, StepView};

verus! {

/// Whether a step asks for something that is not known yet, if it asks.
pub open spec fn progresses<T, E>(k: Seq<(HostCallView, ReplyView)>, step: StepView<T, E>) -> bool {
    match step {
        StepView::Ask(calls) => calls.len() > 0 && forall|i: int|
            0 <= i < calls.len() ==> !host::answered(k, #[trigger] calls[i]),
        _ => true,
    }
}

/// Whether no item wants a call that is answered already.
pub open spec fn wants_news<T, E>(
    k: Seq<(HostCallView, ReplyView)>,
    items: Seq<ItemView<T, E>>,
) -> bool {
    forall|i: int|
        0 <= i < items.len() ==> match #[trigger] items[i] {
            ItemView::Need(call) => !host::answered(k, call),
            _ => true,
        }
}

/// A list whose items want only what is not known leads to such a step.
pub proof fn law_gather_progresses<T, E>(
    k: Seq<(HostCallView, ReplyView)>,
    items: Seq<ItemView<T, E>>,
)
    requires
        wants_news(k, items),
    ensures
        progresses(k, host::gather(items)),
{
    lemma_needs_are_news(k, items);
}

/// The calls that a list wants are among its items.
proof fn lemma_needs_are_news<T, E>(
    k: Seq<(HostCallView, ReplyView)>,
    items: Seq<ItemView<T, E>>,
)
    requires
        wants_news(k, items),
    ensures
        ({
            let g = host::absorb_all(host::nothing::<T, E>(), items);
            forall|i: int| 0 <= i < g.needs.len() ==> !host::answered(k, #[trigger] g.needs[i])
        }),
    decreases items.len(),
{
    if items.len() > 0 {
        let rest = items.drop_last();
        assert forall|i: int| 0 <= i < rest.len() implies match #[trigger] rest[i] {
            ItemView::Need(call) => !host::answered(k, call),
            _ => true,
        } by {
            assert(rest[i] == items[i]);
        }
        lemma_needs_are_news(k, rest);
        assert(match items[items.len() - 1] {
            ItemView::Need(call) => !host::answered(k, call),
            _ => true,
        });
    }
}

/// A list leads to its values exactly if it holds nothing else.
pub proof fn law_gather_done<T, E>(items: Seq<ItemView<T, E>>)
    ensures
        match host::gather(items) {
            StepView::Done(values) => values.len() == items.len() && forall|i: int|
                0 <= i < items.len() ==> #[trigger] items[i] == ItemView::<T, E>::Value(values[i]),
            _ => exists|i: int| 0 <= i < items.len() && !(#[trigger] items[i] is Value),
        },
{
    lemma_absorbed(items);
}

/// What has come up after a list.
proof fn lemma_absorbed<T, E>(items: Seq<ItemView<T, E>>)
    ensures
        ({
            let g = host::absorb_all(host::nothing::<T, E>(), items);
            if g.needs.len() == 0 && g.failure is None {
                g.values.len() == items.len() && forall|i: int|
                    0 <= i < items.len() ==> #[trigger] items[i] == ItemView::<T, E>::Value(
                        g.values[i],
                    )
            } else {
                exists|i: int| 0 <= i < items.len() && !(#[trigger] items[i] is Value)
            }
        }),
    decreases items.len(),
{
    if items.len() > 0 {
        let rest = items.drop_last();
        lemma_absorbed(rest);
        let before = host::absorb_all(host::nothing::<T, E>(), rest);
        if before.needs.len() == 0 && before.failure is None {
            if items.last() is Value {
                let g = host::absorb_all(host::nothing::<T, E>(), items);
                assert forall|i: int| 0 <= i < items.len() implies #[trigger] items[i]
                    == ItemView::<T, E>::Value(g.values[i]) by {
                    if i < rest.len() {
                        assert(rest[i] == items[i]);
                    }
                }
            } else {
                assert(!(items[items.len() - 1] is Value));
            }
        } else {
            let i = choose|i: int| 0 <= i < rest.len() && !(#[trigger] rest[i] is Value);
            assert(!(items[i] is Value));
        }
    }
}

/// A list of steps, none of which asks for nothing, leads to their results
/// exactly if each of them is done.
pub proof fn law_gather_steps<A, T, E>(xs: Seq<A>, f: spec_fn(A) -> StepView<T, E>)
    requires
        forall|i: int|
            0 <= i < xs.len() ==> match f(#[trigger] xs[i]) {
                StepView::Ask(calls) => calls.len() > 0,
                _ => true,
            },
    ensures
        match host::gather(xs.flat_map(|x: A| host::step_items(f(x)))) {
            StepView::Done(values) => values.len() == xs.len() && forall|i: int|
                0 <= i < xs.len() ==> f(#[trigger] xs[i]) == StepView::<T, E>::Done(values[i]),
            _ => exists|i: int| 0 <= i < xs.len() && !(f(#[trigger] xs[i]) is Done),
        },
{
    let g = |x: A| host::step_items(f(x));
    let items = xs.flat_map(g);
    law_gather_done(items);
    lemma_steps_done(xs, f);
    if host::gather(items) is Done {
        let values = host::gather(items)->Done_0;
        assert(forall|i: int| 0 <= i < items.len() ==> #[trigger] items[i] is Value);
        assert forall|i: int| 0 <= i < xs.len() implies f(#[trigger] xs[i]) == StepView::<
            T,
            E,
        >::Done(values[i]) by {
            assert(items[i] == ItemView::<T, E>::Value(f(xs[i])->Done_0));
        }
    } else {
        let i = choose|i: int| 0 <= i < items.len() && !(#[trigger] items[i] is Value);
        if forall|j: int| 0 <= j < xs.len() ==> f(#[trigger] xs[j]) is Done {
            assert(items[i] is Value);
        }
    }
}

/// Steps that are done come up with their results and nothing else.
proof fn lemma_steps_done<A, T, E>(xs: Seq<A>, f: spec_fn(A) -> StepView<T, E>)
    requires
        forall|i: int|
            0 <= i < xs.len() ==> match f(#[trigger] xs[i]) {
                StepView::Ask(calls) => calls.len() > 0,
                _ => true,
            },
    ensures
        ({
            let items = xs.flat_map(|x: A| host::step_items(f(x)));
            let all_values = forall|i: int| 0 <= i < items.len() ==> #[trigger] items[i] is Value;
            let all_done = forall|i: int| 0 <= i < xs.len() ==> f(#[trigger] xs[i]) is Done;
            &&& all_values <==> all_done
            &&& all_done ==> items.len() == xs.len() && forall|i: int|
                0 <= i < xs.len() ==> #[trigger] items[i] == ItemView::<T, E>::Value(
                    f(xs[i])->Done_0,
                )
        }),
    decreases xs.len(),
{
    let g = |x: A| host::step_items(f(x));
    let items = xs.flat_map(g);
    if xs.len() == 0 {
        assert(items.len() == 0);
    } else {
        let rest = xs.drop_last();
        let last = xs.last();
        assert forall|i: int| 0 <= i < rest.len() implies match f(#[trigger] rest[i]) {
            StepView::Ask(calls) => calls.len() > 0,
            _ => true,
        } by {
            assert(rest[i] == xs[i]);
        }
        lemma_steps_done(rest, f);
        let before = rest.flat_map(g);
        xs.lemma_flat_map_take_append(g, xs.len() - 1);
        assert(xs.take(xs.len() as int) == xs);
        assert(xs.take(xs.len() - 1) == rest);
        assert(items == before + g(last));
        assert(match f(xs[xs.len() - 1]) {
            StepView::Ask(calls) => calls.len() > 0,
            _ => true,
        });
        let all_values = forall|i: int| 0 <= i < items.len() ==> #[trigger] items[i] is Value;
        let all_done = forall|i: int| 0 <= i < xs.len() ==> f(#[trigger] xs[i]) is Done;
        if all_values {
            assert forall|i: int| 0 <= i < before.len() implies #[trigger] before[i] is Value by {
                assert(before[i] == items[i]);
            }
            assert(items[before.len() as int] == g(last)[0]);
            assert(f(last) is Done);
            assert forall|i: int| 0 <= i < xs.len() implies f(#[trigger] xs[i]) is Done by {
                if i < rest.len() {
                    assert(rest[i] == xs[i]);
                }
            }
        }
        if all_done {
            assert forall|i: int| 0 <= i < rest.len() implies f(#[trigger] rest[i]) is Done by {
                assert(rest[i] == xs[i]);
            }
            assert(f(xs[xs.len() - 1]) is Done);
            assert forall|i: int| 0 <= i < xs.len() implies #[trigger] items[i] == ItemView::<
                T,
                E,
            >::Value(f(xs[i])->Done_0) by {
                if i < rest.len() {
                    assert(items[i] == before[i]);
                    assert(rest[i] == xs[i]);
                } else {
                    assert(items[i] == g(last)[0]);
                }
            }
            assert forall|i: int| 0 <= i < items.len() implies #[trigger] items[i] is Value by {
            }
        }
    }
}

/// Whether every value in a list has a property.
pub open spec fn values_have<T, E>(
    items: Seq<ItemView<T, E>>,
    p: spec_fn(T) -> bool,
) -> bool {
    forall|i: int|
        0 <= i < items.len() ==> match #[trigger] items[i] {
            ItemView::Value(value) => p(value),
            _ => true,
        }
}

/// What two lists have, they have one after the other.
pub proof fn lemma_concat_values_have<T, E>(
    a: Seq<ItemView<T, E>>,
    b: Seq<ItemView<T, E>>,
    p: spec_fn(T) -> bool,
)
    requires
        values_have(a, p),
        values_have(b, p),
    ensures
        values_have(a + b, p),
{
    let all = a + b;
    assert forall|i: int| 0 <= i < all.len() implies match #[trigger] all[i] {
        ItemView::Value(value) => p(value),
        _ => true,
    } by {
        if i < a.len() {
            assert(all[i] == a[i]);
        } else {
            assert(all[i] == b[i - a.len()]);
        }
    }
}

/// What every part of a list has, the whole has.
pub proof fn lemma_flat_map_values_have<A, T, E>(
    xs: Seq<A>,
    f: spec_fn(A) -> Seq<ItemView<T, E>>,
    p: spec_fn(T) -> bool,
)
    requires
        forall|i: int| 0 <= i < xs.len() ==> values_have(f(#[trigger] xs[i]), p),
    ensures
        values_have(xs.flat_map(f), p),
    decreases xs.len(),
{
    if xs.len() == 0 {
        assert(xs.flat_map(f).len() == 0);
    } else {
        let rest = xs.drop_last();
        assert forall|i: int| 0 <= i < rest.len() implies values_have(f(#[trigger] rest[i]), p) by {
            assert(rest[i] == xs[i]);
        }
        lemma_flat_map_values_have(rest, f, p);
        xs.lemma_flat_map_take_append(f, xs.len() - 1);
        assert(xs.take(xs.len() as int) == xs);
        assert(xs.take(xs.len() - 1) == rest);
        assert(values_have(f(xs[xs.len() - 1]), p));
        lemma_concat_values_have(rest.flat_map(f), f(xs.last()), p);
    }
}

/// Where every element makes one, the whole has as many, each in its place.
pub proof fn lemma_flat_map_singles<A, B>(xs: Seq<A>, f: spec_fn(A) -> Seq<B>)
    requires
        forall|i: int| 0 <= i < xs.len() ==> f(#[trigger] xs[i]).len() == 1,
    ensures
        xs.flat_map(f).len() == xs.len(),
        forall|i: int| 0 <= i < xs.len() ==> #[trigger] xs.flat_map(f)[i] == f(xs[i])[0],
    decreases xs.len(),
{
    if xs.len() == 0 {
        assert(xs.flat_map(f).len() == 0);
    } else {
        let rest = xs.drop_last();
        assert forall|i: int| 0 <= i < rest.len() implies f(#[trigger] rest[i]).len() == 1 by {
            assert(rest[i] == xs[i]);
        }
        lemma_flat_map_singles(rest, f);
        xs.lemma_flat_map_take_append(f, xs.len() - 1);
        assert(xs.take(xs.len() as int) == xs);
        assert(xs.take(xs.len() - 1) == rest);
        assert(f(xs[xs.len() - 1]).len() == 1);
        assert forall|i: int| 0 <= i < xs.len() implies #[trigger] xs.flat_map(f)[i] == f(
            xs[i],
        )[0] by {
            if i < rest.len() {
                assert(rest.flat_map(f)[i] == f(rest[i])[0]);
            }
        }
    }
}

/// Where no element makes more than one, the whole has no more.
pub proof fn lemma_flat_map_at_most<A, B>(xs: Seq<A>, f: spec_fn(A) -> Seq<B>)
    requires
        forall|i: int| 0 <= i < xs.len() ==> f(#[trigger] xs[i]).len() <= 1,
    ensures
        xs.flat_map(f).len() <= xs.len(),
    decreases xs.len(),
{
    if xs.len() == 0 {
        assert(xs.flat_map(f).len() == 0);
    } else {
        let rest = xs.drop_last();
        assert forall|i: int| 0 <= i < rest.len() implies f(#[trigger] rest[i]).len() <= 1 by {
            assert(rest[i] == xs[i]);
        }
        lemma_flat_map_at_most(rest, f);
        xs.lemma_flat_map_take_append(f, xs.len() - 1);
        assert(xs.take(xs.len() as int) == xs);
        assert(xs.take(xs.len() - 1) == rest);
        assert(f(xs[xs.len() - 1]).len() <= 1);
    }
}

/// Whether a list holds values alone.
pub open spec fn all_values<T, E>(items: Seq<ItemView<T, E>>) -> bool {
    forall|i: int| 0 <= i < items.len() ==> #[trigger] items[i] is Value
}

/// What two lists hold alone, each of them does.
pub proof fn lemma_parts_are_values<T, E>(a: Seq<ItemView<T, E>>, b: Seq<ItemView<T, E>>)
    requires
        all_values(a + b),
    ensures
        all_values(a),
        all_values(b),
{
    let all = a + b;
    assert forall|i: int| 0 <= i < a.len() implies #[trigger] a[i] is Value by {
        assert(all[i] == a[i]);
    }
    assert forall|i: int| 0 <= i < b.len() implies #[trigger] b[i] is Value by {
        assert(all[a.len() + i] == b[i]);
    }
}

/// Values as the items that hold them.
pub open spec fn as_items<T, E>(values: Seq<T>) -> Seq<ItemView<T, E>> {
    values.map_values(|value: T| ItemView::<T, E>::Value(value))
}

/// A condition on values as one on the items that hold them.
pub open spec fn keeps<T, E>(p: spec_fn(T) -> bool) -> spec_fn(ItemView<T, E>) -> bool {
    |item: ItemView<T, E>| item is Value ==> p(item->Value_0)
}

/// A list that leads to values holds them.
pub proof fn lemma_done_items<T, E>(items: Seq<ItemView<T, E>>)
    ensures
        host::gather(items) matches StepView::Done(values) ==> all_values(items) && items
            == as_items::<T, E>(values),
{
    law_gather_done(items);
    if let StepView::Done(values) = host::gather(items) {
        assert(items =~= as_items::<T, E>(values));
    }
}

/// A list of values leads to them.
pub proof fn lemma_values_are_done<T, E>(values: Seq<T>)
    ensures
        host::gather(as_items::<T, E>(values)) == StepView::<Seq<T>, E>::Done(values),
{
    let items = as_items::<T, E>(values);
    law_gather_done(items);
    let found = host::gather(items)->Done_0;
    assert forall|i: int| 0 <= i < values.len() implies #[trigger] found[i] == values[i] by {
        assert(items[i] == ItemView::<T, E>::Value(found[i]));
    }
    assert(found =~= values);
}

/// A condition keeps as much of values as of the items that hold them.
pub proof fn lemma_filter_values<T, E>(values: Seq<T>, p: spec_fn(T) -> bool)
    ensures
        as_items::<T, E>(values).filter(keeps::<T, E>(p)) == as_items::<T, E>(values.filter(p)),
    decreases values.len(),
{
    reveal(Seq::filter);
    let items = as_items::<T, E>(values);
    if values.len() > 0 {
        let rest = values.drop_last();
        lemma_filter_values::<T, E>(rest, p);
        assert(items.drop_last() =~= as_items::<T, E>(rest));
        assert(items.last() == ItemView::<T, E>::Value(values.last()));
    }
    assert(items.filter(keeps::<T, E>(p)) =~= as_items::<T, E>(values.filter(p)));
}

/// A condition that everything meets keeps everything.
pub proof fn lemma_filter_all<A>(s: Seq<A>, p: spec_fn(A) -> bool)
    requires
        forall|i: int| 0 <= i < s.len() ==> p(#[trigger] s[i]),
    ensures
        s.filter(p) == s,
    decreases s.len(),
{
    reveal(Seq::filter);
    if s.len() > 0 {
        assert(p(s[s.len() - 1]));
        assert forall|i: int| 0 <= i < s.drop_last().len() implies p(
            #[trigger] s.drop_last()[i],
        ) by {
            assert(s.drop_last()[i] == s[i]);
        }
        lemma_filter_all(s.drop_last(), p);
    }
    assert(s.filter(p) =~= s);
}

/// A condition that nothing meets keeps nothing.
pub proof fn lemma_filter_none<A>(s: Seq<A>, p: spec_fn(A) -> bool)
    requires
        forall|i: int| 0 <= i < s.len() ==> !p(#[trigger] s[i]),
    ensures
        s.filter(p) == Seq::<A>::empty(),
    decreases s.len(),
{
    reveal(Seq::filter);
    if s.len() > 0 {
        assert(!p(s[s.len() - 1]));
        assert forall|i: int| 0 <= i < s.drop_last().len() implies !p(
            #[trigger] s.drop_last()[i],
        ) by {
            assert(s.drop_last()[i] == s[i]);
        }
        lemma_filter_none(s.drop_last(), p);
    }
    assert(s.filter(p) =~= Seq::<A>::empty());
}

/// Two conditions that agree on a list keep the same of it.
pub proof fn lemma_filter_agrees<A>(s: Seq<A>, p: spec_fn(A) -> bool, q: spec_fn(A) -> bool)
    requires
        forall|i: int| 0 <= i < s.len() ==> p(#[trigger] s[i]) == q(s[i]),
    ensures
        s.filter(p) == s.filter(q),
    decreases s.len(),
{
    reveal(Seq::filter);
    if s.len() > 0 {
        assert(p(s[s.len() - 1]) == q(s[s.len() - 1]));
        assert forall|i: int| 0 <= i < s.drop_last().len() implies p(
            #[trigger] s.drop_last()[i],
        ) == q(s.drop_last()[i]) by {
            assert(s.drop_last()[i] == s[i]);
        }
        lemma_filter_agrees(s.drop_last(), p, q);
    }
}

/// Where each element makes the part of what it would make that a condition keeps,
/// the whole is the part of the whole that it keeps.
pub proof fn lemma_flat_map_filter<A, T, E>(
    xs: Seq<A>,
    f: spec_fn(A) -> Seq<ItemView<T, E>>,
    g: spec_fn(A) -> Seq<ItemView<T, E>>,
    q: spec_fn(ItemView<T, E>) -> bool,
)
    requires
        all_values(xs.flat_map(f)),
        forall|i: int|
            0 <= i < xs.len() && all_values(f(#[trigger] xs[i])) ==> g(xs[i]) == f(xs[i]).filter(q),
    ensures
        xs.flat_map(g) == xs.flat_map(f).filter(q),
    decreases xs.len(),
{
    if xs.len() == 0 {
        reveal(Seq::filter);
        assert(xs.flat_map(g) =~= xs.flat_map(f).filter(q));
    } else {
        let rest = xs.drop_last();
        let last = xs[xs.len() - 1];
        xs.lemma_flat_map_take_append(f, xs.len() - 1);
        xs.lemma_flat_map_take_append(g, xs.len() - 1);
        assert(xs.take(xs.len() as int) == xs);
        assert(xs.take(xs.len() - 1) == rest);
        lemma_parts_are_values(rest.flat_map(f), f(last));
        assert forall|i: int| 0 <= i < rest.len() && all_values(f(#[trigger] rest[i])) implies g(
            rest[i],
        ) == f(rest[i]).filter(q) by {
            assert(rest[i] == xs[i]);
        }
        lemma_flat_map_filter(rest, f, g, q);
        Seq::filter_distributes_over_add(rest.flat_map(f), f(last), q);
    }
}

/// What the whole holds alone, each element makes alone.
pub proof fn lemma_flat_map_part<A, T, E>(
    xs: Seq<A>,
    f: spec_fn(A) -> Seq<ItemView<T, E>>,
    i: int,
)
    requires
        0 <= i < xs.len(),
        all_values(xs.flat_map(f)),
    ensures
        all_values(f(xs[i])),
    decreases xs.len(),
{
    let rest = xs.drop_last();
    xs.lemma_flat_map_take_append(f, xs.len() - 1);
    assert(xs.take(xs.len() as int) == xs);
    assert(xs.take(xs.len() - 1) == rest);
    lemma_parts_are_values(rest.flat_map(f), f(xs[xs.len() - 1]));
    if i < rest.len() {
        lemma_flat_map_part(rest, f, i);
    }
}

/// What has failed stays as it is.
proof fn lemma_failed_stays<T, E>(g: host::GatheringView<T, E>, items: Seq<ItemView<T, E>>)
    requires
        g.failure is Some,
    ensures
        host::absorb_all(g, items) == g,
    decreases items.len(),
{
    if items.len() > 0 {
        lemma_failed_stays(g, items.drop_last());
    }
}

/// What is wanted stays wanted.
proof fn lemma_wanted_stays<T, E>(g: host::GatheringView<T, E>, items: Seq<ItemView<T, E>>)
    ensures
        host::absorb_all(g, items).needs.len() >= g.needs.len(),
    decreases items.len(),
{
    if items.len() > 0 {
        lemma_wanted_stays(g, items.drop_last());
    }
}

/// A list without failures has not failed.
proof fn lemma_not_failed<T, E>(items: Seq<ItemView<T, E>>)
    requires
        forall|i: int| 0 <= i < items.len() ==> !(#[trigger] items[i] is Fail),
    ensures
        host::absorb_all(host::nothing::<T, E>(), items).failure is None,
        (forall|i: int| 0 <= i < items.len() ==> #[trigger] items[i] is Value) ==> host::absorb_all(
            host::nothing::<T, E>(),
            items,
        ).needs.len() == 0,
    decreases items.len(),
{
    if items.len() > 0 {
        let rest = items.drop_last();
        assert forall|i: int| 0 <= i < rest.len() implies !(#[trigger] rest[i] is Fail) by {
            assert(rest[i] == items[i]);
        }
        lemma_not_failed(rest);
        assert(!(items[items.len() - 1] is Fail));
        if forall|i: int| 0 <= i < items.len() ==> #[trigger] items[i] is Value {
            assert forall|i: int| 0 <= i < rest.len() implies #[trigger] rest[i] is Value by {
                assert(rest[i] == items[i]);
            }
            assert(items[items.len() - 1] is Value);
        }
    }
}

/// What a list wants before it fails is asked for first; and a list fails by the first
/// failure in it, where all before is known.
pub proof fn law_questions_come_before_failures<T, E>(
    before: Seq<ItemView<T, E>>,
    item: ItemView<T, E>,
    after: Seq<ItemView<T, E>>,
)
    ensures
        item is Need && (forall|i: int| 0 <= i < before.len() ==> !(#[trigger] before[i] is Fail))
            ==> host::gather(before + seq![item] + after) is Ask,
        item is Fail && (forall|i: int| 0 <= i < before.len() ==> #[trigger] before[i] is Value)
            ==> host::gather(before + seq![item] + after) == StepView::<Seq<T>, E>::Failed(
            item->Fail_0,
        ),
{
    let start = host::nothing::<T, E>();
    let g = host::absorb_all(start, before);
    let h = host::absorb(g, item);
    host::lemma_absorb_concat(start, before + seq![item], after);
    host::lemma_absorb_concat(start, before, seq![item]);
    host::lemma_absorb_one(g, item);
    if forall|i: int| 0 <= i < before.len() ==> !(#[trigger] before[i] is Fail) {
        lemma_not_failed(before);
        if item is Need {
            lemma_wanted_stays(h, after);
        }
    }
    if item is Fail && (forall|i: int| 0 <= i < before.len() ==> #[trigger] before[i] is Value) {
        assert forall|i: int| 0 <= i < before.len() implies !(#[trigger] before[i] is Fail) by {
            assert(before[i] is Value);
        }
        lemma_not_failed(before);
        lemma_failed_stays(h, after);
    }
}

} // verus!
