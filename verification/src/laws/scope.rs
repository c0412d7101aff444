//! What holds of every pattern and of every push.

use vstd::prelude::*;

use crate::git::scope_match::{self, RefUpdateView, ScopeBoundsView};

verus! {

/// Whether a pattern holds no star.
pub open spec fn literal(p: Seq<char>) -> bool {
    forall|i: int| 0 <= i < p.len() ==> p[i] != '*'
}

/// A pattern that begins without a star matches what begins the same, if its
/// rest matches the rest.
pub proof fn law_literal_beginning(p: Seq<char>, q: Seq<char>, v: Seq<char>)
    requires
        literal(p),
    ensures
        scope_match::glob(p + q, v) <==> p.is_prefix_of(v) && scope_match::glob(
            q,
            v.skip(p.len() as int),
        ),
    decreases p.len(),
{
    if p.len() == 0 {
        assert(p + q == q);
        assert(v.skip(0) == v);
        assert(v.subrange(0, 0) == p);
    } else {
        let rest = p.skip(1);
        assert((p + q).skip(1) == rest + q);
        assert(p[0] != '*');
        assert forall|i: int| 0 <= i < rest.len() implies rest[i] != '*' by {
            assert(p[i + 1] != '*');
        }
        if v.len() > 0 {
            law_literal_beginning(rest, q, v.skip(1));
            if p.len() <= v.len() {
                assert(v.skip(1).skip(rest.len() as int) == v.skip(p.len() as int));
            }
            if p.is_prefix_of(v) {
                assert(p[0] == v.subrange(0, p.len() as int)[0]);
                assert(rest == v.skip(1).subrange(0, rest.len() as int)) by {
                    assert(v.subrange(0, p.len() as int).skip(1) == v.skip(1).subrange(
                        0,
                        rest.len() as int,
                    ));
                }
            }
            if rest.is_prefix_of(v.skip(1)) && p[0] == v[0] {
                assert(p == seq![p[0]] + rest);
                assert(v.subrange(0, p.len() as int) == seq![v[0]] + v.skip(1).subrange(
                    0,
                    rest.len() as int,
                ));
            }
        }
    }
}

/// A pattern without stars matches itself and nothing else.
pub proof fn law_literal_matches_itself(p: Seq<char>, v: Seq<char>)
    requires
        literal(p),
    ensures
        scope_match::glob(p, v) <==> p == v,
{
    law_literal_beginning(p, Seq::empty(), v);
    assert(p + Seq::<char>::empty() == p);
    if p.is_prefix_of(v) && v.skip(p.len() as int).len() == 0 {
        assert(v.subrange(0, p.len() as int) == v);
    }
    if p == v {
        assert(v.subrange(0, p.len() as int) == p);
    }
}

/// A single star at the end of a pattern stands for anything without a slash.
pub proof fn law_star_stays_in_segment(p: Seq<char>, v: Seq<char>)
    requires
        literal(p),
    ensures
        scope_match::glob(p + seq!['*'], v) <==> p.is_prefix_of(v) && scope_match::no_slash(
            v.skip(p.len() as int),
        ),
{
    let star = seq!['*'];
    let rest = v.skip(p.len() as int);
    law_literal_beginning(p, star, v);
    assert(star.skip(1) == Seq::<char>::empty());
    if p.is_prefix_of(v) {
        if scope_match::glob(star, rest) {
            let n = choose|n: int|
                0 <= n <= rest.len() && scope_match::no_slash(rest.take(n)) && scope_match::glob(
                    star.skip(1),
                    #[trigger] rest.skip(n),
                );
            assert(rest.skip(n).len() == 0);
            assert(rest.take(n) == rest);
        }
        if scope_match::no_slash(rest) {
            assert(rest.take(rest.len() as int) == rest);
            assert(rest.skip(rest.len() as int).len() == 0);
            assert(scope_match::glob(star.skip(1), rest.skip(rest.len() as int)));
        }
    }
}

/// Two stars at the end of a pattern stand for anything at all.
pub proof fn law_double_star_crosses_segments(p: Seq<char>, v: Seq<char>)
    requires
        literal(p),
    ensures
        scope_match::glob(p + seq!['*', '*'], v) <==> p.is_prefix_of(v),
{
    let stars = seq!['*', '*'];
    let rest = v.skip(p.len() as int);
    law_literal_beginning(p, stars, v);
    assert(stars.skip(2) == Seq::<char>::empty());
    if p.is_prefix_of(v) {
        assert(rest.skip(rest.len() as int).len() == 0);
        assert(scope_match::glob(stars.skip(2), rest.skip(rest.len() as int)));
    }
}

/// A single star anywhere in a pattern stands for every run without a slash: what
/// stands before it is matched first, and what follows it matches the rest.
pub proof fn law_star_is_any_run(p: Seq<char>, q: Seq<char>, v: Seq<char>)
    requires
        literal(p),
        q.len() > 0 ==> q[0] != '*',
    ensures
        scope_match::glob(p + seq!['*'] + q, v) <==> exists|run: Seq<char>, rest: Seq<char>|
            !run.contains('/') && v == #[trigger] (p + run + rest) && scope_match::glob(q, rest),
{
    let star = seq!['*'] + q;
    let tail = v.skip(p.len() as int);
    assert(p + seq!['*'] + q == p + star);
    law_literal_beginning(p, star, v);
    assert(star.skip(1) == q);
    if scope_match::glob(p + star, v) {
        let n = choose|n: int|
            0 <= n <= tail.len() && scope_match::no_slash(tail.take(n)) && scope_match::glob(
                star.skip(1),
                #[trigger] tail.skip(n),
            );
        let run = tail.take(n);
        let rest = tail.skip(n);
        assert(v == p + run + rest) by {
            assert(v.subrange(0, p.len() as int) == p);
            assert(v =~= v.subrange(0, p.len() as int) + tail);
            assert(tail =~= run + rest);
        }
        assert(!run.contains('/') && v == p + run + rest && scope_match::glob(q, rest));
    }
    if exists|run: Seq<char>, rest: Seq<char>|
        !run.contains('/') && v == #[trigger] (p + run + rest) && scope_match::glob(q, rest) {
        let (run, rest) = choose|run: Seq<char>, rest: Seq<char>|
            !run.contains('/') && v == #[trigger] (p + run + rest) && scope_match::glob(q, rest);
        let n = run.len() as int;
        assert(v.subrange(0, p.len() as int) == p);
        assert(tail == run + rest);
        assert(tail.take(n) == run);
        assert(tail.skip(n) == rest);
        assert forall|i: int| 0 <= i < run.len() implies run[i] != '/' by {
            assert(run.contains(run[i]));
        }
        assert(scope_match::no_slash(tail.take(n)));
        assert(scope_match::glob(star.skip(1), tail.skip(n)));
        assert(scope_match::glob(star, tail));
    }
}

/// Two stars anywhere in a pattern stand for every run at all.
pub proof fn law_double_star_is_any_run(p: Seq<char>, q: Seq<char>, v: Seq<char>)
    requires
        literal(p),
    ensures
        scope_match::glob(p + seq!['*', '*'] + q, v) <==> exists|run: Seq<char>, rest: Seq<char>|
            v == #[trigger] (p + run + rest) && scope_match::glob(q, rest),
{
    let stars = seq!['*', '*'] + q;
    let tail = v.skip(p.len() as int);
    assert(p + seq!['*', '*'] + q == p + stars);
    law_literal_beginning(p, stars, v);
    assert(stars.skip(2) == q);
    if scope_match::glob(p + stars, v) {
        let n = choose|n: int|
            0 <= n <= tail.len() && scope_match::glob(stars.skip(2), #[trigger] tail.skip(n));
        let run = tail.take(n);
        let rest = tail.skip(n);
        assert(v == p + run + rest) by {
            assert(v.subrange(0, p.len() as int) == p);
            assert(v =~= v.subrange(0, p.len() as int) + tail);
            assert(tail =~= run + rest);
        }
        assert(v == p + run + rest && scope_match::glob(q, rest));
    }
    if exists|run: Seq<char>, rest: Seq<char>|
        v == #[trigger] (p + run + rest) && scope_match::glob(q, rest) {
        let (run, rest) = choose|run: Seq<char>, rest: Seq<char>|
            v == #[trigger] (p + run + rest) && scope_match::glob(q, rest);
        let n = run.len() as int;
        assert(v.subrange(0, p.len() as int) == p);
        assert(tail == run + rest);
        assert(tail.skip(n) == rest);
        assert(scope_match::glob(stars.skip(2), tail.skip(n)));
        assert(scope_match::glob(stars, tail));
    }
}

/// Between two texts a single star stands for exactly the runs without a slash.
pub proof fn law_star_between_texts(p: Seq<char>, q: Seq<char>, v: Seq<char>)
    requires
        literal(p),
        literal(q),
    ensures
        scope_match::glob(p + seq!['*'] + q, v) <==> exists|run: Seq<char>|
            !run.contains('/') && v == #[trigger] (p + run + q),
{
    if q.len() > 0 {
        assert(q[0] != '*');
    }
    law_star_is_any_run(p, q, v);
    if scope_match::glob(p + seq!['*'] + q, v) {
        let (run, rest) = choose|run: Seq<char>, rest: Seq<char>|
            !run.contains('/') && v == #[trigger] (p + run + rest) && scope_match::glob(q, rest);
        law_literal_matches_itself(q, rest);
        assert(v == p + run + q);
    }
    if exists|run: Seq<char>| !run.contains('/') && v == #[trigger] (p + run + q) {
        let run = choose|run: Seq<char>| !run.contains('/') && v == #[trigger] (p + run + q);
        law_literal_matches_itself(q, q);
        assert(!run.contains('/') && v == p + run + q && scope_match::glob(q, q));
    }
}

/// The number of slashes in a text.
pub open spec fn slashes(v: Seq<char>) -> nat
    decreases v.len(),
{
    if v.len() == 0 {
        0
    } else {
        slashes(v.skip(1)) + if v[0] == '/' {
            1nat
        } else {
            0
        }
    }
}

/// Whether no two stars of a pattern stand side by side.
pub open spec fn single_stars(p: Seq<char>) -> bool {
    forall|i: int| 0 <= i < p.len() - 1 ==> !(#[trigger] p[i] == '*' && p[i + 1] == '*')
}

/// A run without slashes adds none.
pub proof fn lemma_slashes_skip(v: Seq<char>, n: int)
    requires
        0 <= n <= v.len(),
        scope_match::no_slash(v.take(n)),
    ensures
        slashes(v.skip(n)) == slashes(v),
    decreases n,
{
    if n == 0 {
        assert(v.skip(0) == v);
    } else {
        assert(v.take(n)[0] == v[0]);
        let rest = v.skip(1).take(n - 1);
        assert forall|i: int| 0 <= i < rest.len() implies #[trigger] rest[i] != '/' by {
            assert(v.take(n)[i + 1] == v[i + 1]);
        }
        lemma_slashes_skip(v.skip(1), n - 1);
        assert(v.skip(1).skip(n - 1) == v.skip(n));
    }
}

/// A pattern with single stars only matches values of its own depth: they have
/// as many slashes as the pattern.
pub proof fn law_single_stars_keep_depth(p: Seq<char>, v: Seq<char>)
    requires
        single_stars(p),
        scope_match::glob(p, v),
    ensures
        slashes(v) == slashes(p),
    decreases p.len(),
{
    if p.len() > 0 {
        let rest = p.skip(1);
        assert forall|i: int| 0 <= i < rest.len() - 1 implies !(#[trigger] rest[i] == '*' && rest[i
            + 1] == '*') by {
            assert(p[i + 1] == rest[i]);
        }
        if p[0] == '*' {
            if p.len() >= 2 {
                assert(!(p[0] == '*' && p[1] == '*'));
            }
            let n = choose|n: int|
                0 <= n <= v.len() && scope_match::no_slash(v.take(n)) && scope_match::glob(
                    p.skip(1),
                    #[trigger] v.skip(n),
                );
            law_single_stars_keep_depth(rest, v.skip(n));
            lemma_slashes_skip(v, n);
        } else {
            law_single_stars_keep_depth(rest, v.skip(1));
        }
    }
}

/// No patterns match nothing.
pub proof fn law_no_patterns_match_nothing(v: Seq<char>)
    ensures
        !scope_match::any_glob(Seq::empty(), v),
{
}

/// An update is let through exactly if its reference and all its paths are in
/// bounds.
pub proof fn law_let_through(bounds: ScopeBoundsView, update: RefUpdateView)
    ensures
        scope_match::rejection(bounds, update) is None <==> scope_match::allows(
            bounds.ref_patterns,
            update.reference,
        ) && (forall|i: int|
            0 <= i < update.changed_paths.len() ==> scope_match::allows(
                bounds.path_patterns,
                #[trigger] update.changed_paths[i],
            )),
{
    lemma_first_forbidden_is_first(bounds.path_patterns, update.changed_paths);
}

/// What [`scope_match::first_forbidden`] says.
pub proof fn lemma_first_forbidden_is_first(
    patterns: Option<Seq<Seq<char>>>,
    values: Seq<Seq<char>>,
)
    ensures
        ({
            let n = scope_match::first_forbidden(patterns, values);
            &&& n <= values.len()
            &&& forall|i: int| 0 <= i < n ==> scope_match::allows(patterns, #[trigger] values[i])
            &&& n < values.len() ==> !scope_match::allows(patterns, values[n as int])
        }),
    decreases values.len(),
{
    if values.len() > 0 && scope_match::allows(patterns, values[0]) {
        lemma_first_forbidden_is_first(patterns, values.skip(1));
        assert forall|i: int|
            0 <= i < scope_match::first_forbidden(patterns, values) implies scope_match::allows(
            patterns,
            #[trigger] values[i],
        ) by {
            if i > 0 {
                assert(values.skip(1)[i - 1] == values[i]);
            }
        }
    }
}

/// A deletion changes no paths, so it is judged on its reference alone.
pub proof fn law_deletion_judged_on_reference(bounds: ScopeBoundsView, reference: Seq<char>)
    ensures
        scope_match::rejection(
            bounds,
            RefUpdateView { reference, changed_paths: Seq::empty() },
        ) is None <==> scope_match::allows(bounds.ref_patterns, reference),
{
    law_let_through(bounds, RefUpdateView { reference, changed_paths: Seq::empty() });
}

/// A push that is not confined is let through.
pub proof fn law_unconfined_lets_all_through(updates: Seq<RefUpdateView>)
    ensures
        scope_match::rejections(
            (ScopeBoundsView { ref_patterns: None, path_patterns: None }),
            updates,
        ).len() == 0,
    decreases updates.len(),
{
    let bounds = ScopeBoundsView { ref_patterns: None, path_patterns: None };
    let f = |update: RefUpdateView| scope_match::rejection(bounds, update);
    if updates.len() > 0 {
        let rest = updates.drop_last();
        law_unconfined_lets_all_through(rest);
        law_let_through(bounds, updates.last());
        updates.lemma_filter_map_take_succ(f, updates.len() - 1);
        assert(updates.take(updates.len() as int) == updates);
        assert(updates.take(updates.len() - 1) == rest);
    }
}

/// Updates are judged independently of each other.
pub proof fn law_updates_judged_alone(
    bounds: ScopeBoundsView,
    a: Seq<RefUpdateView>,
    b: Seq<RefUpdateView>,
)
    ensures
        scope_match::rejections(bounds, a + b) == scope_match::rejections(bounds, a)
            + scope_match::rejections(bounds, b),
    decreases b.len(),
{
    let f = |update: RefUpdateView| scope_match::rejection(bounds, update);
    if b.len() == 0 {
        assert(a + b == a);
    } else {
        let whole = a + b;
        law_updates_judged_alone(bounds, a, b.drop_last());
        whole.lemma_filter_map_take_succ(f, whole.len() - 1);
        b.lemma_filter_map_take_succ(f, b.len() - 1);
        assert(whole.take(whole.len() as int) == whole);
        assert(whole.take(whole.len() - 1) == a + b.drop_last());
        assert(b.take(b.len() as int) == b);
        assert(b.take(b.len() - 1) == b.drop_last());
    }
}

} // verus!
