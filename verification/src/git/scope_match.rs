//! Which references and paths a push may touch.
//!
//! A pattern is matched in full. `*` stands for any run of characters without a
//! slash, `**` for any run of characters, and every other character for itself.

use vstd::prelude::*;

use crate::text;

verus! {

/// Whether a text holds no slash.
pub open spec fn no_slash(v: Seq<char>) -> bool {
    forall|i: int| 0 <= i < v.len() ==> v[i] != '/'
}

/// Whether a pattern matches a value.
pub open spec fn glob(p: Seq<char>, v: Seq<char>) -> bool
    decreases p.len(),
{
    if p.len() == 0 {
        v.len() == 0
    } else if p[0] == '*' && p.len() >= 2 && p[1] == '*' {
        exists|n: int| 0 <= n <= v.len() && glob(p.skip(2), #[trigger] v.skip(n))
    } else if p[0] == '*' {
        exists|n: int|
            0 <= n <= v.len() && no_slash(v.take(n)) && glob(p.skip(1), #[trigger] v.skip(n))
    } else {
        v.len() > 0 && v[0] == p[0] && glob(p.skip(1), v.skip(1))
    }
}

/// Whether any of the patterns matches a value.
pub open spec fn any_glob(patterns: Seq<Seq<char>>, v: Seq<char>) -> bool {
    exists|i: int| 0 <= i < patterns.len() && glob(#[trigger] patterns[i], v)
}

/// Whether a pattern matches a value, [`glob`].
pub fn matches_glob(pattern: &str, value: &str) -> (r: bool)
    ensures
        r == glob(pattern@, value@),
{
    let p = text::to_chars(pattern);
    let v = text::to_chars(value);
    assert(p@.skip(0) == p@);
    assert(v@.skip(0) == v@);
    glob_match(&p, 0, &v, 0)
}

/// Whether the rest of a pattern matches the rest of a value.
fn glob_match(p: &Vec<char>, i: usize, v: &Vec<char>, j: usize) -> (r: bool)
    requires
        i <= p@.len(),
        j <= v@.len(),
    ensures
        r == glob(p@.skip(i as int), v@.skip(j as int)),
    decreases p@.len() - i,
{
    let ghost pr = p@.skip(i as int);
    let ghost vr = v@.skip(j as int);
    if i == p.len() {
        return j == v.len();
    }
    if p[i] == '*' {
        if i + 1 < p.len() && p[i + 1] == '*' {
            assert(pr.skip(2) == p@.skip(i + 2));
            let rest: usize = i + 2;
            let mut k: usize = j;
            loop
                invariant
                    j <= k <= v@.len(),
                    rest == i + 2 <= p@.len(),
                    pr == p@.skip(i as int),
                    vr == v@.skip(j as int),
                    pr.len() >= 2 && pr[0] == '*' && pr[1] == '*',
                    pr.skip(2) == p@.skip(i + 2),
                    forall|n: int| 0 <= n < k - j ==> !glob(pr.skip(2), #[trigger] vr.skip(n)),
                decreases v@.len() - k,
            {
                assert(vr.skip(k - j) == v@.skip(k as int));
                if glob_match(p, rest, v, k) {
                    assert(glob(pr.skip(2), vr.skip(k - j)));
                    return true;
                }
                if k == v.len() {
                    assert(!glob(pr, vr));
                    return false;
                }
                k = k + 1;
            }
        }
        assert(pr.skip(1) == p@.skip(i + 1));
        let rest: usize = i + 1;
        let mut k: usize = j;
        assert(vr.take(0).len() == 0);
        loop
            invariant
                j <= k <= v@.len(),
                rest == i + 1 <= p@.len(),
                pr == p@.skip(i as int),
                vr == v@.skip(j as int),
                pr.len() >= 1 && pr[0] == '*',
                pr.len() < 2 || pr[1] != '*',
                pr.skip(1) == p@.skip(i + 1),
                no_slash(vr.take(k - j)),
                forall|n: int| 0 <= n < k - j ==> !glob(pr.skip(1), #[trigger] vr.skip(n)),
            decreases v@.len() - k,
        {
            assert(vr.skip(k - j) == v@.skip(k as int));
            if glob_match(p, rest, v, k) {
                assert(glob(pr.skip(1), vr.skip(k - j)));
                return true;
            }
            if k < v.len() && v[k] != '/' {
                assert(vr.take(k + 1 - j) == vr.take(k - j).push(v@[k as int]));
                k = k + 1;
            } else {
                proof {
                    assert forall|n: int| 0 <= n <= vr.len() && no_slash(vr.take(n)) implies !glob(
                        pr.skip(1),
                        #[trigger] vr.skip(n),
                    ) by {
                        if n > k - j {
                            assert(vr.take(n)[k - j] == '/');
                        }
                    }
                }
                return false;
            }
        }
    }
    assert(pr.skip(1) == p@.skip(i + 1));
    if j < v.len() && p[i] == v[j] {
        assert(vr.skip(1) == v@.skip(j + 1));
        glob_match(p, i + 1, v, j + 1)
    } else {
        false
    }
}

/// Whether any of the patterns matches a value, [`any_glob`]. No patterns match
/// nothing.
pub fn matches_any_glob(patterns: &[String], value: &str) -> (r: bool)
    ensures
        r == any_glob(patterns.deep_view(), value@),
{
    let ghost all = patterns.deep_view();
    let mut i: usize = 0;
    while i < patterns.len()
        invariant
            i <= patterns@.len(),
            all == patterns.deep_view(),
            all.len() == patterns@.len(),
            forall|j: int| 0 <= j < i ==> !glob(#[trigger] all[j], value@),
        decreases patterns@.len() - i,
    {
        assert(all[i as int] == patterns@[i as int]@);
        if matches_glob(&patterns[i], value) {
            return true;
        }
        i = i + 1;
    }
    false
}

/// An update of a reference and the paths that its new objects change; a
/// deletion changes none.
#[derive(Debug, Clone)]
pub struct RefUpdate {
    pub reference: String,
    pub changed_paths: Vec<String>,
}

/// What a push is confined to. Nothing in one respect means that it is not
/// confined in that respect.
#[derive(Debug, Clone)]
pub struct ScopeBounds {
    pub ref_patterns: Option<Vec<String>>,
    pub path_patterns: Option<Vec<String>>,
}

/// An update that is refused, and why.
#[derive(Debug, Clone, PartialEq, Eq)]
pub struct UpdateRejection {
    pub reference: String,
    pub reason: String,
}

/// The value of a [`RefUpdate`].
pub struct RefUpdateView {
    pub reference: Seq<char>,
    pub changed_paths: Seq<Seq<char>>,
}

/// The value of [`ScopeBounds`].
pub struct ScopeBoundsView {
    pub ref_patterns: Option<Seq<Seq<char>>>,
    pub path_patterns: Option<Seq<Seq<char>>>,
}

/// The value of an [`UpdateRejection`].
pub struct UpdateRejectionView {
    pub reference: Seq<char>,
    pub reason: Seq<char>,
}

impl DeepView for RefUpdate {
    type V = RefUpdateView;

    open spec fn deep_view(&self) -> RefUpdateView {
        RefUpdateView {
            reference: self.reference@,
            changed_paths: self.changed_paths.deep_view(),
        }
    }
}

impl DeepView for ScopeBounds {
    type V = ScopeBoundsView;

    open spec fn deep_view(&self) -> ScopeBoundsView {
        ScopeBoundsView {
            ref_patterns: self.ref_patterns.deep_view(),
            path_patterns: self.path_patterns.deep_view(),
        }
    }
}

impl DeepView for UpdateRejection {
    type V = UpdateRejectionView;

    open spec fn deep_view(&self) -> UpdateRejectionView {
        UpdateRejectionView { reference: self.reference@, reason: self.reason@ }
    }
}

/// Whether patterns allow a value; where there are none it is not confined.
pub open spec fn allows(patterns: Option<Seq<Seq<char>>>, v: Seq<char>) -> bool {
    match patterns {
        None => true,
        Some(list) => any_glob(list, v),
    }
}

/// The position of the first value that patterns do not allow, or the number of
/// values.
pub open spec fn first_forbidden(patterns: Option<Seq<Seq<char>>>, values: Seq<Seq<char>>) -> nat
    decreases values.len(),
{
    if values.len() == 0 || !allows(patterns, values[0]) {
        0
    } else {
        1 + first_forbidden(patterns, values.skip(1))
    }
}

/// Why an update is refused, if it is: its reference must be in bounds, and so
/// must every path that it changes.
pub open spec fn rejection(bounds: ScopeBoundsView, update: RefUpdateView) -> Option<
    UpdateRejectionView,
> {
    let n = first_forbidden(bounds.path_patterns, update.changed_paths);
    if !allows(bounds.ref_patterns, update.reference) {
        Some(
            UpdateRejectionView {
                reference: update.reference,
                reason: "ref "@ + update.reference + " is outside this token's scope"@,
            },
        )
    } else if n < update.changed_paths.len() {
        Some(
            UpdateRejectionView {
                reference: update.reference,
                reason: "path "@ + update.changed_paths[n as int]
                    + " is outside this token's scope"@,
            },
        )
    } else {
        None
    }
}

/// The updates that are refused, each with its reason.
pub open spec fn rejections(bounds: ScopeBoundsView, updates: Seq<RefUpdateView>) -> Seq<
    UpdateRejectionView,
> {
    updates.filter_map(|update: RefUpdateView| rejection(bounds, update))
}

/// Whether a reference is in bounds.
fn ref_allowed(bounds: &ScopeBounds, reference: &str) -> (r: bool)
    ensures
        r == allows(bounds.deep_view().ref_patterns, reference@),
{
    match &bounds.ref_patterns {
        None => true,
        Some(patterns) => {
            let list = patterns.as_slice();
            assert(list.deep_view() =~= patterns.deep_view());
            matches_any_glob(list, reference)
        },
    }
}

/// The position [`first_forbidden`] gives is the first forbidden one.
pub proof fn lemma_first_forbidden(
    patterns: Option<Seq<Seq<char>>>,
    values: Seq<Seq<char>>,
    n: nat,
)
    requires
        n <= values.len(),
        forall|i: int| 0 <= i < n ==> allows(patterns, #[trigger] values[i]),
        n < values.len() ==> !allows(patterns, values[n as int]),
    ensures
        first_forbidden(patterns, values) == n,
    decreases n,
{
    if n > 0 {
        let rest = values.skip(1);
        assert(allows(patterns, values[0]));
        assert forall|i: int| 0 <= i < n - 1 implies allows(patterns, #[trigger] rest[i]) by {
            assert(allows(patterns, values[i + 1]));
        }
        lemma_first_forbidden(patterns, rest, (n - 1) as nat);
    }
}

/// The first of the changed paths that is out of bounds.
fn first_forbidden_path<'a>(bounds: &ScopeBounds, changed_paths: &'a Vec<String>) -> (r: Option<
    &'a String,
>)
    ensures
        ({
            let paths = changed_paths.deep_view();
            let n = first_forbidden(bounds.deep_view().path_patterns, paths);
            r.deep_view() == if n < paths.len() {
                Some(paths[n as int])
            } else {
                None
            }
        }),
{
    let ghost limits = bounds.deep_view().path_patterns;
    let ghost paths = changed_paths.deep_view();
    match &bounds.path_patterns {
        None => {
            proof {
                lemma_first_forbidden(limits, paths, paths.len());
            }
            None
        },
        Some(patterns) => {
            let list = patterns.as_slice();
            assert(list.deep_view() =~= patterns.deep_view());
            let mut i: usize = 0;
            while i < changed_paths.len()
                invariant
                    i <= changed_paths@.len(),
                    paths == changed_paths.deep_view(),
                    paths.len() == changed_paths@.len(),
                    limits == Some(list.deep_view()),
                    limits == bounds.deep_view().path_patterns,
                    forall|j: int| 0 <= j < i ==> allows(limits, #[trigger] paths[j]),
                decreases changed_paths.len() - i,
            {
                assert(paths[i as int] == changed_paths@[i as int]@);
                if !matches_any_glob(list, &changed_paths[i]) {
                    proof {
                        lemma_first_forbidden(limits, paths, i as nat);
                    }
                    return Some(&changed_paths[i]);
                }
                i = i + 1;
            }
            proof {
                lemma_first_forbidden(limits, paths, paths.len());
            }
            None
        },
    }
}

/// Judges each update of a push by itself, [`rejections`]. None of them being
/// refused means that the push is allowed.
pub fn evaluate_receive_pack(bounds: &ScopeBounds, updates: &[RefUpdate]) -> (r: Vec<
    UpdateRejection,
>)
    ensures
        r.deep_view() == rejections(bounds.deep_view(), updates.deep_view()),
{
    let ghost limits = bounds.deep_view();
    let ghost all = updates.deep_view();
    let ghost f = |update: RefUpdateView| rejection(limits, update);
    let mut refused: Vec<UpdateRejection> = Vec::new();
    let mut i: usize = 0;
    assert(refused.deep_view() =~= all.take(0).filter_map(f));
    while i < updates.len()
        invariant
            i <= updates@.len(),
            limits == bounds.deep_view(),
            all == updates.deep_view(),
            all.len() == updates@.len(),
            f == |update: RefUpdateView| rejection(limits, update),
            refused.deep_view() == all.take(i as int).filter_map(f),
        decreases updates@.len() - i,
    {
        let update = &updates[i];
        let ghost before = refused.deep_view();
        proof {
            all.lemma_filter_map_take_succ(f, i as int);
            assert(all[i as int] == update.deep_view());
        }
        if !ref_allowed(bounds, &update.reference) {
            let reason = text::concat3(
                "ref ",
                &update.reference,
                " is outside this token's scope",
            );
            refused.push(UpdateRejection { reference: update.reference.clone(), reason });
            assert(refused.deep_view() =~= before + seq![f(all[i as int])->0]);
        } else {
            match first_forbidden_path(bounds, &update.changed_paths) {
                Some(forbidden) => {
                    let reason = text::concat3(
                        "path ",
                        forbidden,
                        " is outside this token's scope",
                    );
                    refused.push(UpdateRejection { reference: update.reference.clone(), reason });
                    assert(refused.deep_view() =~= before + seq![f(all[i as int])->0]);
                },
                None => {},
            }
        }
        i = i + 1;
    }
    assert(all.take(i as int) == all);
    refused
}

} // verus!
