//! Unique-name resolution for grids.
//!
//! Every grid written into an archive must carry a non-empty name that no
//! other grid of the same archive uses. A requested name is kept as it is
//! when it is non-empty and no other grid requested it; otherwise numeric
//! suffixes `[0]`, `[1]`, ... are tried in order until an unused candidate
//! is found. The outcome is a pure function of the requested names and
//! their order.

use vstd::prelude::*;
use vstd::seq_lib::*;
use vstd::set_lib::lemma_len_subset;

verus! {

/// Decimal digits of `n`, most significant first.
pub open spec fn spec_dec(n: nat) -> Seq<u8>
    decreases n,
{
    if n < 10 {
        seq![(48 + n) as u8]
    } else {
        spec_dec(n / 10).push((48 + (n % 10)) as u8)
    }
}

/// The candidate built from `name` and the suffix number `n`: `name[n]`.
pub open spec fn spec_suffix(name: Seq<u8>, n: nat) -> Seq<u8> {
    name + seq![91u8] + spec_dec(n) + seq![93u8]
}

/// The views of a sequence of byte vectors.
pub open spec fn views_of(v: Seq<Vec<u8>>) -> Seq<Seq<u8>> {
    v.map_values(|x: Vec<u8>| x@)
}

/// Whether the `i`-th requested name must get a suffix before any
/// collision check: it is empty, or some other grid requested it too.
pub open spec fn spec_needs_suffix(names: Seq<Seq<u8>>, i: int) -> bool {
    names[i].len() == 0 || exists|j: int|
        0 <= j < names.len() && j != i && names[j] == names[i]
}

/// The `k`-th candidate tried for a requested name.
pub open spec fn spec_candidate(orig: Seq<u8>, dup: bool, k: nat) -> Seq<u8> {
    if k == 0 && !dup {
        orig
    } else {
        spec_suffix(orig, k)
    }
}

/// The resolved name `r` of position `i` is the first candidate that
/// none of the earlier resolved names `prior` equals.
pub open spec fn spec_resolved_one(names: Seq<Seq<u8>>, i: int, prior: Seq<Seq<u8>>, r: Seq<u8>) -> bool {
    exists|k: nat|
        #![trigger spec_candidate(names[i], spec_needs_suffix(names, i), k)]
        {
            &&& r == spec_candidate(names[i], spec_needs_suffix(names, i), k)
            &&& !prior.to_set().contains(
                spec_candidate(names[i], spec_needs_suffix(names, i), k),
            )
            &&& forall|m: nat|
                m < k ==> prior.to_set().contains(
                    #[trigger] spec_candidate(names[i], spec_needs_suffix(names, i), m),
                )
        }
}

/// The whole resolution: each position resolved against the ones before it.
pub open spec fn spec_resolution(names: Seq<Seq<u8>>, resolved: Seq<Seq<u8>>) -> bool {
    &&& resolved.len() == names.len()
    &&& forall|i: int|
        0 <= i < names.len() ==> spec_resolved_one(names, i, resolved.take(i), resolved[i])
}

proof fn lemma_dec_len(n: nat)
    ensures
        spec_dec(n).len() >= 1,
    decreases n,
{
    if n >= 10 {
        lemma_dec_len(n / 10);
    }
}

proof fn lemma_dec_injective(a: nat, b: nat)
    requires
        spec_dec(a) == spec_dec(b),
    ensures
        a == b,
    decreases a,
{
    if a < 10 && b < 10 {
        assert(spec_dec(a)[0] == (48 + a) as u8);
        assert(spec_dec(b)[0] == (48 + b) as u8);
        assert(((48 + a) as u8) as int == 48 + a);
        assert(((48 + b) as u8) as int == 48 + b);
    } else if a < 10 {
        lemma_dec_len(b / 10);
        assert(spec_dec(b).len() >= 2);
    } else if b < 10 {
        lemma_dec_len(a / 10);
        assert(spec_dec(a).len() >= 2);
    } else {
        assert(spec_dec(a).last() == (48 + (a % 10)) as u8);
        assert(spec_dec(b).last() == (48 + (b % 10)) as u8);
        assert(a % 10 < 10 && b % 10 < 10);
        assert(((48 + (a % 10)) as u8) as int == 48 + (a % 10));
        assert(((48 + (b % 10)) as u8) as int == 48 + (b % 10));
        assert(a % 10 == b % 10);
        assert(spec_dec(a).drop_last() =~= spec_dec(a / 10));
        assert(spec_dec(b).drop_last() =~= spec_dec(b / 10));
        lemma_dec_injective(a / 10, b / 10);
        assert(a == 10 * (a / 10) + (a % 10)) by (nonlinear_arith);
        assert(b == 10 * (b / 10) + (b % 10)) by (nonlinear_arith);
    }
}

proof fn lemma_suffix_injective(orig: Seq<u8>, a: nat, b: nat)
    requires
        spec_suffix(orig, a) == spec_suffix(orig, b),
    ensures
        a == b,
{
    let sa = spec_suffix(orig, a);
    let sb = spec_suffix(orig, b);
    assert(sa.len() == orig.len() + 2 + spec_dec(a).len());
    assert(sb.len() == orig.len() + 2 + spec_dec(b).len());
    assert(spec_dec(a).len() == spec_dec(b).len());
    assert forall|t: int| 0 <= t < spec_dec(a).len() implies spec_dec(a)[t] == spec_dec(b)[t] by {
        assert(sa[orig.len() + 1 + t] == spec_dec(a)[t]);
        assert(sb[orig.len() + 1 + t] == spec_dec(b)[t]);
    }
    assert(spec_dec(a) =~= spec_dec(b));
    lemma_dec_injective(a, b);
}

proof fn lemma_candidate_injective(orig: Seq<u8>, dup: bool, a: nat, b: nat)
    requires
        a != b,
    ensures
        spec_candidate(orig, dup, a) != spec_candidate(orig, dup, b),
{
    lemma_dec_len(a);
    lemma_dec_len(b);
    if spec_candidate(orig, dup, a) == spec_candidate(orig, dup, b) {
        if (a == 0 && !dup) || (b == 0 && !dup) {
            // one side is the bare name, the other a strictly longer suffixed form
            assert(spec_suffix(orig, a).len() > orig.len());
            assert(spec_suffix(orig, b).len() > orig.len());
        } else {
            lemma_suffix_injective(orig, a, b);
        }
    }
}

/// Whether two byte vectors hold the same bytes.
pub fn eq_bytes(a: &Vec<u8>, b: &Vec<u8>) -> (r: bool)
    ensures
        r <==> a@ == b@,
{
    if a.len() != b.len() {
        proof {
            assert(a@ != b@);
        }
        return false;
    }
    let mut j: usize = 0;
    while j < a.len()
        invariant
            j <= a@.len(),
            a@.len() == b@.len(),
            forall|t: int| 0 <= t < j ==> a@[t] == b@[t],
        decreases a@.len() - j,
    {
        if a[j] != b[j] {
            return false;
        }
        j = j + 1;
    }
    proof {
        assert(a@ =~= b@);
    }
    true
}

/// A fresh vector holding the same bytes.
pub fn copy_bytes(src: &Vec<u8>) -> (r: Vec<u8>)
    ensures
        r@ == src@,
{
    let mut r: Vec<u8> = Vec::new();
    let mut j: usize = 0;
    while j < src.len()
        invariant
            j <= src@.len(),
            r@ == src@.take(j as int),
        decreases src@.len() - j,
    {
        r.push(src[j]);
        proof {
            assert(src@.take(j + 1) =~= src@.take(j as int).push(src@[j as int]));
        }
        j = j + 1;
    }
    proof {
        assert(src@.take(src@.len() as int) =~= src@);
    }
    r
}

/// The decimal digits of `n` as bytes.
pub fn dec_bytes(n: u64) -> (r: Vec<u8>)
    ensures
        r@ == spec_dec(n as nat),
    decreases n,
{
    if n < 10 {
        let mut r: Vec<u8> = Vec::new();
        r.push(48 + n as u8);
        proof {
            assert(r@ =~= spec_dec(n as nat));
        }
        r
    } else {
        let mut r = dec_bytes(n / 10);
        r.push(48 + (n % 10) as u8);
        r
    }
}

/// `name` with the numeric suffix `[n]` appended.
pub fn add_suffix(name: &Vec<u8>, n: u64) -> (r: Vec<u8>)
    ensures
        r@ == spec_suffix(name@, n as nat),
{
    let mut r = copy_bytes(name);
    r.push(91);
    let digits = dec_bytes(n);
    let mut j: usize = 0;
    while j < digits.len()
        invariant
            j <= digits@.len(),
            r@ == name@ + seq![91u8] + digits@.take(j as int),
        decreases digits@.len() - j,
    {
        r.push(digits[j]);
        proof {
            assert(digits@.take(j + 1) =~= digits@.take(j as int).push(digits@[j as int]));
            assert(r@ =~= name@ + seq![91u8] + digits@.take(j + 1));
        }
        j = j + 1;
    }
    proof {
        assert(digits@.take(digits@.len() as int) =~= digits@);
    }
    r.push(93);
    proof {
        assert(r@ =~= spec_suffix(name@, n as nat));
    }
    r
}

/// Whether some vector of `v` holds the same bytes as `x`.
fn contains_name(v: &Vec<Vec<u8>>, x: &Vec<u8>) -> (r: bool)
    ensures
        r <==> views_of(v@).to_set().contains(x@),
{
    let mut j: usize = 0;
    let mut found = false;
    while j < v.len()
        invariant
            j <= v@.len(),
            found <==> exists|t: int| 0 <= t < j && views_of(v@)[t] == x@,
        decreases v@.len() - j,
    {
        if !found {
            if eq_bytes(&v[j], x) {
                found = true;
                proof {
                    assert(views_of(v@)[j as int] == x@);
                }
            }
        }
        j = j + 1;
    }
    proof {
        if found {
            let t = choose|t: int| 0 <= t < v@.len() && views_of(v@)[t] == x@;
            assert(views_of(v@).contains(x@));
        }
        if views_of(v@).to_set().contains(x@) {
            assert(views_of(v@).contains(x@));
        }
    }
    found
}

/// Whether the `i`-th requested name is empty or requested more than once.
fn needs_suffix(names: &Vec<Vec<u8>>, i: usize) -> (r: bool)
    requires
        i < names@.len(),
    ensures
        r == spec_needs_suffix(views_of(names@), i as int),
{
    if names[i].len() == 0 {
        return true;
    }
    let mut j: usize = 0;
    while j < names.len()
        invariant
            i < names@.len(),
            j <= names@.len(),
            forall|t: int|
                0 <= t < j && t != i ==> views_of(names@)[t] != views_of(names@)[i as int],
        decreases names@.len() - j,
    {
        if j != i {
            if eq_bytes(&names[j], &names[i]) {
                proof {
                    assert(views_of(names@)[j as int] == views_of(names@)[i as int]);
                }
                return true;
            }
        }
        j = j + 1;
    }
    false
}

/// All candidates `0 ..= k` of one name are pairwise distinct, so when
/// every one of them already stands among `i` earlier resolved names,
/// `k` must be below `i`.
proof fn lemma_candidates_bound(orig: Seq<u8>, dup: bool, k: nat, resolved: Seq<Seq<u8>>)
    requires
        forall|m: nat| m <= k ==> resolved.to_set().contains(#[trigger] spec_candidate(orig, dup, m)),
    ensures
        k < resolved.len(),
{
    broadcast use seq_to_set_is_finite;

    let cands = Seq::new(k + 1, |m: int| spec_candidate(orig, dup, m as nat));
    assert forall|x: int, y: int| 0 <= x < cands.len() && 0 <= y < cands.len() && x != y
        implies cands[x] != cands[y] by {
        lemma_candidate_injective(orig, dup, x as nat, y as nat);
    }
    assert(cands.no_duplicates());
    cands.unique_seq_to_set();
    assert(cands.to_set().len() == k + 1);
    assert forall|x: Seq<u8>| cands.to_set().contains(x) implies resolved.to_set().contains(x) by {
        let m = choose|m: int| 0 <= m < cands.len() && cands[m] == x;
        assert(resolved.to_set().contains(spec_candidate(orig, dup, m as nat)));
    }
    assert(cands.to_set() <= resolved.to_set());
    lemma_len_subset(cands.to_set(), resolved.to_set());
    resolved.lemma_cardinality_of_set();
}

/// Resolves every requested grid name to a unique non-empty archive name.
///
/// The result is pinned down by `spec_resolution`: position by position,
/// the first unused candidate is taken. Resolved names are pairwise
/// distinct and non-empty, and each is the requested name itself or a
/// suffixed form of it; requested names that are non-empty and unique
/// come through unchanged.
pub fn resolve_names(names: &Vec<Vec<u8>>) -> (r: Vec<Vec<u8>>)
    ensures
        spec_resolution(views_of(names@), views_of(r@)),
        r@.len() == names@.len(),
        forall|a: int, b: int|
            0 <= a < b < r@.len() ==> views_of(r@)[a] != views_of(r@)[b],
        forall|i: int| 0 <= i < r@.len() ==> views_of(r@)[i].len() > 0,
        forall|i: int|
            0 <= i < r@.len() ==> views_of(r@)[i] == views_of(names@)[i] || exists|k: nat|
                views_of(r@)[i] == spec_suffix(views_of(names@)[i], k),
{
    let ghost nviews = views_of(names@);
    let mut resolved: Vec<Vec<u8>> = Vec::new();
    let mut i: usize = 0;
    while i < names.len()
        invariant
            i <= names@.len(),
            resolved@.len() == i,
            forall|t: int|
                0 <= t < i ==> spec_resolved_one(
                    nviews,
                    t,
                    views_of(resolved@).take(t),
                    views_of(resolved@)[t],
                ),
            forall|a: int, b: int|
                0 <= a < b < i ==> views_of(resolved@)[a] != views_of(resolved@)[b],
            forall|t: int| 0 <= t < i ==> views_of(resolved@)[t].len() > 0,
            forall|t: int|
                0 <= t < i ==> views_of(resolved@)[t] == nviews[t] || exists|k: nat|
                    views_of(resolved@)[t] == spec_suffix(nviews[t], k),
            nviews == views_of(names@),
        decreases names@.len() - i,
    {
        let dup = needs_suffix(names, i);
        let ghost orig = nviews[i as int];
        let mut k: u64 = 0;
        let mut cand: Vec<u8> = if dup {
            add_suffix(&names[i], 0)
        } else {
            copy_bytes(&names[i])
        };
        proof {
            assert(cand@ == spec_candidate(orig, dup, 0));
        }
        while contains_name(&resolved, &cand)
            invariant
                i < names@.len(),
                resolved@.len() == i,
                dup == spec_needs_suffix(nviews, i as int),
                orig == nviews[i as int],
                nviews == views_of(names@),
                cand@ == spec_candidate(orig, dup, k as nat),
                k <= i,
                forall|m: nat|
                    m < k ==> views_of(resolved@).to_set().contains(
                        #[trigger] spec_candidate(orig, dup, m),
                    ),
            decreases i - k,
        {
            proof {
                lemma_candidates_bound(orig, dup, k as nat, views_of(resolved@));
            }
            k = k + 1;
            cand = add_suffix(&names[i], k);
        }
        let ghost old_rviews = views_of(resolved@);
        resolved.push(cand);
        proof {
            let rviews = views_of(resolved@);
            assert(rviews =~= old_rviews.push(cand@));
            assert(rviews.take(i as int) =~= old_rviews);
            assert(rviews[i as int] == cand@);
            // the new entry satisfies the resolution predicate at i
            assert(spec_resolved_one(nviews, i as int, old_rviews, cand@));
            assert(spec_resolved_one(nviews, i as int, rviews.take(i as int), rviews[i as int]));
            // earlier entries are untouched: their prior prefixes are unchanged
            assert forall|t: int|
                0 <= t < i implies spec_resolved_one(nviews, t, rviews.take(t), rviews[t]) by {
                assert(rviews.take(t) =~= old_rviews.take(t));
                assert(rviews[t] == old_rviews[t]);
                assert(spec_resolved_one(nviews, t, old_rviews.take(t), old_rviews[t]));
            }
            // distinctness: the new name is in no earlier position
            assert forall|a: int| 0 <= a < i implies rviews[a] != rviews[i as int] by {
                assert(old_rviews.contains(old_rviews[a]));
                assert(old_rviews.to_set().contains(old_rviews[a]));
            }
            // non-emptiness and shape of the new name
            lemma_dec_len(k as nat);
            if dup || k > 0 {
                assert(rviews[i as int] == spec_suffix(orig, k as nat));
                assert(rviews[i as int].len() > 0);
            } else {
                assert(rviews[i as int] == orig);
                assert(!spec_needs_suffix(nviews, i as int));
                assert(orig.len() > 0);
            }
        }
        i = i + 1;
    }
    resolved
}

/// When every requested name is non-empty and no two are equal, the
/// resolver keeps each name exactly as it was requested.
pub proof fn lemma_unique_names_kept(names: Seq<Seq<u8>>, resolved: Seq<Seq<u8>>)
    requires
        spec_resolution(names, resolved),
        forall|i: int| 0 <= i < names.len() ==> names[i].len() > 0,
        forall|i: int, j: int|
            0 <= i < names.len() && 0 <= j < names.len() && i != j ==> names[i] != names[j],
    ensures
        forall|i: int| 0 <= i < names.len() ==> resolved[i] == names[i],
{
    lemma_unique_names_kept_rec(names, resolved, names.len() as int);
}

proof fn lemma_unique_names_kept_rec(names: Seq<Seq<u8>>, resolved: Seq<Seq<u8>>, n: int)
    requires
        spec_resolution(names, resolved),
        0 <= n <= names.len(),
        forall|i: int| 0 <= i < names.len() ==> names[i].len() > 0,
        forall|i: int, j: int|
            0 <= i < names.len() && 0 <= j < names.len() && i != j ==> names[i] != names[j],
    ensures
        forall|i: int| 0 <= i < n ==> resolved[i] == names[i],
    decreases n,
{
    if n > 0 {
        lemma_unique_names_kept_rec(names, resolved, n - 1);
        let i = n - 1;
        assert(spec_resolved_one(names, i, resolved.take(i), resolved[i]));
        assert(!spec_needs_suffix(names, i));
        let dup = spec_needs_suffix(names, i);
        let taken = resolved.take(i).to_set();
        let k = choose|k: nat|
            #![trigger spec_candidate(names[i], spec_needs_suffix(names, i), k)]
            {
                &&& resolved[i] == spec_candidate(names[i], dup, k)
                &&& !taken.contains(spec_candidate(names[i], dup, k))
                &&& forall|m: nat|
                    m < k ==> taken.contains(#[trigger] spec_candidate(names[i], dup, m))
            };
        if k > 0 {
            // candidate 0 is the bare name; it cannot stand among the
            // earlier resolved names, which equal the distinct inputs
            assert(taken.contains(spec_candidate(names[i], dup, 0)));
            assert(resolved.take(i).contains(names[i]));
            let j = choose|j: int| 0 <= j < i && resolved.take(i)[j] == names[i];
            assert(resolved[j] == names[j]);
            assert(names[j] == names[i]);
            assert(false);
        }
        assert(resolved[i] == spec_candidate(names[i], dup, 0));
    }
}


/// The resolution is deterministic: for fixed requested names in a
/// fixed order, only one sequence of resolved names satisfies it.
pub proof fn lemma_resolution_deterministic(
    names: Seq<Seq<u8>>,
    r1: Seq<Seq<u8>>,
    r2: Seq<Seq<u8>>,
)
    requires
        spec_resolution(names, r1),
        spec_resolution(names, r2),
    ensures
        r1 == r2,
{
    lemma_resolution_deterministic_rec(names, r1, r2, names.len() as int);
    assert(r1 =~= r2);
}

proof fn lemma_resolution_deterministic_rec(
    names: Seq<Seq<u8>>,
    r1: Seq<Seq<u8>>,
    r2: Seq<Seq<u8>>,
    n: int,
)
    requires
        spec_resolution(names, r1),
        spec_resolution(names, r2),
        0 <= n <= names.len(),
    ensures
        forall|i: int| 0 <= i < n ==> r1[i] == r2[i],
    decreases n,
{
    if n > 0 {
        lemma_resolution_deterministic_rec(names, r1, r2, n - 1);
        let i = n - 1;
        assert(r1.take(i) =~= r2.take(i));
        let dup = spec_needs_suffix(names, i);
        let taken = r1.take(i).to_set();
        assert(spec_resolved_one(names, i, r1.take(i), r1[i]));
        assert(spec_resolved_one(names, i, r2.take(i), r2[i]));
        let k1 = choose|k: nat|
            #![trigger spec_candidate(names[i], spec_needs_suffix(names, i), k)]
            {
                &&& r1[i] == spec_candidate(names[i], dup, k)
                &&& !taken.contains(spec_candidate(names[i], dup, k))
                &&& forall|m: nat|
                    m < k ==> taken.contains(#[trigger] spec_candidate(names[i], dup, m))
            };
        let k2 = choose|k: nat|
            #![trigger spec_candidate(names[i], spec_needs_suffix(names, i), k)]
            {
                &&& r2[i] == spec_candidate(names[i], dup, k)
                &&& !taken.contains(spec_candidate(names[i], dup, k))
                &&& forall|m: nat|
                    m < k ==> taken.contains(#[trigger] spec_candidate(names[i], dup, m))
            };
        if k1 < k2 {
            assert(taken.contains(spec_candidate(names[i], dup, k1)));
            assert(false);
        } else if k2 < k1 {
            assert(taken.contains(spec_candidate(names[i], dup, k2)));
            assert(false);
        }
        assert(r1[i] == r2[i]);
    }
}

} // verus!
