//! Euclidean rhythms by Bjorklund's algorithm.

use vstd::arithmetic::div_mod::{lemma_add_mod_noop_right, lemma_mod_add_multiples_vanish, lemma_small_mod};
use vstd::prelude::*;
use vstd::seq_lib::lemma_flatten_concat;

verus! {

// ---------------------------------------------------------------------------
// Model
// ---------------------------------------------------------------------------

/// The groups `counts[i] ++ rems[i]` for every index that both sequences have.
pub open spec fn zip_groups(counts: Seq<Seq<bool>>, rems: Seq<Seq<bool>>) -> Seq<Seq<bool>> {
    let pairs = if counts.len() <= rems.len() { counts.len() } else { rems.len() };
    Seq::new(pairs, |i: int| counts[i] + rems[i])
}

/// The groups of the longer sequence that found no partner in `zip_groups`.
pub open spec fn leftover_groups(counts: Seq<Seq<bool>>, rems: Seq<Seq<bool>>) -> Seq<Seq<bool>> {
    if counts.len() > rems.len() {
        counts.skip(rems.len() as int)
    } else {
        rems.skip(counts.len() as int)
    }
}

/// Bjorklund's algorithm on groups: pair every count group with a remainder group,
/// keep the unpaired ones as the new remainders, and stop once at most one
/// remainder group is left. The result is the final list of groups, counts first.
pub open spec fn bjorklund(counts: Seq<Seq<bool>>, rems: Seq<Seq<bool>>) -> Seq<Seq<bool>>
    decreases counts.len() + rems.len(),
{
    let next_counts = zip_groups(counts, rems);
    let next_rems = leftover_groups(counts, rems);
    if next_rems.len() <= 1 || counts.len() == 0 || rems.len() == 0 {
        next_counts + next_rems
    } else {
        bjorklund(next_counts, next_rems)
    }
}

/// `s` rotated `k` places to the left.
pub open spec fn rotate_left<A>(s: Seq<A>, k: int) -> Seq<A> {
    s.skip(k) + s.take(k)
}

/// The number of hits clamped to the number of steps.
pub open spec fn clamped_hits(steps: u8, hits: u8) -> nat {
    if hits <= steps {
        hits as nat
    } else {
        steps as nat
    }
}

/// The unrotated Bjorklund pattern for `hits` hits among `steps` steps,
/// where `0 < hits < steps`.
pub open spec fn bjorklund_pattern(steps: nat, hits: nat) -> Seq<bool> {
    bjorklund(
        Seq::new(hits, |i: int| seq![true]),
        Seq::new((steps - hits) as nat, |i: int| seq![false]),
    ).flatten()
}

/// The Euclidean rhythm that `euclidean_rhythm(steps, hits, rotation)` returns.
pub open spec fn euclidean_spec(steps: u8, hits: u8, rotation: u8) -> Seq<bool> {
    let h = clamped_hits(steps, hits);
    if steps == 0 {
        Seq::empty()
    } else if h == 0 {
        Seq::new(steps as nat, |i: int| false)
    } else if h == steps {
        Seq::new(steps as nat, |i: int| true)
    } else {
        rotate_left(bjorklund_pattern(steps as nat, h), (rotation as int) % (steps as int))
    }
}

/// The number of `true` entries of `s`.
pub open spec fn hit_count(s: Seq<bool>) -> nat
    decreases s.len(),
{
    if s.len() == 0 {
        0
    } else {
        hit_count(s.drop_last()) + if s.last() {
            1nat
        } else {
            0nat
        }
    }
}

// ---------------------------------------------------------------------------
// Lemmas
// ---------------------------------------------------------------------------

proof fn lemma_hit_count_concat(a: Seq<bool>, b: Seq<bool>)
    ensures
        hit_count(a + b) == hit_count(a) + hit_count(b),
    decreases b.len(),
{
    if b.len() > 0 {
        lemma_hit_count_concat(a, b.drop_last());
        assert((a + b).drop_last() =~= a + b.drop_last());
        assert((a + b).last() == b.last());
    } else {
        assert(a + b =~= a);
    }
}

proof fn lemma_hit_count_const(n: nat, v: bool)
    ensures
        hit_count(Seq::new(n, |i: int| v)) == if v {
            n
        } else {
            0
        },
    decreases n,
{
    if n > 0 {
        lemma_hit_count_const((n - 1) as nat, v);
        assert(Seq::new(n, |i: int| v).drop_last() =~= Seq::new((n - 1) as nat, |i: int| v));
    }
}

proof fn lemma_flatten_singletons(n: nat, v: bool)
    ensures
        Seq::new(n, |i: int| seq![v]).flatten() =~= Seq::new(n, |i: int| v),
    decreases n,
{
    if n > 0 {
        let s = Seq::new(n, |i: int| seq![v]);
        lemma_flatten_singletons((n - 1) as nat, v);
        assert(s =~= Seq::new((n - 1) as nat, |i: int| seq![v]).push(seq![v]));
        Seq::new((n - 1) as nat, |i: int| seq![v]).lemma_flatten_push(seq![v]);
    }
}

/// Pairing the first `p` groups keeps the total length and the number of hits
/// of the first `p` groups of both sides.
proof fn lemma_zip_prefix(counts: Seq<Seq<bool>>, rems: Seq<Seq<bool>>, p: nat)
    requires
        p <= counts.len(),
        p <= rems.len(),
    ensures
        ({
            let z = Seq::new(p, |i: int| counts[i] + rems[i]).flatten();
            let ct = counts.take(p as int).flatten();
            let rt = rems.take(p as int).flatten();
            &&& z.len() == ct.len() + rt.len()
            &&& hit_count(z) == hit_count(ct) + hit_count(rt)
        }),
    decreases p,
{
    if p > 0 {
        let q = (p - 1) as nat;
        lemma_zip_prefix(counts, rems, q);
        let zq = Seq::new(q, |i: int| counts[i] + rems[i]);
        let zp = Seq::new(p, |i: int| counts[i] + rems[i]);
        assert(zp =~= zq.push(counts[q as int] + rems[q as int]));
        assert(counts.take(p as int) =~= counts.take(q as int).push(counts[q as int]));
        assert(rems.take(p as int) =~= rems.take(q as int).push(rems[q as int]));
        zq.lemma_flatten_push(counts[q as int] + rems[q as int]);
        counts.take(q as int).lemma_flatten_push(counts[q as int]);
        rems.take(q as int).lemma_flatten_push(rems[q as int]);
        lemma_hit_count_concat(zq.flatten(), counts[q as int] + rems[q as int]);
        lemma_hit_count_concat(counts[q as int], rems[q as int]);
        lemma_hit_count_concat(counts.take(q as int).flatten(), counts[q as int]);
        lemma_hit_count_concat(rems.take(q as int).flatten(), rems[q as int]);
    } else {
        assert(Seq::new(p, |i: int| counts[i] + rems[i]) =~= Seq::<Seq<bool>>::empty());
        assert(counts.take(0) =~= Seq::<Seq<bool>>::empty());
        assert(rems.take(0) =~= Seq::<Seq<bool>>::empty());
    }
}

proof fn lemma_split_groups(g: Seq<Seq<bool>>, p: int)
    requires
        0 <= p <= g.len(),
    ensures
        g.flatten().len() == g.take(p).flatten().len() + g.skip(p).flatten().len(),
        hit_count(g.flatten()) == hit_count(g.take(p).flatten()) + hit_count(g.skip(p).flatten()),
{
    assert(g =~= g.take(p) + g.skip(p));
    lemma_flatten_concat(g.take(p), g.skip(p));
    lemma_hit_count_concat(g.take(p).flatten(), g.skip(p).flatten());
}

/// One pairing round keeps the total length and the number of hits.
proof fn lemma_pairing_round(counts: Seq<Seq<bool>>, rems: Seq<Seq<bool>>)
    ensures
        ({
            let after = zip_groups(counts, rems) + leftover_groups(counts, rems);
            let before = counts + rems;
            &&& after.flatten().len() == before.flatten().len()
            &&& hit_count(after.flatten()) == hit_count(before.flatten())
        }),
{
    let p = if counts.len() <= rems.len() { counts.len() } else { rems.len() };
    lemma_zip_prefix(counts, rems, p);
    lemma_split_groups(counts, p as int);
    lemma_split_groups(rems, p as int);
    let z = zip_groups(counts, rems);
    let l = leftover_groups(counts, rems);
    lemma_flatten_concat(z, l);
    lemma_hit_count_concat(z.flatten(), l.flatten());
    lemma_flatten_concat(counts, rems);
    lemma_hit_count_concat(counts.flatten(), rems.flatten());
    if counts.len() > rems.len() {
        assert(rems.skip(p as int) =~= Seq::<Seq<bool>>::empty());
        assert(rems.take(p as int) =~= rems);
    } else {
        assert(counts.skip(p as int) =~= Seq::<Seq<bool>>::empty());
        assert(counts.take(p as int) =~= counts);
    }
}

/// Bjorklund's algorithm keeps the total length and the number of hits.
pub proof fn lemma_bjorklund_preserves(counts: Seq<Seq<bool>>, rems: Seq<Seq<bool>>)
    ensures
        bjorklund(counts, rems).flatten().len() == (counts + rems).flatten().len(),
        hit_count(bjorklund(counts, rems).flatten()) == hit_count((counts + rems).flatten()),
    decreases counts.len() + rems.len(),
{
    lemma_pairing_round(counts, rems);
    let next_counts = zip_groups(counts, rems);
    let next_rems = leftover_groups(counts, rems);
    if !(next_rems.len() <= 1 || counts.len() == 0 || rems.len() == 0) {
        lemma_bjorklund_preserves(next_counts, next_rems);
    }
}

proof fn lemma_rotate_preserves(s: Seq<bool>, k: int)
    requires
        0 <= k <= s.len(),
    ensures
        rotate_left(s, k).len() == s.len(),
        hit_count(rotate_left(s, k)) == hit_count(s),
{
    lemma_hit_count_concat(s.skip(k), s.take(k));
    lemma_hit_count_concat(s.take(k), s.skip(k));
    assert(s =~= s.take(k) + s.skip(k));
}

/// The unrotated pattern has `steps` entries, `hits` of them hits.
pub proof fn lemma_bjorklund_pattern(steps: nat, hits: nat)
    requires
        hits <= steps,
    ensures
        bjorklund_pattern(steps, hits).len() == steps,
        hit_count(bjorklund_pattern(steps, hits)) == hits,
{
    let c = Seq::new(hits, |i: int| seq![true]);
    let r = Seq::new((steps - hits) as nat, |i: int| seq![false]);
    lemma_bjorklund_preserves(c, r);
    lemma_flatten_concat(c, r);
    lemma_flatten_singletons(hits, true);
    lemma_flatten_singletons((steps - hits) as nat, false);
    lemma_hit_count_concat(c.flatten(), r.flatten());
    lemma_hit_count_const(hits, true);
    lemma_hit_count_const((steps - hits) as nat, false);
}

/// A Euclidean rhythm has one entry per step, and as many hits as were asked
/// for, but never more than there are steps.
pub proof fn lemma_euclidean_shape(steps: u8, hits: u8, rotation: u8)
    ensures
        euclidean_spec(steps, hits, rotation).len() == steps,
        hit_count(euclidean_spec(steps, hits, rotation)) == clamped_hits(steps, hits),
{
    let h = clamped_hits(steps, hits);
    if steps == 0 {
        assert(hit_count(Seq::<bool>::empty()) == 0);
    } else if h == 0 {
        lemma_hit_count_const(steps as nat, false);
    } else if h == steps {
        lemma_hit_count_const(steps as nat, true);
    } else {
        lemma_bjorklund_pattern(steps as nat, h);
        lemma_rotate_preserves(bjorklund_pattern(steps as nat, h), (rotation as int) % (steps as int));
    }
}

// ---------------------------------------------------------------------------
// Even spacing
// ---------------------------------------------------------------------------

/// The gaps of a pattern: for each hit, the number of steps from it up to the
/// next hit, or up to the end of the pattern for the last hit (rests before the
/// first hit belong to no gap). For a pattern that starts with a hit these are
/// the distances between consecutive hits, taken cyclically.
pub open spec fn hit_gaps(s: Seq<bool>) -> Seq<nat>
    decreases s.len(),
{
    if s.len() == 0 {
        Seq::empty()
    } else {
        let g = hit_gaps(s.drop_last());
        if s.last() {
            g.push(1)
        } else if g.len() == 0 {
            g
        } else {
            g.update(g.len() - 1, g.last() + 1)
        }
    }
}

/// The sum of a sequence of naturals.
pub open spec fn gap_sum(g: Seq<nat>) -> nat
    decreases g.len(),
{
    if g.len() == 0 {
        0
    } else {
        gap_sum(g.drop_last()) + g.last()
    }
}

/// `s` starts with a hit.
pub open spec fn starts_with_hit(s: Seq<bool>) -> bool {
    s.len() > 0 && s[0]
}

/// Every gap of `s` is at least `lo` and at most `hi`.
pub open spec fn gaps_between(s: Seq<bool>, lo: nat, hi: nat) -> bool {
    forall|k: int| 0 <= k < hit_gaps(s).len() ==> lo <= #[trigger] hit_gaps(s)[k] <= hi
}

/// A lone hit has a single gap of one step.
proof fn lemma_gaps_single(s: Seq<bool>)
    requires
        s.len() == 1,
        s[0],
    ensures
        hit_gaps(s) =~= seq![1nat],
{
    let e = s.drop_last();
    assert(e.len() == 0);
    assert(hit_gaps(e) =~= Seq::<nat>::empty());
    assert(s.last() == s[0]);
    assert(Seq::<nat>::empty().push(1) =~= seq![1nat]);
}

proof fn lemma_gaps_nonempty(s: Seq<bool>)
    requires
        starts_with_hit(s),
    ensures
        hit_gaps(s).len() > 0,
    decreases s.len(),
{
    if s.len() > 1 {
        lemma_gaps_nonempty(s.drop_last());
    } else {
        assert(s.drop_last() =~= Seq::<bool>::empty());
    }
}

/// A rest added at the end lengthens the last gap.
proof fn lemma_gaps_push_rest(s: Seq<bool>)
    requires
        starts_with_hit(s),
    ensures
        hit_gaps(s.push(false)) == hit_gaps(s).update(
            hit_gaps(s).len() - 1,
            hit_gaps(s).last() + 1,
        ),
        hit_gaps(s.push(false)).len() == hit_gaps(s).len(),
{
    lemma_gaps_nonempty(s);
    assert(s.push(false).drop_last() =~= s);
}

/// The gaps of a pattern followed by one that starts with a hit are the gaps of
/// the first followed by those of the second.
proof fn lemma_gaps_concat(a: Seq<bool>, b: Seq<bool>)
    requires
        starts_with_hit(b),
    ensures
        hit_gaps(a + b) == hit_gaps(a) + hit_gaps(b),
    decreases b.len(),
{
    assert((a + b).drop_last() =~= a + b.drop_last());
    assert((a + b).last() == b.last());
    if b.len() == 1 {
        assert(b.drop_last() =~= Seq::<bool>::empty());
        assert(a + b.drop_last() =~= a);
        lemma_gaps_single(b);
        assert(hit_gaps(a + b) =~= hit_gaps(a) + hit_gaps(b));
    } else {
        let b1 = b.drop_last();
        lemma_gaps_concat(a, b1);
        lemma_gaps_nonempty(b1);
        let x = hit_gaps(a);
        let y = hit_gaps(b1);
        if b.last() {
            assert((x + y).push(1) =~= x + y.push(1));
        } else {
            assert((x + y).update(x.len() + y.len() - 1, (x + y).last() + 1) =~= x + y.update(
                y.len() - 1,
                y.last() + 1,
            ));
        }
    }
}

/// A pattern has one gap per hit.
proof fn lemma_gaps_len(s: Seq<bool>)
    ensures
        hit_gaps(s).len() == hit_count(s),
    decreases s.len(),
{
    if s.len() > 0 {
        lemma_gaps_len(s.drop_last());
    }
}

/// The gaps of a pattern that starts with a hit add up to its length.
proof fn lemma_gaps_sum(s: Seq<bool>)
    requires
        starts_with_hit(s),
    ensures
        gap_sum(hit_gaps(s)) == s.len(),
    decreases s.len(),
{
    if s.len() == 1 {
        lemma_gaps_single(s);
        assert(hit_gaps(s).drop_last() =~= Seq::<nat>::empty());
        assert(gap_sum(hit_gaps(s).drop_last()) == 0);
    } else {
        let s1 = s.drop_last();
        lemma_gaps_sum(s1);
        lemma_gaps_nonempty(s1);
        let g = hit_gaps(s1);
        if s.last() {
            assert(g.push(1).drop_last() =~= g);
            assert(gap_sum(g.push(1)) == gap_sum(g) + 1);
        } else {
            let h = g.update(g.len() - 1, g.last() + 1);
            assert(h.drop_last() =~= g.drop_last());
            assert(gap_sum(h) == gap_sum(h.drop_last()) + h.last());
            assert(gap_sum(g) == gap_sum(g.drop_last()) + g.last());
        }
    }
}

/// Groups that each start with a hit and have all their gaps between `lo` and
/// `hi` flatten to a pattern with the same two properties.
proof fn lemma_flatten_gaps(groups: Seq<Seq<bool>>, lo: nat, hi: nat)
    requires
        groups.len() > 0,
        forall|i: int|
            0 <= i < groups.len() ==> starts_with_hit(#[trigger] groups[i]) && gaps_between(
                groups[i],
                lo,
                hi,
            ),
    ensures
        starts_with_hit(groups.flatten()),
        gaps_between(groups.flatten(), lo, hi),
    decreases groups.len(),
{
    let init = groups.drop_last();
    let last = groups.last();
    assert(groups =~= init.push(last));
    init.lemma_flatten_push(last);
    assert(starts_with_hit(last) && gaps_between(last, lo, hi));
    if init.len() == 0 {
        assert(init.flatten() =~= Seq::<bool>::empty());
        assert(groups.flatten() =~= last);
    } else {
        assert forall|i: int| 0 <= i < init.len() implies starts_with_hit(#[trigger] init[i])
            && gaps_between(init[i], lo, hi) by {
            assert(init[i] == groups[i]);
        }
        lemma_flatten_gaps(init, lo, hi);
        let f = init.flatten();
        lemma_gaps_concat(f, last);
        assert(hit_gaps(groups.flatten()) == hit_gaps(f) + hit_gaps(last));
        assert forall|k: int| 0 <= k < hit_gaps(groups.flatten()).len() implies lo
            <= #[trigger] hit_gaps(groups.flatten())[k] <= hi by {
            if k < hit_gaps(f).len() {
                assert(hit_gaps(groups.flatten())[k] == hit_gaps(f)[k]);
            } else {
                assert(hit_gaps(groups.flatten())[k] == hit_gaps(last)[k - hit_gaps(f).len()]);
            }
        }
    }
}

/// Every group of `gs` is `x`.
pub open spec fn all_groups(gs: Seq<Seq<bool>>, x: Seq<bool>) -> bool {
    forall|i: int| 0 <= i < gs.len() ==> #[trigger] gs[i] == x
}

/// What holds before each pairing round of Bjorklund's algorithm: all count
/// groups are alike and start with a hit, all remainder groups are alike, and
/// either the remainders are single rests and the count group has one gap of
/// `g`, or the remainders start with a hit too and every gap is `g` or `g + 1`.
pub open spec fn round_invariant(counts: Seq<Seq<bool>>, rems: Seq<Seq<bool>>, g: nat) -> bool {
    &&& counts.len() >= 1
    &&& rems.len() >= 1
    &&& all_groups(counts, counts[0])
    &&& all_groups(rems, rems[0])
    &&& starts_with_hit(counts[0])
    &&& {
        ||| rems[0] == seq![false] && hit_gaps(counts[0]) == seq![g]
        ||| starts_with_hit(rems[0]) && gaps_between(counts[0], g, g + 1) && gaps_between(
            rems[0],
            g,
            g + 1,
        )
    }
}

/// From such a state Bjorklund's algorithm ends in groups that flatten to a
/// pattern starting with a hit whose gaps are all `lo` or `lo + 1`.
proof fn lemma_bjorklund_even(counts: Seq<Seq<bool>>, rems: Seq<Seq<bool>>, g: nat) -> (lo: nat)
    requires
        round_invariant(counts, rems, g),
    ensures
        starts_with_hit(bjorklund(counts, rems).flatten()),
        gaps_between(bjorklund(counts, rems).flatten(), lo, lo + 1),
    decreases counts.len() + rems.len(),
{
    let a = counts[0];
    let b = rems[0];
    let nc = zip_groups(counts, rems);
    let nr = leftover_groups(counts, rems);
    let pure = b == seq![false] && hit_gaps(a) == seq![g];
    let ab = a + b;
    assert(nc.len() >= 1);
    assert(all_groups(nc, ab)) by {
        assert forall|i: int| 0 <= i < nc.len() implies #[trigger] nc[i] == ab by {
            assert(counts[i] == a && rems[i] == b);
        }
    }
    let counts_left = counts.len() > rems.len();
    assert(all_groups(nr, if counts_left { a } else { b })) by {
        assert forall|i: int| 0 <= i < nr.len() implies #[trigger] nr[i] == (if counts_left {
            a
        } else {
            b
        }) by {
            if counts_left {
                assert(nr[i] == counts[i + rems.len()]);
            } else {
                assert(nr[i] == rems[i + counts.len()]);
            }
        }
    }
    assert(starts_with_hit(ab)) by {
        assert(ab[0] == a[0]);
    }
    if pure {
        assert(ab =~= a.push(false));
        lemma_gaps_push_rest(a);
        assert(hit_gaps(ab) =~= seq![g + 1]);
    } else {
        lemma_gaps_concat(a, b);
        assert(gaps_between(ab, g, g + 1)) by {
            assert forall|k: int| 0 <= k < hit_gaps(ab).len() implies g <= #[trigger] hit_gaps(
                ab,
            )[k] <= g + 1 by {
                if k < hit_gaps(a).len() {
                    assert(hit_gaps(ab)[k] == hit_gaps(a)[k]);
                } else {
                    assert(hit_gaps(ab)[k] == hit_gaps(b)[k - hit_gaps(a).len()]);
                }
            }
        }
    }
    // The gaps of the new count group, and of the new remainder group where it
    // is taken from the old count groups, are `g` or `g + 1`.
    assert(gaps_between(ab, g, g + 1));
    assert(pure ==> gaps_between(a, g, g + 1));
    let stays_pure = pure && !counts_left;
    if nr.len() <= 1 {
        let all = nc + nr;
        assert(bjorklund(counts, rems) == all);
        if !stays_pure {
            assert forall|i: int| 0 <= i < all.len() implies starts_with_hit(#[trigger] all[i])
                && gaps_between(all[i], g, g + 1) by {
                if i < nc.len() {
                    assert(all[i] == nc[i]);
                } else {
                    assert(all[i] == nr[i - nc.len()]);
                }
            }
            lemma_flatten_gaps(all, g, g + 1);
            g
        } else {
            assert(gaps_between(ab, g + 1, g + 1));
            lemma_flatten_gaps(nc, g + 1, g + 1);
            let f = nc.flatten();
            if nr.len() == 0 {
                assert(all =~= nc);
            } else {
                assert(nr[0] == seq![false]);
                assert(all =~= nc.push(seq![false]));
                nc.lemma_flatten_push(seq![false]);
                assert(all.flatten() =~= f.push(false));
                lemma_gaps_push_rest(f);
                assert(all.flatten()[0] == f[0]);
            }
            g + 1
        }
    } else {
        assert(bjorklund(counts, rems) == bjorklund(nc, nr));
        if stays_pure {
            assert(round_invariant(nc, nr, g + 1));
            lemma_bjorklund_even(nc, nr, g + 1)
        } else {
            assert(round_invariant(nc, nr, g));
            lemma_bjorklund_even(nc, nr, g)
        }
    }
}

/// With every entry between `lo` and `hi`, the sum is at most `hi` for each of
/// the other entries plus entry `k`, and at least `lo` for each of them plus
/// entry `k`.
proof fn lemma_gap_sum_bounds(g: Seq<nat>, lo: nat, hi: nat, k: int)
    requires
        0 <= k < g.len(),
        forall|i: int| 0 <= i < g.len() ==> lo <= #[trigger] g[i] <= hi,
    ensures
        gap_sum(g) <= (g.len() - 1) * hi + g[k],
        gap_sum(g) >= (g.len() - 1) * lo + g[k],
    decreases g.len(),
{
    let d = g.drop_last();
    let m = g.len() - 1;
    assert(lo <= g[m] <= hi);
    assert(gap_sum(g) == gap_sum(d) + g[m]);
    if k == m {
        if m > 0 {
            lemma_gap_sum_bounds(d, lo, hi, 0);
            assert((m - 1) * hi + d[0] <= m * hi) by (nonlinear_arith)
                requires
                    d[0] <= hi,
            ;
            assert((m - 1) * lo + d[0] >= m * lo) by (nonlinear_arith)
                requires
                    d[0] >= lo,
            ;
        } else {
            assert(d.len() == 0);
            assert(gap_sum(d) == 0);
        }
    } else {
        lemma_gap_sum_bounds(d, lo, hi, k);
        assert(d[k] == g[k]);
        assert((m - 1) * hi + hi == m * hi) by (nonlinear_arith);
        assert((m - 1) * lo + lo == m * lo) by (nonlinear_arith);
    }
}

/// The hits of a Euclidean rhythm are spread as evenly as they can be: the
/// unrotated pattern starts with a hit, has one gap per hit, its gaps add up to
/// the number of steps, and no two gaps differ by more than one step.
pub proof fn lemma_euclidean_maximally_even(steps: u8, hits: u8)
    requires
        0 < hits < steps,
    ensures
        ({
            let p = euclidean_spec(steps, hits, 0);
            let gaps = hit_gaps(p);
            &&& p.len() == steps
            &&& p[0]
            &&& gaps.len() == hits
            &&& gap_sum(gaps) == steps
            &&& forall|i: int, j: int|
                0 <= i < hits && 0 <= j < hits ==> #[trigger] gaps[i] <= #[trigger] gaps[j] + 1
            &&& forall|i: int|
                0 <= i < hits ==> (steps as int) / (hits as int) <= #[trigger] gaps[i] <= (
                    steps + hits - 1) / (hits as int)
        }),
{
    let n = steps as nat;
    let h = hits as nat;
    let c = Seq::new(h, |i: int| seq![true]);
    let r = Seq::new((n - h) as nat, |i: int| seq![false]);
    let pattern = bjorklund_pattern(n, h);
    assert(euclidean_spec(steps, hits, 0) =~= pattern) by {
        assert((0int) % (steps as int) == 0);
        assert(rotate_left(pattern, 0) =~= pattern);
    }
    lemma_gaps_single(seq![true]);
    assert(round_invariant(c, r, 1));
    let lo = lemma_bjorklund_even(c, r, 1);
    lemma_bjorklund_pattern(n, h);
    lemma_gaps_len(pattern);
    lemma_gaps_sum(pattern);
    let gaps = hit_gaps(pattern);
    assert forall|i: int, j: int| 0 <= i < hits && 0 <= j < hits implies #[trigger] gaps[i]
        <= #[trigger] gaps[j] + 1 by {
        assert(lo <= gaps[i] <= lo + 1);
        assert(lo <= gaps[j] <= lo + 1);
    }
    assert forall|i: int| 0 <= i < hits implies (steps as int) / (hits as int) <= #[trigger] gaps[i]
        <= (steps + hits - 1) / (hits as int) by {
        let x = gaps[i];
        assert(lo <= x <= lo + 1);
        lemma_gap_sum_bounds(gaps, lo, lo + 1, i);
        let m = hits - 1;
        let nn = steps as int;
        let hh = hits as int;
        let xx = x as int;
        let l = lo as int;
        assert(m * (l + 1) + xx >= nn && m * l + xx <= nn);
        if xx == l {
            assert(nn / hh <= xx) by (nonlinear_arith)
                requires
                    hh > 0,
                    nn <= (hh - 1) * (xx + 1) + xx,
            ;
            assert(xx <= (nn + hh - 1) / hh) by (nonlinear_arith)
                requires
                    hh > 0,
                    nn >= (hh - 1) * xx + xx,
            ;
        } else {
            assert(nn / hh <= xx) by (nonlinear_arith)
                requires
                    hh > 0,
                    nn <= (hh - 1) * xx + xx,
            ;
            assert(xx <= (nn + hh - 1) / hh) by (nonlinear_arith)
                requires
                    hh > 0,
                    xx >= 1,
                    nn >= (hh - 1) * (xx - 1) + xx,
            ;
        }
    }
}

/// Rotation turns the pattern to the left: step `i` of the rotated rhythm is
/// step `i + rotation`, wrapping around, of the unrotated one.
pub proof fn lemma_euclidean_rotation(steps: u8, hits: u8, rotation: u8, i: int)
    requires
        0 <= i < steps,
    ensures
        euclidean_spec(steps, hits, rotation)[i] == euclidean_spec(steps, hits, 0)[(i + rotation)
            % (steps as int)],
{
    let n = steps as int;
    let h = clamped_hits(steps, hits);
    let k = (rotation as int) % n;
    let w = (i + rotation) % n;
    lemma_add_mod_noop_right(i, rotation as int, n);
    assert(w == (i + k) % n);
    assert(0 <= k < n);
    if i + k < n {
        lemma_small_mod((i + k) as nat, n as nat);
    } else {
        lemma_small_mod((i + k - n) as nat, n as nat);
        lemma_mod_add_multiples_vanish(i + k - n, n);
    }
    if h != 0 && h != steps {
        let p = bjorklund_pattern(n as nat, h);
        lemma_bjorklund_pattern(n as nat, h);
        assert(euclidean_spec(steps, hits, 0) =~= p) by {
            assert((0int) % n == 0);
            assert(rotate_left(p, 0) =~= p);
        }
        let r = rotate_left(p, k);
        if i < n - k {
            assert(r[i] == p[i + k]);
        } else {
            assert(r[i] == p.take(k)[i - (n - k)]);
        }
    }
}

// ---------------------------------------------------------------------------
// Executable code
// ---------------------------------------------------------------------------

/// The views of a list of groups.
pub open spec fn groups_view(v: Seq<Vec<bool>>) -> Seq<Seq<bool>> {
    v.map_values(|g: Vec<bool>| g@)
}

proof fn lemma_groups_view_push(s: Seq<Vec<bool>>, g: Vec<bool>)
    ensures
        groups_view(s.push(g)) == groups_view(s).push(g@),
{
    assert(groups_view(s.push(g)) =~= groups_view(s).push(g@));
}

fn concat_bools(a: &Vec<bool>, b: &Vec<bool>) -> (r: Vec<bool>)
    ensures
        r@ == a@ + b@,
{
    let mut r: Vec<bool> = Vec::new();
    for i in 0..a.len()
        invariant
            r@ == a@.take(i as int),
    {
        r.push(a[i]);
        assert(a@.take(i + 1) =~= a@.take(i as int).push(a@[i as int]));
    }
    assert(a@.take(a.len() as int) =~= a@);
    for j in 0..b.len()
        invariant
            r@ == a@ + b@.take(j as int),
    {
        r.push(b[j]);
        assert(b@.take(j + 1) =~= b@.take(j as int).push(b@[j as int]));
        assert(a@ + b@.take(j + 1) =~= (a@ + b@.take(j as int)).push(b@[j as int]));
    }
    assert(b@.take(b.len() as int) =~= b@);
    r
}

fn tail_groups(v: &Vec<Vec<bool>>, from: usize) -> (r: Vec<Vec<bool>>)
    requires
        from <= v.len(),
    ensures
        groups_view(r@) == groups_view(v@).skip(from as int),
{
    let mut r: Vec<Vec<bool>> = Vec::new();
    let empty: Vec<bool> = Vec::new();
    let mut i = from;
    while i < v.len()
        invariant
            from <= i <= v.len(),
            empty@ == Seq::<bool>::empty(),
            groups_view(r@) == groups_view(v@).subrange(from as int, i as int),
        decreases v.len() - i,
    {
        let g = concat_bools(&v[i], &empty);
        assert(g@ =~= v@[i as int]@);
        proof {
            lemma_groups_view_push(r@, g);
        }
        r.push(g);
        assert(groups_view(r@) =~= groups_view(v@).subrange(from as int, i + 1));
        i = i + 1;
    }
    assert(groups_view(v@).skip(from as int) =~= groups_view(v@).subrange(from as int, v.len() as int));
    r
}

fn single_groups(n: usize, v: bool) -> (r: Vec<Vec<bool>>)
    ensures
        groups_view(r@) == Seq::new(n as nat, |i: int| seq![v]),
{
    let mut r: Vec<Vec<bool>> = Vec::new();
    for i in 0..n
        invariant
            groups_view(r@) == Seq::new(i as nat, |k: int| seq![v]),
    {
        let mut g: Vec<bool> = Vec::new();
        g.push(v);
        assert(g@ =~= seq![v]);
        proof {
            lemma_groups_view_push(r@, g);
        }
        r.push(g);
        assert(groups_view(r@) =~= Seq::new((i + 1) as nat, |k: int| seq![v]));
    }
    r
}

fn flatten_groups(v: &Vec<Vec<bool>>) -> (r: Vec<bool>)
    ensures
        r@ == groups_view(v@).flatten(),
{
    let mut r: Vec<bool> = Vec::new();
    for i in 0..v.len()
        invariant
            r@ == groups_view(v@).take(i as int).flatten(),
    {
        let g = concat_bools(&r, &v[i]);
        proof {
            let gv = groups_view(v@);
            assert(gv.take(i + 1) =~= gv.take(i as int).push(gv[i as int]));
            gv.take(i as int).lemma_flatten_push(gv[i as int]);
        }
        r = g;
    }
    assert(groups_view(v@).take(v.len() as int) =~= groups_view(v@));
    r
}

fn rotate_bools(p: &Vec<bool>, k: usize) -> (r: Vec<bool>)
    requires
        k <= p.len(),
    ensures
        r@ == rotate_left(p@, k as int),
{
    let mut r: Vec<bool> = Vec::new();
    let mut i = k;
    while i < p.len()
        invariant
            k <= i <= p.len(),
            r@ == p@.subrange(k as int, i as int),
        decreases p.len() - i,
    {
        r.push(p[i]);
        assert(p@.subrange(k as int, i + 1) =~= p@.subrange(k as int, i as int).push(p@[i as int]));
        i = i + 1;
    }
    let mut j: usize = 0;
    while j < k
        invariant
            j <= k <= p.len(),
            r@ == p@.skip(k as int) + p@.take(j as int),
        decreases k - j,
    {
        r.push(p[j]);
        assert(p@.take(j + 1) =~= p@.take(j as int).push(p@[j as int]));
        assert(p@.skip(k as int) + p@.take(j + 1) =~= (p@.skip(k as int) + p@.take(j as int)).push(
            p@[j as int],
        ));
        j = j + 1;
    }
    r
}

fn constant_bools(n: usize, v: bool) -> (r: Vec<bool>)
    ensures
        r@ == Seq::new(n as nat, |i: int| v),
{
    let mut r: Vec<bool> = Vec::new();
    for i in 0..n
        invariant
            r@ == Seq::new(i as nat, |k: int| v),
    {
        r.push(v);
        assert(r@ =~= Seq::new((i + 1) as nat, |k: int| v));
    }
    r
}

/// Generate a Euclidean rhythm pattern: `hits` hits spread as evenly as
/// possible over `steps` steps (Bjorklund's algorithm), rotated left by
/// `rotation` steps. `true` is a hit, `false` a rest.
pub fn euclidean_rhythm(steps: u8, hits: u8, rotation: u8) -> (r: Vec<bool>)
    ensures
        r@ == euclidean_spec(steps, hits, rotation),
        r@.len() == steps,
        hit_count(r@) == clamped_hits(steps, hits),
{
    proof {
        lemma_euclidean_shape(steps, hits, rotation);
    }
    if steps == 0 {
        return Vec::new();
    }
    let h = if hits < steps {
        hits
    } else {
        steps
    };
    if h == 0 {
        return constant_bools(steps as usize, false);
    }
    if h == steps {
        return constant_bools(steps as usize, true);
    }
    let mut counts = single_groups(h as usize, true);
    let mut rems = single_groups((steps - h) as usize, false);
    let ghost target = bjorklund(groups_view(counts@), groups_view(rems@));
    loop
        invariant_except_break
            counts.len() >= 1,
            rems.len() >= 1,
            bjorklund(groups_view(counts@), groups_view(rems@)) == target,
        ensures
            groups_view(counts@) + groups_view(rems@) == target,
        decreases counts.len() + rems.len(),
    {
        let ghost cv = groups_view(counts@);
        let ghost rv = groups_view(rems@);
        let pairs = if counts.len() <= rems.len() {
            counts.len()
        } else {
            rems.len()
        };
        let mut new_counts: Vec<Vec<bool>> = Vec::new();
        for i in 0..pairs
            invariant
                pairs <= counts.len(),
                pairs <= rems.len(),
                cv == groups_view(counts@),
                rv == groups_view(rems@),
                groups_view(new_counts@) == Seq::new(i as nat, |k: int| cv[k] + rv[k]),
        {
            let g = concat_bools(&counts[i], &rems[i]);
            proof {
                lemma_groups_view_push(new_counts@, g);
            }
            new_counts.push(g);
            assert(groups_view(new_counts@) =~= Seq::new((i + 1) as nat, |k: int| cv[k] + rv[k]));
        }
        let new_rems = if counts.len() > pairs {
            tail_groups(&counts, pairs)
        } else {
            tail_groups(&rems, pairs)
        };
        assert(groups_view(new_counts@) =~= zip_groups(cv, rv));
        assert(groups_view(new_rems@) =~= leftover_groups(cv, rv));
        counts = new_counts;
        rems = new_rems;
        if rems.len() <= 1 {
            break ;
        }
    }
    let pattern = flatten_groups(&counts);
    let ghost tail = groups_view(rems@);
    let tail_pattern = flatten_groups(&rems);
    let full = concat_bools(&pattern, &tail_pattern);
    proof {
        lemma_flatten_concat(groups_view(counts@), groups_view(rems@));
        lemma_bjorklund_pattern(steps as nat, h as nat);
        assert(full@ == bjorklund_pattern(steps as nat, h as nat));
        assert(h as nat == clamped_hits(steps, hits));
        assert(full@.len() == steps);
    }
    if rotation > 0 {
        let rot = (rotation as usize) % full.len();
        assert(rot as int == (rotation as int) % (steps as int));
        rotate_bools(&full, rot)
    } else {
        assert(rotate_left(full@, 0) =~= full@);
        assert((rotation as int) % (steps as int) == 0) by (nonlinear_arith)
            requires
                rotation == 0,
                steps > 0,
        ;
        full
    }
}

} // verus!
