use vstd::prelude::*;

use crate::buffer::PixelBuffer;
use crate::hsl::hsl_le;
use crate::hsl::hsl_lt;
use crate::hsl::lemma_hsl_eq_lt_trans;
use crate::hsl::lemma_hsl_lt_trans;
use crate::hsl::lemma_hsl_trichotomy;
use crate::hsl::color_lt;
use crate::pixel::Pixel;

verus! {

/// One palette entry: a distinct color of the source image and how many
/// stitches (opaque pixels) carry it.
#[derive(Clone, Copy, PartialEq, Eq, Structural, Debug)]
pub struct ColorCount {
    pub color: Pixel,
    pub count: usize,
}

pub open spec fn entry_view(e: ColorCount) -> (Pixel, nat) {
    (e.color, e.count as nat)
}

pub open spec fn palette_view(s: Seq<ColorCount>) -> Seq<(Pixel, nat)> {
    s.map_values(|e: ColorCount| entry_view(e))
}

/// Index of the first entry holding color `c`, or -1 when no entry does.
pub open spec fn find_color(acc: Seq<(Pixel, nat)>, c: Pixel) -> int
    decreases acc.len(),
{
    if acc.len() == 0 {
        -1
    } else if acc[0].0 == c {
        0
    } else {
        let rest = find_color(acc.drop_first(), c);
        if rest < 0 {
            -1
        } else {
            rest + 1
        }
    }
}

/// Accounts one pixel: transparent pixels are skipped, a known color's
/// count rises by one, a new color enters with count 1.
pub open spec fn accum_step(acc: Seq<(Pixel, nat)>, p: Pixel) -> Seq<(Pixel, nat)> {
    if p.a == 0 {
        acc
    } else {
        let i = find_color(acc, p);
        if i >= 0 {
            acc.update(i, (p, (acc[i].1 + 1) as nat))
        } else {
            acc.push((p, 1nat))
        }
    }
}

/// The color/count accumulation over a pixel sequence, in first-seen order.
pub open spec fn accum(pixels: Seq<Pixel>) -> Seq<(Pixel, nat)>
    decreases pixels.len(),
{
    if pixels.len() == 0 {
        Seq::empty()
    } else {
        accum_step(accum(pixels.drop_last()), pixels.last())
    }
}

/// Sum of all counts.
pub open spec fn total_count(acc: Seq<(Pixel, nat)>) -> int
    decreases acc.len(),
{
    if acc.len() == 0 {
        0
    } else {
        total_count(acc.drop_last()) + acc.last().1
    }
}

/// Number of opaque (alpha non-zero) pixels.
pub open spec fn count_opaque(pixels: Seq<Pixel>) -> int
    decreases pixels.len(),
{
    if pixels.len() == 0 {
        0
    } else {
        count_opaque(pixels.drop_last()) + if pixels.last().a != 0 {
            1int
        } else {
            0int
        }
    }
}

/// Entries hold pairwise distinct, opaque colors with positive counts.
pub open spec fn entries_wf(acc: Seq<(Pixel, nat)>) -> bool {
    &&& forall|k: int| 0 <= k < acc.len() ==> (#[trigger] acc[k]).1 >= 1
    &&& forall|k: int| 0 <= k < acc.len() ==> (#[trigger] acc[k]).0.a != 0
    &&& forall|k1: int, k2: int|
        0 <= k1 < k2 < acc.len() ==> (#[trigger] acc[k1]).0 != (#[trigger] acc[k2]).0
}

/// Inserts `e` into `s` before the first strictly-greater run seen from the
/// end, so entries with equal perceptual keys keep their relative order.
pub open spec fn insert_sorted(s: Seq<(Pixel, nat)>, e: (Pixel, nat)) -> Seq<(Pixel, nat)>
    decreases s.len(),
{
    if s.len() == 0 {
        seq![e]
    } else if hsl_lt(e.0, s.last().0) {
        insert_sorted(s.drop_last(), e).push(s.last())
    } else {
        s.push(e)
    }
}

/// Stable insertion sort of the accumulated entries by the perceptual key.
pub open spec fn sort_palette(s: Seq<(Pixel, nat)>) -> Seq<(Pixel, nat)>
    decreases s.len(),
{
    if s.len() == 0 {
        Seq::empty()
    } else {
        insert_sorted(sort_palette(s.drop_last()), s.last())
    }
}

/// Entries appear in non-decreasing perceptual order.
pub open spec fn sorted_le(s: Seq<(Pixel, nat)>) -> bool {
    forall|i: int, j: int| 0 <= i < j < s.len() ==> hsl_le((#[trigger] s[i]).0, (#[trigger] s[j]).0)
}

pub proof fn lemma_find_color(acc: Seq<(Pixel, nat)>, c: Pixel)
    ensures
        find_color(acc, c) >= 0 ==> 0 <= find_color(acc, c) < acc.len() && acc[find_color(
            acc,
            c,
        )].0 == c && forall|j: int| 0 <= j < find_color(acc, c) ==> (#[trigger] acc[j]).0 != c,
        find_color(acc, c) < 0 ==> forall|j: int| 0 <= j < acc.len() ==> (#[trigger] acc[j]).0 != c,
    decreases acc.len(),
{
    if acc.len() == 0 {
    } else if acc[0].0 == c {
    } else {
        lemma_find_color(acc.drop_first(), c);
        assert(forall|j: int|
            1 <= j < acc.len() ==> (#[trigger] acc[j]) == acc.drop_first()[j - 1]);
    }
}

/// One accumulation step keeps the entries well formed and raises the
/// total by one exactly when the pixel is opaque.
pub proof fn lemma_accum_step(acc: Seq<(Pixel, nat)>, p: Pixel)
    requires
        entries_wf(acc),
    ensures
        entries_wf(accum_step(acc, p)),
        total_count(accum_step(acc, p)) == total_count(acc) + if p.a != 0 {
            1int
        } else {
            0int
        },
        acc.len() <= accum_step(acc, p).len(),
{
    if p.a != 0 {
        lemma_find_color(acc, p);
        let i = find_color(acc, p);
        if i >= 0 {
            let upd = acc.update(i, (p, (acc[i].1 + 1) as nat));
            assert(entries_wf(upd)) by {
                assert(acc[i].0 == p);
                assert(forall|k: int| 0 <= k < upd.len() && k != i ==> upd[k] == acc[k]);
            }
            lemma_total_update(acc, i);
        } else {
            let pushed = acc.push((p, 1nat));
            assert(entries_wf(pushed)) by {
                assert(forall|k: int| 0 <= k < acc.len() ==> pushed[k] == acc[k]);
                assert(pushed[acc.len() as int] == (p, 1nat));
            }
            assert(pushed.drop_last() =~= acc);
        }
    }
}

proof fn lemma_total_update(acc: Seq<(Pixel, nat)>, i: int)
    requires
        0 <= i < acc.len(),
    ensures
        total_count(acc.update(i, (acc[i].0, (acc[i].1 + 1) as nat))) == total_count(acc) + 1,
    decreases acc.len(),
{
    let upd = acc.update(i, (acc[i].0, (acc[i].1 + 1) as nat));
    if i == acc.len() - 1 {
        assert(upd.drop_last() =~= acc.drop_last());
    } else {
        lemma_total_update(acc.drop_last(), i);
        assert(upd.drop_last() =~= acc.drop_last().update(
            i,
            (acc.drop_last()[i].0, (acc.drop_last()[i].1 + 1) as nat),
        ));
        assert(upd.last() == acc.last());
    }
}

/// Every count is bounded by the total.
pub proof fn lemma_count_le_total(acc: Seq<(Pixel, nat)>, k: int)
    requires
        0 <= k < acc.len(),
    ensures
        acc[k].1 <= total_count(acc),
        total_count(acc) >= 0,
    decreases acc.len(),
{
    lemma_total_nonneg(acc);
    if k == acc.len() - 1 {
        lemma_total_nonneg(acc.drop_last());
    } else {
        lemma_count_le_total(acc.drop_last(), k);
    }
}

pub proof fn lemma_total_nonneg(acc: Seq<(Pixel, nat)>)
    ensures
        total_count(acc) >= 0,
    decreases acc.len(),
{
    if acc.len() > 0 {
        lemma_total_nonneg(acc.drop_last());
    }
}

/// The accumulated entries of any pixel sequence are well formed and their
/// counts sum to the number of opaque pixels.
pub proof fn lemma_accum_wf(pixels: Seq<Pixel>)
    ensures
        entries_wf(accum(pixels)),
        total_count(accum(pixels)) == count_opaque(pixels),
        0 <= count_opaque(pixels) <= pixels.len(),
    decreases pixels.len(),
{
    if pixels.len() > 0 {
        lemma_accum_wf(pixels.drop_last());
        lemma_accum_step(accum(pixels.drop_last()), pixels.last());
    }
}

/// An image whose pixels are all fully transparent accumulates an empty
/// palette.
pub proof fn lemma_transparent_pixels_empty(pixels: Seq<Pixel>)
    requires
        forall|i: int| 0 <= i < pixels.len() ==> (#[trigger] pixels[i]).a == 0,
    ensures
        accum(pixels).len() == 0,
        sort_palette(accum(pixels)).len() == 0,
    decreases pixels.len(),
{
    if pixels.len() > 0 {
        assert(pixels.last().a == 0);
        lemma_transparent_pixels_empty(pixels.drop_last());
    }
}

/// Inserting at the position the exec search finds is the same as the
/// recursive stable insertion.
pub proof fn lemma_insert_sorted_at(s: Seq<(Pixel, nat)>, e: (Pixel, nat), pos: int)
    requires
        0 <= pos <= s.len(),
        forall|i: int| pos <= i < s.len() ==> hsl_lt(e.0, (#[trigger] s[i]).0),
        pos > 0 ==> !hsl_lt(e.0, s[pos - 1].0),
    ensures
        insert_sorted(s, e) == s.insert(pos, e),
    decreases s.len(),
{
    if s.len() == 0 {
        assert(insert_sorted(s, e) =~= s.insert(0, e));
    } else if pos == s.len() {
        assert(!hsl_lt(e.0, s.last().0));
        assert(s.push(e) =~= s.insert(pos, e));
    } else {
        assert(hsl_lt(e.0, s.last().0));
        lemma_insert_sorted_at(s.drop_last(), e, pos);
        assert(insert_sorted(s.drop_last(), e).push(s.last()) =~= s.insert(pos, e));
    }
}

/// Everything in the stable insertion's output is the new entry or one of
/// the old ones, and the insertion preserves length, totals and sortedness.
pub proof fn lemma_insert_sorted_props(s: Seq<(Pixel, nat)>, e: (Pixel, nat))
    requires
        sorted_le(s),
    ensures
        insert_sorted(s, e).len() == s.len() + 1,
        sorted_le(insert_sorted(s, e)),
        forall|k: int|
            0 <= k < insert_sorted(s, e).len() ==> (#[trigger] insert_sorted(s, e)[k]) == e
                || s.contains(insert_sorted(s, e)[k]),
        total_count(insert_sorted(s, e)) == total_count(s) + e.1,
    decreases s.len(),
{
    let r = insert_sorted(s, e);
    if s.len() == 0 {
        assert(r.drop_last() =~= Seq::<(Pixel, nat)>::empty());
        assert(total_count(r) == total_count(r.drop_last()) + r.last().1);
    } else if hsl_lt(e.0, s.last().0) {
        let sd = s.drop_last();
        assert(sorted_le(sd)) by {
            assert(forall|i: int| 0 <= i < sd.len() ==> sd[i] == s[i]);
        }
        lemma_insert_sorted_props(sd, e);
        let inner = insert_sorted(sd, e);
        assert(r == inner.push(s.last()));
        // each element of inner is <= s.last()
        assert forall|i: int, j: int| 0 <= i < j < r.len() implies hsl_le(
            (#[trigger] r[i]).0,
            (#[trigger] r[j]).0,
        ) by {
            if j < r.len() - 1 {
                assert(r[i] == inner[i] && r[j] == inner[j]);
            } else {
                assert(r[j] == s.last());
                assert(r[i] == inner[i]);
                if inner[i] == e {
                    lemma_hsl_trichotomy(e.0, s.last().0);
                } else {
                    assert(sd.contains(inner[i]));
                    let w = choose|w: int| 0 <= w < sd.len() && sd[w] == inner[i];
                    assert(s[w] == sd[w]);
                    if w < s.len() - 1 {
                        assert(hsl_le(s[w].0, s.last().0));
                    }
                }
            }
        }
        assert(r.drop_last() =~= inner);
        assert(total_count(r) == total_count(inner) + s.last().1);
        assert(total_count(s) == total_count(sd) + s.last().1);
        assert forall|k: int| 0 <= k < r.len() implies (#[trigger] r[k]) == e || s.contains(
            r[k],
        ) by {
            if k < r.len() - 1 {
                assert(r[k] == inner[k]);
                if inner[k] != e {
                    assert(sd.contains(inner[k]));
                    let w = choose|w: int| 0 <= w < sd.len() && sd[w] == inner[k];
                    assert(s[w] == inner[k]);
                }
            } else {
                assert(r[k] == s.last());
                assert(s.contains(s.last()));
            }
        }
    } else {
        assert(r == s.push(e));
        lemma_hsl_trichotomy(e.0, s.last().0);
        assert forall|i: int, j: int| 0 <= i < j < r.len() implies hsl_le(
            (#[trigger] r[i]).0,
            (#[trigger] r[j]).0,
        ) by {
            if j < r.len() - 1 {
                assert(r[i] == s[i] && r[j] == s[j]);
            } else {
                assert(r[j] == e);
                assert(r[i] == s[i]);
                if i < s.len() - 1 {
                    assert(hsl_le(s[i].0, s.last().0));
                    lemma_hsl_le_lt_chain(s[i].0, s.last().0, e.0);
                }
            }
        }
        assert(r.drop_last() =~= s);
        assert(total_count(r) == total_count(r.drop_last()) + r.last().1);
        assert(r.last() == e);
        assert forall|k: int| 0 <= k < r.len() implies (#[trigger] r[k]) == e || s.contains(
            r[k],
        ) by {
            if k < r.len() - 1 {
                assert(r[k] == s[k]);
            }
        }
    }
}

/// Chains `p <= q` with `q <= e` (from a failed strict comparison).
proof fn lemma_hsl_le_lt_chain(p: Pixel, q: Pixel, e: Pixel)
    requires
        hsl_le(p, q),
        !hsl_lt(e, q),
    ensures
        hsl_le(p, e),
{
    lemma_hsl_trichotomy(e, q);
    if hsl_lt(q, e) {
        if hsl_lt(p, q) {
            lemma_hsl_lt_trans(p, q, e);
        } else {
            lemma_hsl_eq_lt_trans(p, q, e);
        }
    } else {
        // q == e perceptually
        if hsl_lt(p, q) {
            lemma_hsl_eq_lt_trans(p, q, e);
        } else {
            lemma_hsl_eq_lt_trans(p, q, e);
        }
    }
}

/// The sorted palette is a well-formed reordering of the accumulation:
/// same length, same totals, sorted, and every entry comes from the input.
pub proof fn lemma_sort_props(s: Seq<(Pixel, nat)>)
    ensures
        sort_palette(s).len() == s.len(),
        sorted_le(sort_palette(s)),
        forall|k: int|
            0 <= k < sort_palette(s).len() ==> s.contains(#[trigger] sort_palette(s)[k]),
        total_count(sort_palette(s)) == total_count(s),
    decreases s.len(),
{
    if s.len() > 0 {
        let sd = s.drop_last();
        lemma_sort_props(sd);
        lemma_insert_sorted_props(sort_palette(sd), s.last());
        assert forall|k: int|
            0 <= k < sort_palette(s).len() implies s.contains(#[trigger] sort_palette(s)[k]) by {
            let x = sort_palette(s)[k];
            if x == s.last() {
                assert(s[s.len() - 1] == x);
            } else {
                assert(sort_palette(sd).contains(x));
                let w = choose|w: int| 0 <= w < sort_palette(sd).len() && sort_palette(sd)[w] == x;
                assert(sd.contains(x));
                let v = choose|v: int| 0 <= v < sd.len() && sd[v] == x;
                assert(s[v] == x);
            }
        }
    }
}

/// No two entries carry the same color.
pub open spec fn distinct_colors(s: Seq<(Pixel, nat)>) -> bool {
    forall|k1: int, k2: int|
        0 <= k1 < k2 < s.len() ==> (#[trigger] s[k1]).0 != (#[trigger] s[k2]).0
}

/// Some entry carries color `c`.
pub open spec fn has_color(s: Seq<(Pixel, nat)>, c: Pixel) -> bool {
    exists|k: int| 0 <= k < s.len() && (#[trigger] s[k]).0 == c
}

proof fn lemma_has_color_push(s: Seq<(Pixel, nat)>, x: (Pixel, nat), c: Pixel)
    ensures
        has_color(s.push(x), c) <==> (has_color(s, c) || x.0 == c),
{
    let r = s.push(x);
    if has_color(r, c) {
        let k = choose|k: int| 0 <= k < r.len() && (#[trigger] r[k]).0 == c;
        if k < s.len() {
            assert(s[k] == r[k]);
        } else {
            assert(r[k] == x);
        }
    }
    if has_color(s, c) {
        let k = choose|k: int| 0 <= k < s.len() && (#[trigger] s[k]).0 == c;
        assert(r[k] == s[k]);
    }
    if x.0 == c {
        assert(r[s.len() as int] == x);
    }
}

proof fn lemma_insert_distinct(s: Seq<(Pixel, nat)>, e: (Pixel, nat))
    requires
        distinct_colors(s),
        !has_color(s, e.0),
    ensures
        distinct_colors(insert_sorted(s, e)),
        forall|c: Pixel|
            #[trigger] has_color(insert_sorted(s, e), c) <==> has_color(s, c) || c == e.0,
    decreases s.len(),
{
    let r = insert_sorted(s, e);
    if s.len() == 0 {
        assert(r =~= Seq::<(Pixel, nat)>::empty().push(e));
        assert forall|c: Pixel|
            #[trigger] has_color(r, c) <==> has_color(s, c) || c == e.0 by {
            lemma_has_color_push(Seq::<(Pixel, nat)>::empty(), e, c);
            if has_color(s, c) {
                let k = choose|k: int| 0 <= k < s.len() && (#[trigger] s[k]).0 == c;
            }
        }
    } else if hsl_lt(e.0, s.last().0) {
        let sd = s.drop_last();
        assert(s =~= sd.push(s.last()));
        assert(distinct_colors(sd)) by {
            assert(forall|i: int| 0 <= i < sd.len() ==> sd[i] == s[i]);
        }
        assert(!has_color(sd, e.0)) by {
            lemma_has_color_push(sd, s.last(), e.0);
        }
        lemma_insert_distinct(sd, e);
        let inner = insert_sorted(sd, e);
        assert(r == inner.push(s.last()));
        assert(!has_color(sd, s.last().0)) by {
            if has_color(sd, s.last().0) {
                let k = choose|k: int| 0 <= k < sd.len() && (#[trigger] sd[k]).0 == s.last().0;
                assert(s[k].0 == s.last().0);
                assert(s[s.len() - 1].0 == s.last().0);
            }
        }
        assert(!has_color(inner, s.last().0));
        assert forall|k1: int, k2: int| 0 <= k1 < k2 < r.len() implies (#[trigger] r[k1]).0 != (
        #[trigger] r[k2]).0 by {
            if k2 < r.len() - 1 {
                assert(r[k1] == inner[k1] && r[k2] == inner[k2]);
            } else {
                assert(r[k2] == s.last());
                assert(r[k1] == inner[k1]);
                if inner[k1].0 == s.last().0 {
                    assert(has_color(inner, s.last().0));
                }
            }
        }
        assert forall|c: Pixel|
            #[trigger] has_color(r, c) <==> has_color(s, c) || c == e.0 by {
            lemma_has_color_push(inner, s.last(), c);
            lemma_has_color_push(sd, s.last(), c);
            assert(has_color(inner, c) <==> has_color(sd, c) || c == e.0);
        }
    } else {
        assert(r == s.push(e));
        assert forall|k1: int, k2: int| 0 <= k1 < k2 < r.len() implies (#[trigger] r[k1]).0 != (
        #[trigger] r[k2]).0 by {
            if k2 < r.len() - 1 {
                assert(r[k1] == s[k1] && r[k2] == s[k2]);
            } else {
                assert(r[k2] == e);
                assert(r[k1] == s[k1]);
                if s[k1].0 == e.0 {
                    assert(has_color(s, e.0));
                }
            }
        }
        assert forall|c: Pixel|
            #[trigger] has_color(r, c) <==> has_color(s, c) || c == e.0 by {
            lemma_has_color_push(s, e, c);
        }
    }
}

proof fn lemma_accum_step_colors(acc: Seq<(Pixel, nat)>, p: Pixel)
    ensures
        forall|c: Pixel|
            #[trigger] has_color(accum_step(acc, p), c) <==> has_color(acc, c) || (p.a != 0 && c
                == p),
{
    if p.a == 0 {
    } else {
        lemma_find_color(acc, p);
        let i = find_color(acc, p);
        if i >= 0 {
            let upd = acc.update(i, (p, (acc[i].1 + 1) as nat));
            assert forall|c: Pixel|
                #[trigger] has_color(upd, c) <==> has_color(acc, c) || (p.a != 0 && c == p) by {
                assert(forall|k: int| 0 <= k < upd.len() ==> (#[trigger] upd[k]).0 == acc[k].0);
                if has_color(upd, c) {
                    let k = choose|k: int| 0 <= k < upd.len() && (#[trigger] upd[k]).0 == c;
                    assert(acc[k].0 == c);
                }
                if has_color(acc, c) {
                    let k = choose|k: int| 0 <= k < acc.len() && (#[trigger] acc[k]).0 == c;
                    assert(upd[k].0 == c);
                }
                if p.a != 0 && c == p {
                    assert(acc[i].0 == c);
                }
            }
        } else {
            assert forall|c: Pixel|
                #[trigger] has_color(acc.push((p, 1nat)), c) <==> has_color(acc, c) || (p.a != 0
                    && c == p) by {
                lemma_has_color_push(acc, (p, 1nat), c);
            }
        }
    }
}

/// Every opaque pixel's color has an entry in the accumulation.
pub proof fn lemma_accum_has_all(pixels: Seq<Pixel>)
    ensures
        forall|i: int|
            0 <= i < pixels.len() && (#[trigger] pixels[i]).a != 0 ==> has_color(
                accum(pixels),
                pixels[i],
            ),
    decreases pixels.len(),
{
    if pixels.len() > 0 {
        let dl = pixels.drop_last();
        lemma_accum_has_all(dl);
        lemma_accum_step_colors(accum(dl), pixels.last());
        assert forall|i: int|
            0 <= i < pixels.len() && (#[trigger] pixels[i]).a != 0 implies has_color(
            accum(pixels),
            pixels[i],
        ) by {
            if i < pixels.len() - 1 {
                assert(dl[i] == pixels[i]);
                assert(has_color(accum(dl), pixels[i]));
            } else {
                assert(pixels.last() == pixels[i]);
            }
        }
    }
}

/// A color with an entry is found by `find_color`.
pub proof fn lemma_has_color_found(acc: Seq<(Pixel, nat)>, c: Pixel)
    requires
        has_color(acc, c),
    ensures
        0 <= find_color(acc, c) < acc.len(),
        acc[find_color(acc, c)].0 == c,
{
    lemma_find_color(acc, c);
    if find_color(acc, c) < 0 {
        let k = choose|k: int| 0 <= k < acc.len() && (#[trigger] acc[k]).0 == c;
    }
}

/// Sorting keeps the colors pairwise distinct.
pub proof fn lemma_sort_distinct(s: Seq<(Pixel, nat)>)
    requires
        distinct_colors(s),
    ensures
        distinct_colors(sort_palette(s)),
        forall|c: Pixel| #[trigger] has_color(sort_palette(s), c) <==> has_color(s, c),
    decreases s.len(),
{
    if s.len() == 0 {
        assert forall|c: Pixel| #[trigger] has_color(sort_palette(s), c) implies has_color(
            s,
            c,
        ) by {}
    } else {
        let sd = s.drop_last();
        assert(distinct_colors(sd)) by {
            assert(forall|i: int| 0 <= i < sd.len() ==> sd[i] == s[i]);
        }
        lemma_sort_distinct(sd);
        assert(!has_color(sd, s.last().0)) by {
            if has_color(sd, s.last().0) {
                let k = choose|k: int| 0 <= k < sd.len() && (#[trigger] sd[k]).0 == s.last().0;
                assert(s[k].0 == s.last().0);
            }
        }
        assert(!has_color(sort_palette(sd), s.last().0));
        lemma_insert_distinct(sort_palette(sd), s.last());
        assert forall|c: Pixel| #[trigger] has_color(sort_palette(s), c) implies has_color(
            s,
            c,
        ) by {
            assert(has_color(sort_palette(sd), c) || c == s.last().0);
            if has_color(sd, c) {
                let k = choose|k: int| 0 <= k < sd.len() && (#[trigger] sd[k]).0 == c;
                assert(s[k].0 == c);
            } else {
                assert(s[s.len() - 1].0 == c);
            }
        }
        assert forall|c: Pixel| has_color(s, c) implies #[trigger] has_color(
            sort_palette(s),
            c,
        ) by {
            let k = choose|k: int| 0 <= k < s.len() && (#[trigger] s[k]).0 == c;
            if k < s.len() - 1 {
                assert(sd[k].0 == c);
                assert(has_color(sd, c));
            }
        }
    }
}

/// Finds the first entry carrying color `c`, as `find_color` does.
pub fn find_entry(palette: &Vec<ColorCount>, c: Pixel) -> (r: Option<usize>)
    ensures
        match r {
            Some(i) => find_color(palette_view(palette@), c) == i && i < palette@.len()
                && palette@[i as int].color == c,
            None => find_color(palette_view(palette@), c) < 0,
        },
{
    let ghost acc = palette_view(palette@);
    proof {
        lemma_find_color(acc, c);
    }
    let n = palette.len();
    let mut j: usize = 0;
    while j < n
        invariant
            n == palette@.len(),
            j <= n,
            acc == palette_view(palette@),
            forall|k: int| 0 <= k < j ==> (#[trigger] acc[k]).0 != c,
        decreases n - j,
    {
        if palette[j].color == c {
            proof {
                lemma_find_color(acc, c);
                let f = find_color(acc, c);
                assert(acc[j as int].0 == c);
                if f < 0 {
                    assert(acc[j as int].0 != c);
                } else {
                    if f < j {
                        assert(acc[f].0 != c);
                    }
                    if j < f {
                        assert(acc[j as int].0 != c);
                    }
                }
            }
            return Some(j);
        }
        j = j + 1;
    }
    proof {
        lemma_find_color(acc, c);
        let f = find_color(acc, c);
        if f >= 0 {
            assert(acc[f].0 == c);
        }
    }
    None
}

/// Scans the image in row-major order, counts every distinct opaque color
/// (fully transparent pixels never enter), and returns the entries ordered
/// by the perceptual hue/luminosity/saturation key; colors with equal keys
/// keep their first-seen order. The result is the same on every run over
/// the same pixels.
pub fn extract_palette(image: &PixelBuffer) -> (r: Vec<ColorCount>)
    requires
        image.wf(),
    ensures
        palette_view(r@) == sort_palette(accum(image.pixels())),
        sorted_le(palette_view(r@)),
        entries_wf(palette_view(r@)),
        distinct_colors(palette_view(r@)),
        total_count(palette_view(r@)) == count_opaque(image.pixels()),
{
    let ghost pixels = image.pixels();
    let total = image.pixel_count();
    let mut entries: Vec<ColorCount> = Vec::new();
    let mut i: usize = 0;
    while i < total
        invariant
            image.wf(),
            pixels == image.pixels(),
            total == pixels.len(),
            i <= total,
            palette_view(entries@) == accum(pixels.take(i as int)),
            entries_wf(palette_view(entries@)),
            total_count(palette_view(entries@)) == count_opaque(pixels.take(i as int)),
            count_opaque(pixels.take(i as int)) <= i,
        decreases total - i,
    {
        let ghost prefix = pixels.take(i as int);
        let ghost acc = palette_view(entries@);
        let p = image.get_linear(i);
        proof {
            assert(pixels.take(i + 1).drop_last() =~= prefix);
            assert(pixels.take(i + 1).last() == pixels[i as int]);
            lemma_accum_step(acc, p);
            lemma_find_color(acc, p);
        }
        if p.a != 0 {
            let mut j: usize = 0;
            let n = entries.len();
            let mut found = false;
            while j < n && !found
                invariant
                    n == entries.len(),
                    j <= n,
                    acc == palette_view(entries@),
                    !found ==> forall|k: int| 0 <= k < j ==> (#[trigger] acc[k]).0 != p,
                    found ==> j < n && acc[j as int].0 == p && forall|k: int|
                        0 <= k < j ==> (#[trigger] acc[k]).0 != p,
                decreases n - j + if found {
                    0int
                } else {
                    1int
                },
            {
                if entries[j].color == p {
                    found = true;
                } else {
                    j = j + 1;
                }
            }
            if found {
                proof {
                    assert(find_color(acc, p) == j as int) by {
                        let f = find_color(acc, p);
                        assert(acc[j as int].0 == p);
                        if f < 0 {
                            assert(acc[j as int].0 != p);
                        } else {
                            if f < j {
                                assert(acc[f].0 != p);
                            }
                            if j < f {
                                assert(acc[j as int].0 != p);
                            }
                        }
                    }
                    lemma_count_le_total(acc, j as int);
                }
                let c = entries[j].count;
                let col = entries[j].color;
                entries[j] = ColorCount { color: col, count: c + 1 };
                proof {
                    assert(palette_view(entries@) =~= accum_step(acc, p));
                }
            } else {
                proof {
                    assert(find_color(acc, p) < 0) by {
                        let f = find_color(acc, p);
                        if f >= 0 {
                            assert(acc[f].0 == p);
                        }
                    }
                }
                entries.push(ColorCount { color: p, count: 1 });
                proof {
                    assert(palette_view(entries@) =~= accum_step(acc, p));
                }
            }
        } else {
            proof {
                assert(palette_view(entries@) =~= accum_step(acc, p));
            }
        }
        i = i + 1;
    }
    proof {
        assert(pixels.take(total as int) =~= pixels);
    }
    // Stable insertion sort by the perceptual key.
    let ghost acc_full = palette_view(entries@);
    let n = entries.len();
    let mut sorted: Vec<ColorCount> = Vec::new();
    let mut k: usize = 0;
    while k < n
        invariant
            n == entries.len(),
            k <= n,
            acc_full == palette_view(entries@),
            palette_view(sorted@) == sort_palette(acc_full.take(k as int)),
            sorted@.len() == k,
        decreases n - k,
    {
        let ghost before = palette_view(sorted@);
        let e = entries[k];
        proof {
            assert(acc_full.take(k + 1).drop_last() =~= acc_full.take(k as int));
            assert(acc_full.take(k + 1).last() == acc_full[k as int]);
            assert(acc_full[k as int] == entry_view(e));
        }
        let mut pos: usize = sorted.len();
        while pos > 0 && color_lt(e.color, sorted[pos - 1].color)
            invariant
                pos <= sorted@.len(),
                before == palette_view(sorted@),
                forall|t: int|
                    pos <= t < sorted@.len() ==> hsl_lt(entry_view(e).0, (#[trigger] before[t]).0),
            decreases pos,
        {
            pos = pos - 1;
        }
        proof {
            lemma_insert_sorted_at(before, entry_view(e), pos as int);
        }
        sorted.insert(pos, e);
        proof {
            assert(palette_view(sorted@) =~= before.insert(pos as int, entry_view(e)));
        }
        k = k + 1;
    }
    proof {
        assert(acc_full.take(n as int) =~= acc_full);
        lemma_accum_wf(pixels);
        lemma_sort_props(acc_full);
        lemma_sort_distinct(acc_full);
        let sv = palette_view(sorted@);
        assert forall|t: int| 0 <= t < sv.len() implies (#[trigger] sv[t]).1 >= 1 && sv[t].0.a
            != 0 by {
            assert(acc_full.contains(sv[t]));
            let w = choose|w: int| 0 <= w < acc_full.len() && acc_full[w] == sv[t];
        }
    }
    sorted
}

} // verus!
