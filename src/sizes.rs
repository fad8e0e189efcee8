//! Choosing which breakpoint widths to generate for an image.

use vstd::prelude::*;

verus! {

/// The widths of `sizes` that are no greater than `max`, in their order.
pub open spec fn selected(max: u32, sizes: Seq<u32>) -> Seq<u32>
    decreases sizes.len(),
{
    if sizes.len() == 0 {
        Seq::empty()
    } else if sizes.last() <= max {
        selected(max, sizes.drop_last()).push(sizes.last())
    } else {
        selected(max, sizes.drop_last())
    }
}

/// Every selected width fits, and each comes from the candidates.
pub proof fn lemma_selected_bounded(max: u32, sizes: Seq<u32>)
    ensures
        selected(max, sizes).len() <= sizes.len(),
        forall|i: int| 0 <= i < selected(max, sizes).len() ==> selected(max, sizes)[i] <= max,
        forall|i: int|
            0 <= i < selected(max, sizes).len() ==> sizes.contains(#[trigger] selected(max, sizes)[i]),
    decreases sizes.len(),
{
    if sizes.len() > 0 {
        let rest = sizes.drop_last();
        lemma_selected_bounded(max, rest);
        assert forall|i: int|
            0 <= i < selected(max, sizes).len() implies sizes.contains(
                #[trigger] selected(max, sizes)[i],
            ) by {
            if i < selected(max, rest).len() {
                let x = selected(max, rest)[i];
                assert(rest.contains(x));
                let k = choose|k: int| 0 <= k < rest.len() && rest[k] == x;
                assert(sizes[k] == x);
            } else {
                assert(sizes[sizes.len() - 1] == sizes.last());
            }
        }
    }
}

/// Selection from an ascending list of candidates keeps exactly the
/// candidates no greater than the width, and keeps them ascending.
pub proof fn lemma_selection(w: u32, c: Seq<u32>)
    requires
        ascending(c),
    ensures
        ascending(selected(w, c)),
        forall|x: u32| selected(w, c).contains(x) <==> (c.contains(x) && x <= w),
    decreases c.len(),
{
    lemma_selected_bounded(w, c);
    if c.len() > 0 {
        let rest = c.drop_last();
        assert(ascending(rest));
        lemma_selection(w, rest);
        lemma_selected_bounded(w, rest);
        let s = selected(w, c);
        let sr = selected(w, rest);
        assert forall|x: u32| s.contains(x) <==> (c.contains(x) && x <= w) by {
            if c.contains(x) && x <= w {
                let k = choose|k: int| 0 <= k < c.len() && c[k] == x;
                if k < c.len() - 1 {
                    assert(rest[k] == x);
                    assert(rest.contains(x));
                    assert(sr.contains(x));
                    let j = choose|j: int| 0 <= j < sr.len() && sr[j] == x;
                    if c.last() <= w {
                        assert(s[j] == x);
                    }
                } else {
                    assert(s.last() == x);
                    assert(s[s.len() - 1] == x);
                }
            }
            if s.contains(x) {
                let j = choose|j: int| 0 <= j < s.len() && s[j] == x;
                assert(c.contains(x));
            }
        }
        if c.last() <= w {
            assert forall|i: int, j: int| 0 <= i < j < s.len() implies s[i] < s[j] by {
                if j == s.len() - 1 {
                    assert(rest.contains(sr[i]));
                    let k = choose|k: int| 0 <= k < rest.len() && rest[k] == sr[i];
                    assert(c[k] < c[c.len() - 1]);
                }
            }
        }
    }
}

/// Keep the breakpoints that fit within an image `max` pixels wide; `None` when none does.
pub fn strip_sizes(max: u32, sizes: &Vec<u32>) -> (r: Option<Vec<u32>>)
    ensures
        selected(max, sizes@).len() == 0 ==> r is None,
        selected(max, sizes@).len() > 0 ==> r is Some && r->0@ == selected(max, sizes@),
{
    let mut v: Vec<u32> = Vec::new();
    let mut x: usize = 0;
    while x < sizes.len()
        invariant
            x <= sizes.len(),
            v@ == selected(max, sizes@.subrange(0, x as int)),
        decreases sizes.len() - x,
    {
        assert(sizes@.subrange(0, x as int + 1).drop_last() == sizes@.subrange(0, x as int));
        if max >= sizes[x] {
            v.push(sizes[x]);
        }
        x = x + 1;
    }
    assert(sizes@.subrange(0, sizes.len() as int) == sizes@);
    if v.len() == 0 {
        None
    } else {
        Some(v)
    }
}


/// The breakpoints used when no list of widths is configured.
pub open spec fn default_table() -> Seq<u32> {
    seq![320u32, 480, 640, 768, 960, 1024, 1280, 1440]
}

/// The built-in ascending table of standard widths, mobile through desktop.
pub fn default_sizes() -> (r: Vec<u32>)
    ensures
        r@ == default_table(),
{
    let r: Vec<u32> = vec![320, 480, 640, 768, 960, 1024, 1280, 1440];
    assert(r@ == default_table());
    r
}

/// Strictly ascending, hence also free of duplicates.
pub open spec fn ascending(s: Seq<u32>) -> bool {
    forall|i: int, j: int| 0 <= i < j < s.len() ==> s[i] < s[j]
}

/// The height, rounded to the nearest pixel (halves up), that keeps the aspect
/// ratio of a `w` by `h` image at width `t`; zero for an image without width.
pub open spec fn scaled_height_of(t: int, w: int, h: int) -> int {
    if w == 0 {
        0
    } else {
        (2 * (t * h) + w) / (2 * w)
    }
}

/// The height of the variant `t` pixels wide of a `w` by `h` image.
pub fn scaled_height(t: u32, w: u32, h: u32) -> (r: u32)
    requires
        t <= w,
    ensures
        r == scaled_height_of(t as int, w as int, h as int),
        r <= h,
{
    if w == 0 {
        return 0;
    }
    proof {
        assert((t as int) * (h as int) <= 0xffff_ffff * 0xffff_ffff) by (nonlinear_arith)
            requires t <= 0xffff_ffff, h <= 0xffff_ffff;
    }
    let num: u128 = 2 * ((t as u128) * (h as u128)) + (w as u128);
    let den: u128 = 2 * (w as u128);
    proof {
        assert(2 * (t as int) * (h as int) <= 2 * (w as int) * (h as int)) by (nonlinear_arith)
            requires t <= w;
        assert(num as int <= den as int * (h as int) + w) by (nonlinear_arith)
            requires num as int == 2 * ((t as int) * (h as int)) + (w as int),
                den as int == 2 * (w as int),
                2 * (t as int) * (h as int) <= 2 * (w as int) * (h as int);
        assert((num as int) / (den as int) <= h as int) by (nonlinear_arith)
            requires num as int <= den as int * (h as int) + w, den as int == 2 * (w as int), w > 0;
    }
    (num / den) as u32
}

} // verus!
