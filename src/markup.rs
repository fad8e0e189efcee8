//! The `<img>` tag that describes the generated variants of one image.

use vstd::prelude::*;
use crate::labels::{decimal, digit_chars, lemma_decimal_digits, push_decimal};
use crate::paths::{last_index, lemma_last_index_append};
use crate::sizes::selected;

verus! {

/// One `srcset` entry: `{f}/{w}w.{ext} {w}w`.
pub open spec fn entry(f: Seq<char>, ext: Seq<char>, w: u32) -> Seq<char> {
    f + "/"@ + decimal(w as nat) + "w."@ + ext + " "@ + decimal(w as nat) + "w"@
}

/// The entries of `ws`, in order, separated by `, `.
pub open spec fn srcset(f: Seq<char>, ext: Seq<char>, ws: Seq<u32>) -> Seq<char>
    decreases ws.len(),
{
    if ws.len() == 0 {
        Seq::empty()
    } else if ws.len() == 1 {
        entry(f, ext, ws[0])
    } else {
        srcset(f, ext, ws.drop_last()) + ", "@ + entry(f, ext, ws.last())
    }
}

/// The `sizes` hint for an image whose largest variant is `max` pixels wide:
/// the first tier whose bound `max` is below, else the last.
pub open spec fn sizes_hint(max: u32) -> Seq<char> {
    if max < 480 {
        "(max-width:480px) 100vw, min-width:481px) 25vw"@
    } else if max < 640 {
        "(max-width:640px) 100vw, min-width:641px) 33vw"@
    } else if max < 768 {
        "(max-width:320px) 50vw, (max-width:768px) 100vw, min-width:769px) 50vw"@
    } else if max < 1024 {
        "(max-width:320px) 50vw, (max-width:960px) 75vw, min-width:961px) 95vw"@
    } else if max < 1366 {
        "(max-width:320px) 50vw, (max-width:960px) 75vw, (min-width:961px) 95vw"@
    } else if max < 1660 {
        "(max-width:320px) 25vw, (min-width: 960px) 75vw, 100vw"@
    } else {
        "(min-width: 1024px) 50vw, 100vw"@
    }
}

/// The whole tag for variants under `f`, in format `ext`, of the file named `n`.
pub open spec fn tag(max: u32, f: Seq<char>, ext: Seq<char>, n: Seq<char>, sizes: Seq<u32>) -> Seq<
    char,
> {
    "<img src=\""@ + f + "/legacy."@ + ext + "\" srcset=\""@ + srcset(f, ext, selected(max, sizes))
        + "\" sizes=\""@ + sizes_hint(max) + "\" alt=\"A file named "@ + n + "\">"@
}

proof fn lemma_selected_all(max: u32, ws: Seq<u32>)
    requires
        forall|i: int| 0 <= i < ws.len() ==> ws[i] <= max,
    ensures
        selected(max, ws) == ws,
    decreases ws.len(),
{
    if ws.len() > 0 {
        lemma_selected_all(max, ws.drop_last());
        assert(ws.drop_last().push(ws.last()) =~= ws);
    }
}

/// Given widths that all fit within the fallback width `max`, the tag's
/// `srcset` lists each of them once, in the order given, each as
/// `{f}/{w}w.{ext} {w}w`, separated by `, ` and with no separator after the
/// last.
pub proof fn lemma_markup_lists_widths(max: u32, f: Seq<char>, ext: Seq<char>, n: Seq<char>, ws: Seq<u32>)
    requires
        forall|i: int| 0 <= i < ws.len() ==> ws[i] <= max,
    ensures
        selected(max, ws) == ws,
        tag(max, f, ext, n, ws) == "<img src=\""@ + f + "/legacy."@ + ext + "\" srcset=\""@ + srcset(f, ext, ws)
            + "\" sizes=\""@ + sizes_hint(max) + "\" alt=\"A file named "@ + n + "\">"@,
        ws.len() == 0 ==> srcset(f, ext, ws).len() == 0,
        ws.len() == 1 ==> srcset(f, ext, ws) == entry(f, ext, ws[0]),
        ws.len() > 1 ==> srcset(f, ext, ws) == srcset(f, ext, ws.drop_last()) + ", "@ + entry(f, ext, ws.last()),
        ws.len() > 0 ==> srcset(f, ext, ws).len() > 0 && srcset(f, ext, ws).last() == 'w',
{
    lemma_selected_all(max, ws);
    reveal_strlit("w");
    if ws.len() > 0 {
        let e = entry(f, ext, ws.last());
        assert(e.last() == 'w');
        assert(srcset(f, ext, ws).last() == 'w');
    }
}

/// `s` holds no `c`.
pub open spec fn lacks(s: Seq<char>, c: char) -> bool {
    forall|k: int| 0 <= k < s.len() ==> s[k] != c
}

/// The items of a `srcset` value: the text between its commas, each comma
/// taken with the space after it.
pub open spec fn split_entries(s: Seq<char>) -> Seq<Seq<char>>
    decreases s.len(),
{
    let i = last_index(s, ',');
    if i < 0 || i >= s.len() {
        seq![s]
    } else {
        split_entries(s.subrange(0, i)).push(s.subrange(i + 2, s.len() as int))
    }
}

proof fn lemma_lacks_concat(a: Seq<char>, b: Seq<char>, c: char)
    requires
        lacks(a, c),
        lacks(b, c),
    ensures
        lacks(a + b, c),
{
    assert forall|k: int| 0 <= k < (a + b).len() implies (a + b)[k] != c by {
        if k < a.len() {
            assert((a + b)[k] == a[k]);
        } else {
            assert((a + b)[k] == b[k - a.len()]);
        }
    }
}

proof fn lemma_entry_lacks_comma(f: Seq<char>, ext: Seq<char>, w: u32)
    requires
        lacks(f, ','),
        lacks(ext, ','),
    ensures
        lacks(entry(f, ext, w), ','),
{
    reveal_strlit("/");
    reveal_strlit("w.");
    reveal_strlit(" ");
    reveal_strlit("w");
    lemma_decimal_digits(w as nat);
    let d = decimal(w as nat);
    assert forall|k: int| 0 <= k < d.len() implies d[k] != ',' by {
        assert(digit_chars().contains(d[k]));
    }
    assert(lacks("/"@, ','));
    assert(lacks("w."@, ','));
    assert(lacks(" "@, ','));
    assert(lacks("w"@, ','));
    lemma_lacks_concat(f, "/"@, ',');
    lemma_lacks_concat(f + "/"@, d, ',');
    lemma_lacks_concat(f + "/"@ + d, "w."@, ',');
    lemma_lacks_concat(f + "/"@ + d + "w."@, ext, ',');
    lemma_lacks_concat(f + "/"@ + d + "w."@ + ext, " "@, ',');
    lemma_lacks_concat(f + "/"@ + d + "w."@ + ext + " "@, d, ',');
    lemma_lacks_concat(f + "/"@ + d + "w."@ + ext + " "@ + d, "w"@, ',');
}

/// Where neither the path nor the extension holds a comma, splitting a
/// `srcset` value at its commas gives back exactly one item per width, in
/// order, each of the form `{f}/{w}w.{ext} {w}w`.
pub proof fn lemma_srcset_splits(f: Seq<char>, ext: Seq<char>, ws: Seq<u32>)
    requires
        ws.len() > 0,
        lacks(f, ','),
        lacks(ext, ','),
    ensures
        split_entries(srcset(f, ext, ws)) == ws.map_values(|w: u32| entry(f, ext, w)),
    decreases ws.len(),
{
    let s = srcset(f, ext, ws);
    let e = entry(f, ext, ws.last());
    lemma_entry_lacks_comma(f, ext, ws.last());
    if ws.len() == 1 {
        lemma_last_index_append(Seq::empty(), e, ',');
        assert(Seq::<char>::empty() + e =~= e);
        assert(s == e);
        assert(ws.map_values(|w: u32| entry(f, ext, w)) =~= seq![e]);
    } else {
        let prev = srcset(f, ext, ws.drop_last());
        lemma_srcset_splits(f, ext, ws.drop_last());
        reveal_strlit(", ");
        let head = prev + seq![','];
        let tail = seq![' '] + e;
        assert(s =~= head + tail);
        assert(lacks(tail, ',')) by {
            assert forall|k: int| 0 <= k < tail.len() implies tail[k] != ',' by {
                if k > 0 {
                    assert(tail[k] == e[k - 1]);
                }
            }
        }
        lemma_last_index_append(head, tail, ',');
        assert(head.drop_last() =~= prev);
        assert(last_index(head, ',') == prev.len());
        assert(s.subrange(0, prev.len() as int) =~= prev);
        assert(s.subrange(prev.len() as int + 2, s.len() as int) =~= e);
        assert(ws.map_values(|w: u32| entry(f, ext, w)) =~= ws.drop_last().map_values(
            |w: u32| entry(f, ext, w),
        ).push(e));
    }
}

fn hint(max: u32) -> (r: &'static str)
    ensures
        r@ == sizes_hint(max),
{
    if max < 480 {
        "(max-width:480px) 100vw, min-width:481px) 25vw"
    } else if max < 640 {
        "(max-width:640px) 100vw, min-width:641px) 33vw"
    } else if max < 768 {
        "(max-width:320px) 50vw, (max-width:768px) 100vw, min-width:769px) 50vw"
    } else if max < 1024 {
        "(max-width:320px) 50vw, (max-width:960px) 75vw, min-width:961px) 95vw"
    } else if max < 1366 {
        "(max-width:320px) 50vw, (max-width:960px) 75vw, (min-width:961px) 95vw"
    } else if max < 1660 {
        "(max-width:320px) 25vw, (min-width: 960px) 75vw, 100vw"
    } else {
        "(min-width: 1024px) 50vw, 100vw"
    }
}

fn push_entry(s: &mut String, f: &str, ext: &str, w: u32)
    ensures
        final(s)@ == old(s)@ + entry(f@, ext@, w),
{
    s.append(f);
    s.append("/");
    push_decimal(s, w);
    s.append("w.");
    s.append(ext);
    s.append(" ");
    push_decimal(s, w);
    s.append("w");
    assert(final(s)@ =~= old(s)@ + entry(f@, ext@, w));
}

/// The `<img>` tag for the variants of `sizes` no wider than `max`, stored
/// under `f` in format `ext`, with `n` naming the source file.
pub fn create_tag(max: u32, f: &str, ext: &str, n: &str, sizes: &Vec<u32>) -> (r: String)
    ensures
        r@ == tag(max, f@, ext@, n@, sizes@),
{
    let mut set = String::new();
    let mut count: usize = 0;
    let mut x: usize = 0;
    while x < sizes.len()
        invariant
            x <= sizes.len(),
            count == selected(max, sizes@.subrange(0, x as int)).len(),
            count <= x,
            set@ == srcset(f@, ext@, selected(max, sizes@.subrange(0, x as int))),
        decreases sizes.len() - x,
    {
        let ghost pre = sizes@.subrange(0, x as int);
        assert(sizes@.subrange(0, x as int + 1).drop_last() =~= pre);
        if max >= sizes[x] {
            if count > 0 {
                set.append(", ");
            }
            push_entry(&mut set, f, ext, sizes[x]);
            assert(selected(max, sizes@.subrange(0, x as int + 1)) == selected(max, pre).push(
                sizes[x as int],
            ));
            assert(selected(max, pre).push(sizes[x as int]).drop_last() =~= selected(max, pre));
            if count == 0 {
                assert(set@ =~= srcset(f@, ext@, selected(max, pre).push(sizes[x as int])));
            }
        }
        count = if max >= sizes[x] { count + 1 } else { count };
        x = x + 1;
    }
    assert(sizes@.subrange(0, sizes.len() as int) =~= sizes@);
    let mut t = String::from_str("<img src=\"");
    t.append(f);
    t.append("/legacy.");
    t.append(ext);
    t.append("\" srcset=\"");
    t.append(set.as_str());
    t.append("\" sizes=\"");
    t.append(hint(max));
    t.append("\" alt=\"A file named ");
    t.append(n);
    t.append("\">");
    t
}

} // verus!
