//! The names given to generated files: `{width}w.{ext}`, `legacy.{ext}` and
//! the markup file.

use vstd::prelude::*;

verus! {

/// The decimal digits, in order of value.
pub open spec fn digit_chars() -> Seq<char> {
    seq!['0', '1', '2', '3', '4', '5', '6', '7', '8', '9']
}

/// `n` written in decimal, without leading zeros.
pub open spec fn decimal(n: nat) -> Seq<char>
    decreases n,
{
    if n < 10 {
        seq![digit_chars()[n as int]]
    } else {
        decimal(n / 10) + seq![digit_chars()[(n % 10) as int]]
    }
}

fn digit_str(d: u32) -> (r: &'static str)
    requires
        d < 10,
    ensures
        r@ == seq![digit_chars()[d as int]],
{
    let r = if d == 0 {
        "0"
    } else if d == 1 {
        "1"
    } else if d == 2 {
        "2"
    } else if d == 3 {
        "3"
    } else if d == 4 {
        "4"
    } else if d == 5 {
        "5"
    } else if d == 6 {
        "6"
    } else if d == 7 {
        "7"
    } else if d == 8 {
        "8"
    } else {
        "9"
    };
    proof {
        reveal_strlit("0");
        reveal_strlit("1");
        reveal_strlit("2");
        reveal_strlit("3");
        reveal_strlit("4");
        reveal_strlit("5");
        reveal_strlit("6");
        reveal_strlit("7");
        reveal_strlit("8");
        reveal_strlit("9");
        assert(r@ =~= seq![digit_chars()[d as int]]);
    }
    r
}

/// Append `n`, written in decimal, to `s`.
pub fn push_decimal(s: &mut String, n: u32)
    ensures
        final(s)@ == old(s)@ + decimal(n as nat),
    decreases n,
{
    if n >= 10 {
        push_decimal(s, n / 10);
    }
    s.append(digit_str(n % 10));
    assert(decimal(n as nat) == if n < 10 {
        seq![digit_chars()[n as int]]
    } else {
        decimal((n / 10) as nat) + seq![digit_chars()[(n % 10) as int]]
    });
    if n >= 10 {
        assert(final(s)@ =~= old(s)@ + decimal(n as nat));
    }
}

/// Decimal text is made of digits alone.
pub proof fn lemma_decimal_digits(n: nat)
    ensures
        forall|k: int| 0 <= k < decimal(n).len() ==> digit_chars().contains(#[trigger] decimal(n)[k]),
    decreases n,
{
    if n < 10 {
        assert(decimal(n)[0] == digit_chars()[n as int]);
    } else {
        lemma_decimal_digits(n / 10);
        let d = decimal(n);
        assert forall|k: int| 0 <= k < d.len() implies digit_chars().contains(#[trigger] d[k]) by {
            if k < decimal(n / 10).len() {
                assert(d[k] == decimal(n / 10)[k]);
            } else {
                assert(d[k] == digit_chars()[(n % 10) as int]);
            }
        }
    }
}

/// The file name of the variant `w` pixels wide.
pub open spec fn width_label(w: u32, ext: Seq<char>) -> Seq<char> {
    decimal(w as nat) + "w."@ + ext
}

/// The file name of the fallback variant.
pub open spec fn legacy_label(ext: Seq<char>) -> Seq<char> {
    "legacy."@ + ext
}

/// `{w}w.{ext}`: the file name of the variant `w` pixels wide.
pub fn width_file(w: u32, ext: &str) -> (r: String)
    ensures
        r@ == width_label(w, ext@),
{
    let mut r = String::new();
    push_decimal(&mut r, w);
    r.append("w.");
    r.append(ext);
    assert(r@ =~= width_label(w, ext@));
    r
}

/// `legacy.{ext}`: the file name of the fallback variant.
pub fn legacy_file(ext: &str) -> (r: String)
    ensures
        r@ == legacy_label(ext@),
{
    let mut r = String::from_str("legacy.");
    r.append(ext);
    r
}

/// The name of the file that holds an image's markup.
pub fn tag_file() -> (r: &'static str)
    ensures
        r@ == "srcset.txt"@,
{
    "srcset.txt"
}

} // verus!
