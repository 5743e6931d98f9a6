//! Text fragments shared by both decoration policies, as spec functions and
//! small verified builders.

use vstd::prelude::*;

verus! {

/// The decimal digit character for `d < 10`.
pub open spec fn digit_char(d: nat) -> char {
    if d == 0 { '0' }
    else if d == 1 { '1' }
    else if d == 2 { '2' }
    else if d == 3 { '3' }
    else if d == 4 { '4' }
    else if d == 5 { '5' }
    else if d == 6 { '6' }
    else if d == 7 { '7' }
    else if d == 8 { '8' }
    else { '9' }
}

/// The decimal representation of a natural number, without leading zeros.
pub open spec fn decimal(n: nat) -> Seq<char>
    decreases n,
{
    if n < 10 {
        seq![digit_char(n)]
    } else {
        decimal(n / 10).push(digit_char(n % 10))
    }
}

/// The decimal representation of an integer, with a leading `-` when negative.
pub open spec fn signed_decimal(i: int) -> Seq<char> {
    if i < 0 {
        seq!['-'] + decimal((-i) as nat)
    } else {
        decimal(i as nat)
    }
}

/// `n` copies of `#`.
pub open spec fn hashes(n: nat) -> Seq<char> {
    Seq::new(n, |_i: int| '#')
}

/// Heading prefix: `level` hashes and one space.
pub open spec fn header_text(level: nat) -> Seq<char> {
    hashes(level).push(' ')
}

/// Ordered list item prefix: the index, a dot and a space.
pub open spec fn ordered_item_text(i: int) -> Seq<char> {
    signed_decimal(i) + seq!['.', ' ']
}

/// Rich policy: text emitted after a link's contents.
pub open spec fn rich_link_close(target: Seq<char>) -> Seq<char> {
    seq![']', '('] + target + seq![')']
}

/// Plain policy: text emitted after a link's contents.
pub open spec fn plain_link_close(target: Seq<char>) -> Seq<char> {
    seq![' ', '('] + target + seq![')']
}

/// Rich policy: text emitted for an image.
pub open spec fn rich_image(src: Seq<char>, title: Seq<char>) -> Seq<char> {
    seq!['['] + title + seq![']', '('] + src + seq![')']
}

/// Plain policy: text emitted for an image.
pub open spec fn plain_image(src: Seq<char>, title: Seq<char>) -> Seq<char> {
    seq![' '] + title + seq![' ', '('] + src + seq![')']
}

/// Builds `open + middle + close` where `open` and `close` are literals.
pub fn enclose(open: &str, middle: &str, close: &str) -> (r: String)
    ensures
        r@ == open@ + middle@ + close@,
{
    let mut out = String::from_str(open);
    out.append(middle);
    out.append(close);
    out
}

fn digit_str(d: u64) -> (r: &'static str)
    requires
        d < 10,
    ensures
        r@ == seq![digit_char(d as nat)],
{
    proof {
        reveal_strlit("0");
        reveal_strlit("1");
        reveal_strlit("2");
        reveal_strlit("3");
        reveal_strlit("4");
        reveal_strlit("5");
        reveal_strlit("6");
        reveal_strlit("7");
        reveal_strlit("8");
        reveal_strlit("9");
    }
    if d == 0 { "0" }
    else if d == 1 { "1" }
    else if d == 2 { "2" }
    else if d == 3 { "3" }
    else if d == 4 { "4" }
    else if d == 5 { "5" }
    else if d == 6 { "6" }
    else if d == 7 { "7" }
    else if d == 8 { "8" }
    else { "9" }
}

/// Appends the decimal digits of `n` to `out`.
pub fn push_decimal(n: u64, out: &mut String)
    ensures
        final(out)@ == old(out)@ + decimal(n as nat),
    decreases n,
{
    if n >= 10 {
        push_decimal(n / 10, out);
    }
    out.append(digit_str(n % 10));
    proof {
        if n >= 10 {
            assert(old(out)@ + decimal(n as nat) =~= old(out)@ + decimal((n / 10) as nat) + seq![digit_char((n % 10) as nat)]);
        } else {
            assert(decimal(n as nat) =~= seq![digit_char((n % 10) as nat)]);
        }
    }
}

/// Heading prefix for both policies: `level` hashes followed by one space.
pub fn header_string(level: usize) -> (r: String)
    ensures
        r@ == header_text(level as nat),
{
    let mut out = String::new();
    let mut k: usize = 0;
    proof {
        reveal_strlit("#");
        reveal_strlit(" ");
    }
    while k < level
        invariant
            k <= level,
            out@ == hashes(k as nat),
        decreases level - k,
    {
        proof {
            reveal_strlit("#");
        }
        out.append("#");
        k = k + 1;
        assert(out@ =~= hashes(k as nat));
    }
    out.append(" ");
    assert(out@ =~= header_text(level as nat));
    out
}

/// Ordered list item prefix for both policies: `"{i}. "`.
pub fn ordered_item_string(i: i64) -> (r: String)
    ensures
        r@ == ordered_item_text(i as int),
{
    let mut out = String::new();
    proof {
        reveal_strlit("-");
        reveal_strlit(". ");
    }
    if i < 0 {
        out.append("-");
        let mag: u64 = if i == i64::MIN { 9223372036854775808u64 } else { (-i) as u64 };
        push_decimal(mag, &mut out);
    } else {
        push_decimal(i as u64, &mut out);
    }
    out.append(". ");
    assert(out@ =~= ordered_item_text(i as int));
    out
}

} // verus!
