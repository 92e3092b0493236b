//! Character-level helpers shared by the parsers and the SQL builders.

use vstd::prelude::*;
use vstd::string::*;

verus! {

/// The characters of `s`, in order.
pub(crate) fn text_chars(s: &str) -> (v: Vec<char>)
    ensures
        v@ == s@,
{
    let mut v: Vec<char> = Vec::new();
    for c in it: s.chars()
        invariant
            v@ == it.seq().take(it.index() as int),
            it.seq() == s@,
    {
        v.push(c);
    }
    v
}

/// `String::push`: appends the character at the end of the string.
#[verifier::external_body]
pub(crate) fn push_char(s: &mut String, c: char)
    ensures
        final(s)@ == old(s)@.push(c),
{
    s.push(c)
}

/// Appends every character of `t` to `s`.
pub(crate) fn push_text(s: &mut String, t: &str)
    ensures
        final(s)@ == old(s)@ + t@,
{
    s.append(t);
}

/// Appends the characters `cs[from..to]` to `s`.
pub(crate) fn push_chars(s: &mut String, cs: &Vec<char>, from: usize, to: usize)
    requires
        from <= to <= cs@.len(),
    ensures
        final(s)@ == old(s)@ + cs@.subrange(from as int, to as int),
{
    let ghost start = s@;
    let mut i = from;
    while i < to
        invariant
            from <= i <= to <= cs@.len(),
            s@ == start + cs@.subrange(from as int, i as int),
        decreases to - i,
    {
        push_char(s, cs[i]);
        i = i + 1;
        assert(s@ =~= start + cs@.subrange(from as int, i as int));
    }
}

/// A string holding the characters `cs[from..to]`.
pub(crate) fn string_from_chars(cs: &Vec<char>, from: usize, to: usize) -> (s: String)
    requires
        from <= to <= cs@.len(),
    ensures
        s@ == cs@.subrange(from as int, to as int),
{
    let mut s = String::new();
    push_chars(&mut s, cs, from, to);
    assert(Seq::<char>::empty() + cs@.subrange(from as int, to as int) =~= cs@.subrange(
        from as int,
        to as int,
    ));
    s
}

/// The character of a digit value below 16: `0`–`9`, then `a`–`f`.
pub open spec fn digit_char(d: nat) -> char {
    if d < 10 {
        (48 + d) as char
    } else {
        (87 + d) as char
    }
}

/// The digits of `n` in the given radix, most significant first, without
/// leading zeros (`0` is written as a single digit).
pub open spec fn radix_digits(n: nat, radix: nat) -> Seq<char>
    decreases n,
{
    if radix < 2 || n < radix {
        seq![digit_char(n)]
    } else {
        proof {
            assert(n / radix < n) by (nonlinear_arith)
                requires
                    radix >= 2,
                    n >= radix,
            ;
        }
        radix_digits(n / radix, radix).push(digit_char(n % radix))
    }
}

/// The decimal notation of an integer, with a leading `-` when negative.
pub open spec fn int_decimal(v: int) -> Seq<char> {
    if v < 0 {
        seq!['-'] + radix_digits((-v) as nat, 10)
    } else {
        radix_digits(v as nat, 10)
    }
}

fn digit(d: u64) -> (c: char)
    requires
        d < 16,
    ensures
        c == digit_char(d as nat),
{
    if d < 10 {
        ((48 + d) as u8) as char
    } else {
        ((87 + d) as u8) as char
    }
}

/// Appends the digits of `n` in `radix` (between 2 and 16) to `s`.
pub(crate) fn push_radix(s: &mut String, n: u64, radix: u64)
    requires
        2 <= radix <= 16,
    ensures
        final(s)@ == old(s)@ + radix_digits(n as nat, radix as nat),
{
    let mut rev: Vec<char> = Vec::new();
    let mut m = n;
    let ghost mut tail: Seq<char> = Seq::empty();
    loop
        invariant_except_break
            radix_digits(n as nat, radix as nat) == radix_digits(m as nat, radix as nat) + tail,
            tail == rev@.reverse(),
        invariant
            2 <= radix <= 16,
        ensures
            radix_digits(n as nat, radix as nat) == rev@.reverse(),
        decreases m,
    {
        let d = m % radix;
        let c = digit(d);
        rev.push(c);
        if m < radix {
            proof {
                assert(m % radix == m) by (nonlinear_arith)
                    requires
                        m < radix,
                ;
                assert(rev@.reverse() =~= seq![c] + tail);
            }
            break;
        }
        proof {
            assert(rev@.reverse() =~= seq![c] + tail);
            assert(radix_digits(m as nat, radix as nat) == radix_digits(
                (m / radix) as nat,
                radix as nat,
            ).push(c));
            assert(radix_digits((m / radix) as nat, radix as nat).push(c) + tail =~= radix_digits(
                (m / radix) as nat,
                radix as nat,
            ) + (seq![c] + tail));
            tail = seq![c] + tail;
        }
        m = m / radix;
    }
    let ghost start = s@;
    let mut k = rev.len();
    while k > 0
        invariant
            k <= rev@.len(),
            s@ == start + rev@.reverse().take(rev@.len() - k),
        decreases k,
    {
        k = k - 1;
        push_char(s, rev[k]);
        assert(rev@.reverse().take(rev@.len() - k) =~= rev@.reverse().take(
            rev@.len() - k - 1,
        ).push(rev@[k as int]));
    }
    assert(rev@.reverse().take(rev@.len() as int) =~= rev@.reverse());
}

/// Appends the decimal notation of `v` to `s`.
pub(crate) fn push_i64_decimal(s: &mut String, v: i64)
    ensures
        final(s)@ == old(s)@ + int_decimal(v as int),
{
    if v < 0 {
        push_char(s, '-');
        let magnitude: u64 = if v == i64::MIN {
            9_223_372_036_854_775_808u64
        } else {
            (-v) as u64
        };
        let ghost mid = s@;
        push_radix(s, magnitude, 10);
        assert(s@ =~= old(s)@ + int_decimal(v as int));
    } else {
        push_radix(s, v as u64, 10);
    }
}

} // verus!
