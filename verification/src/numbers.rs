use vstd::prelude::*;
use vstd::string::*;

use crate::strings::{push_char, string_from_chars};

verus! {

broadcast use vstd::string::group_string_axioms;

/// The decimal digit for `d` (`0` to `9`).
pub open spec fn digit_char(d: nat) -> char {
    (48 + d) as char
}

/// The decimal digits of `n`, most significant first, without leading zeros.
pub open spec fn decimal(n: nat) -> Seq<char>
    decreases n,
{
    if n < 10 {
        seq![digit_char(n)]
    } else {
        decimal(n / 10).push(digit_char(n % 10))
    }
}

/// The decimal form of the integer `n`, with a `-` in front when negative.
pub open spec fn signed_decimal(n: int) -> Seq<char> {
    if n < 0 { seq!['-'] + decimal((-n) as nat) } else { decimal(n as nat) }
}

fn digit(d: u64) -> (c: char)
    requires
        d < 10,
    ensures
        c == digit_char(d as nat),
{
    if d == 0 { '0' } else if d == 1 { '1' } else if d == 2 { '2' } else if d == 3 { '3' } else if d == 4 { '4' }
    else if d == 5 { '5' } else if d == 6 { '6' } else if d == 7 { '7' } else if d == 8 { '8' } else { '9' }
}

/// The decimal digits of `n`.
pub fn decimal_digits(n: u64) -> (r: Vec<char>)
    ensures
        r@ == decimal(n as nat),
    decreases n,
{
    if n < 10 {
        let mut v: Vec<char> = Vec::new();
        v.push(digit(n));
        v
    } else {
        let mut v = decimal_digits(n / 10);
        v.push(digit(n % 10));
        v
    }
}

/// The decimal form of `n`, as `n.to_string()` writes it.
pub fn usize_to_string(n: usize) -> (r: String)
    ensures
        r@ == decimal(n as nat),
{
    let d = decimal_digits(n as u64);
    string_from_chars(&d)
}

/// The decimal form of `n`, as `n.to_string()` writes it.
pub fn i32_to_string(n: i32) -> (r: String)
    ensures
        r@ == signed_decimal(n as int),
{
    if n < 0 {
        let m = (0i64 - n as i64) as u64;
        let d = decimal_digits(m);
        let mut s = String::new();
        push_char(&mut s, '-');
        s.append(string_from_chars(&d).as_str());
        s
    } else {
        string_from_chars(&decimal_digits(n as u64))
    }
}

/// `d` with a dot between each group of three digits, counted from the right.
pub open spec fn group_thousands(d: Seq<char>) -> Seq<char>
    decreases d.len(),
{
    if d.len() <= 3 {
        d
    } else {
        group_thousands(d.subrange(0, d.len() - 3)).push('.') + d.subrange(d.len() - 3, d.len() as int)
    }
}

/// `s` without its dots.
pub open spec fn without_dots(s: Seq<char>) -> Seq<char>
    decreases s.len(),
{
    if s.len() == 0 {
        s
    } else if s.last() == '.' {
        without_dots(s.drop_last())
    } else {
        without_dots(s.drop_last()).push(s.last())
    }
}

/// Writes `n` with a dot as thousands separator, as in `1.234.567`.
pub fn format_number(n: usize) -> (r: String)
    ensures
        r@ == group_thousands(decimal(n as nat)),
{
    let d = decimal_digits(n as u64);
    let len = d.len();
    let first = if len % 3 == 0 { 3 } else { len % 3 };
    let mut out: Vec<char> = Vec::new();
    let mut i: usize = 0;
    proof { lemma_decimal_nonempty(n as nat); }
    while i < first
        invariant
            i <= first <= len,
            len == d@.len(),
            out@ == d@.subrange(0, i as int),
        decreases first - i,
    {
        out.push(d[i]);
        i = i + 1;
        proof { assert(out@ =~= d@.subrange(0, i as int)); }
    }
    proof {
        lemma_group_short(d@.subrange(0, first as int));
    }
    while i < len
        invariant
            first <= i <= len,
            len == d@.len(),
            (len - i) % 3 == 0,
            first >= 1,
            out@ == group_thousands(d@.subrange(0, i as int)),
        decreases len - i,
    {
        let ghost before = out@;
        out.push('.');
        out.push(d[i]);
        out.push(d[i + 1]);
        out.push(d[i + 2]);
        proof {
            let t = d@.subrange(0, i + 3);
            assert(t.subrange(0, t.len() - 3) =~= d@.subrange(0, i as int));
            assert(t.subrange(t.len() - 3, t.len() as int) =~= d@.subrange(i as int, i + 3));
            assert(out@ =~= before.push('.') + d@.subrange(i as int, i + 3));
        }
        i = i + 3;
    }
    proof { assert(d@.subrange(0, len as int) =~= d@); }
    string_from_chars(&out)
}

proof fn lemma_decimal_nonempty(n: nat)
    ensures
        decimal(n).len() >= 1,
    decreases n,
{
    if n >= 10 {
        lemma_decimal_nonempty(n / 10);
    }
}

proof fn lemma_group_short(d: Seq<char>)
    requires
        d.len() <= 3,
    ensures
        group_thousands(d) == d,
{
}

proof fn lemma_decimal_digits(n: nat)
    ensures
        forall|i: int| 0 <= i < decimal(n).len() ==> '0' <= #[trigger] decimal(n)[i] <= '9',
    decreases n,
{
    if n >= 10 {
        lemma_decimal_digits(n / 10);
        let prev = decimal(n / 10);
        assert forall|i: int| 0 <= i < decimal(n).len() implies '0' <= #[trigger] decimal(n)[i] <= '9' by {
            if i < prev.len() {
                assert(decimal(n)[i] == prev[i]);
            }
        }
    }
}

proof fn lemma_without_dots_concat(a: Seq<char>, b: Seq<char>)
    ensures
        without_dots(a + b) == without_dots(a) + without_dots(b),
    decreases b.len(),
{
    if b.len() == 0 {
        assert(a + b =~= a);
        assert(without_dots(a) + without_dots(b) =~= without_dots(a));
    } else {
        lemma_without_dots_concat(a, b.drop_last());
        assert((a + b).drop_last() =~= a + b.drop_last());
        if b.last() == '.' {
        } else {
            assert(without_dots(a) + without_dots(b.drop_last()).push(b.last()) =~= (without_dots(a) + without_dots(b.drop_last())).push(b.last()));
        }
    }
}

proof fn lemma_without_dots_digits(d: Seq<char>)
    requires
        forall|i: int| 0 <= i < d.len() ==> d[i] != '.',
    ensures
        without_dots(d) == d,
    decreases d.len(),
{
    if d.len() > 0 {
        lemma_without_dots_digits(d.drop_last());
        assert(d.drop_last().push(d.last()) =~= d);
    }
}

proof fn lemma_group_without_dots(d: Seq<char>)
    requires
        forall|i: int| 0 <= i < d.len() ==> d[i] != '.',
    ensures
        without_dots(group_thousands(d)) == d,
    decreases d.len(),
{
    if d.len() <= 3 {
        lemma_without_dots_digits(d);
    } else {
        let head = d.subrange(0, d.len() - 3);
        let tail = d.subrange(d.len() - 3, d.len() as int);
        lemma_group_without_dots(head);
        lemma_without_dots_concat(group_thousands(head).push('.'), tail);
        lemma_without_dots_digits(tail);
        assert(group_thousands(head).push('.').drop_last() =~= group_thousands(head));
        assert(without_dots(group_thousands(head).push('.')) == without_dots(group_thousands(head)));
        assert(head + tail =~= d);
    }
}

/// Taking the dots out of a formatted number gives back its decimal digits.
pub proof fn lemma_format_number_digits(n: nat)
    ensures
        without_dots(group_thousands(decimal(n))) == decimal(n),
{
    lemma_decimal_digits(n);
    lemma_group_without_dots(decimal(n));
}

/// `s` with `'0'` put in front until it is `width` characters long.
pub open spec fn pad_zeros(s: Seq<char>, width: nat) -> Seq<char> {
    if s.len() >= width { s } else { Seq::new((width - s.len()) as nat, |_i: int| '0') + s }
}

/// `n` in decimal, padded on the left with zeros to `width` characters, the
/// zeros going before the sign (`format!("{:0>width$}", n)`).
pub open spec fn fill_zeros_spec(n: int, width: nat) -> Seq<char> {
    pad_zeros(signed_decimal(n), width)
}

/// `n` in decimal, at least `width` characters long, zeros after the sign
/// (`format!("{:0width$}", n)`).
pub open spec fn zero_pad_spec(n: int, width: nat) -> Seq<char> {
    if n < 0 {
        seq!['-'] + pad_zeros(decimal((-n) as nat), if width >= 1 { (width - 1) as nat } else { 0 })
    } else {
        pad_zeros(decimal(n as nat), width)
    }
}

fn pad_zeros_exec(s: &str, width: usize) -> (r: String)
    ensures
        r@ == pad_zeros(s@, width as nat),
{
    let len = s.unicode_len();
    if len >= width {
        return s.to_string();
    }
    let mut out = String::new();
    let mut i: usize = 0;
    while i < width - len
        invariant
            len < width,
            i <= width - len,
            out@ == Seq::new(i as nat, |_i: int| '0'),
        decreases width - len - i,
    {
        push_char(&mut out, '0');
        i = i + 1;
        proof { assert(out@ =~= Seq::new(i as nat, |_i: int| '0')); }
    }
    out.append(s);
    out
}

/// `n` padded on the left with zeros to `width` characters
/// (`format!("{:0>width$}", n)`).
pub fn fill_zeros(n: i32, width: usize) -> (r: String)
    ensures
        r@ == fill_zeros_spec(n as int, width as nat),
{
    let s = i32_to_string(n);
    pad_zeros_exec(s.as_str(), width)
}

/// `n` zero-padded to `width` characters, sign first (`format!("{:0width$}", n)`).
pub fn zero_pad(n: i32, width: usize) -> (r: String)
    ensures
        r@ == zero_pad_spec(n as int, width as nat),
{
    if n < 0 {
        let m = (0i64 - n as i64) as u64;
        let digits = string_from_chars(&decimal_digits(m));
        let padded = pad_zeros_exec(digits.as_str(), if width >= 1 { width - 1 } else { 0 });
        let mut s = String::new();
        push_char(&mut s, '-');
        s.append(padded.as_str());
        s
    } else {
        let digits = string_from_chars(&decimal_digits(n as u64));
        pad_zeros_exec(digits.as_str(), width)
    }
}

/// The decimal form of a positive number does not start with `0`.
proof fn lemma_decimal_leading(n: nat)
    requires
        n > 0,
    ensures
        decimal(n)[0] != '0',
    decreases n,
{
    if n >= 10 {
        lemma_decimal_leading(n / 10);
        lemma_decimal_nonempty(n / 10);
        assert(decimal(n)[0] == decimal(n / 10)[0]);
    }
}

proof fn lemma_digit_char_injective(d: nat, e: nat)
    requires
        d < 10,
        e < 10,
        digit_char(d) == digit_char(e),
    ensures
        d == e,
{
    assert((digit_char(d) as u32) as int == 48 + d);
    assert((digit_char(e) as u32) as int == 48 + e);
}

/// Different numbers have different decimal forms.
pub proof fn lemma_decimal_injective(a: nat, b: nat)
    requires
        decimal(a) == decimal(b),
    ensures
        a == b,
    decreases a,
{
    lemma_decimal_nonempty(a);
    lemma_decimal_nonempty(b);
    if a >= 10 {
        lemma_decimal_nonempty(a / 10);
    }
    if b >= 10 {
        lemma_decimal_nonempty(b / 10);
    }
    if a >= 10 && b >= 10 {
        assert(decimal(a / 10) =~= decimal(a).drop_last());
        assert(decimal(b / 10) =~= decimal(b).drop_last());
        lemma_decimal_injective(a / 10, b / 10);
        assert(decimal(a) == decimal(a / 10).push(digit_char(a % 10)));
        assert(decimal(b) == decimal(b / 10).push(digit_char(b % 10)));
        assert(decimal(a).last() == digit_char(a % 10));
        assert(decimal(b).last() == digit_char(b % 10));
        lemma_digit_char_injective(a % 10, b % 10);
        assert(a % 10 == b % 10);
        assert(a == 10 * (a / 10) + a % 10);
        assert(b == 10 * (b / 10) + b % 10);
    } else if a < 10 && b < 10 {
        assert(decimal(a)[0] == digit_char(a));
        assert(decimal(b)[0] == digit_char(b));
        lemma_digit_char_injective(a, b);
    }
}

/// Zero-padding to one width keeps different numbers apart.
pub proof fn lemma_pad_decimal_injective(a: nat, b: nat, width: nat)
    requires
        pad_zeros(decimal(a), width) == pad_zeros(decimal(b), width),
    ensures
        a == b,
{
    let s = decimal(a);
    let t = decimal(b);
    lemma_decimal_nonempty(a);
    lemma_decimal_nonempty(b);
    let ps = pad_zeros(s, width);
    let pt = pad_zeros(t, width);
    if s.len() == t.len() {
        if s.len() < width {
            let z = (width - s.len()) as int;
            assert(s =~= ps.subrange(z, ps.len() as int));
            assert(t =~= pt.subrange(z, pt.len() as int));
        }
        lemma_decimal_injective(a, b);
    } else if s.len() < t.len() {
        // the first digit of `t` faces a padding zero of `s`
        let z = if t.len() < width { (width - t.len()) as int } else { 0 };
        assert(s.len() < width);
        assert(ps[z] == '0');
        assert(pt[z] == t[0]);
        if b > 0 { lemma_decimal_leading(b); }
        assert(b == 0);
        assert(t.len() == 1);
    } else {
        let z = if s.len() < width { (width - s.len()) as int } else { 0 };
        assert(t.len() < width);
        assert(pt[z] == '0');
        assert(ps[z] == s[0]);
        if a > 0 { lemma_decimal_leading(a); }
        assert(a == 0);
        assert(s.len() == 1);
    }
}

} // verus!
