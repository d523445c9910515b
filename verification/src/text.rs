//! Building text: characters appended to a `String`, and numbers written in
//! decimal.

use vstd::prelude::*;

verus! {

/// `String::push` of the standard library: the string's characters after the
/// call are those before it followed by `ch`.
pub assume_specification[ String::push ](s: &mut String, ch: char)
    ensures
        final(s)@ == old(s)@.push(ch),
;

/// The character that stands for a digit below ten.
pub open spec fn digit_char(d: nat) -> char {
    if d == 0 {
        '0'
    } else if d == 1 {
        '1'
    } else if d == 2 {
        '2'
    } else if d == 3 {
        '3'
    } else if d == 4 {
        '4'
    } else if d == 5 {
        '5'
    } else if d == 6 {
        '6'
    } else if d == 7 {
        '7'
    } else if d == 8 {
        '8'
    } else {
        '9'
    }
}

/// A number written in decimal, without sign or leading zeros.
pub open spec fn decimal(n: nat) -> Seq<char>
    decreases n,
{
    if n < 10 {
        seq![digit_char(n)]
    } else {
        decimal(n / 10).push(digit_char(n % 10))
    }
}

/// A number written in decimal and filled with zeros on the left up to
/// `width` characters.
pub open spec fn padded_decimal(n: nat, width: nat) -> Seq<char> {
    let digits = decimal(n);
    if digits.len() >= width {
        digits
    } else {
        Seq::new((width - digits.len()) as nat, |i: int| '0') + digits
    }
}

pub fn digit_to_char(d: usize) -> (c: char)
    requires
        d < 10,
    ensures
        c == digit_char(d as nat),
{
    if d == 0 {
        '0'
    } else if d == 1 {
        '1'
    } else if d == 2 {
        '2'
    } else if d == 3 {
        '3'
    } else if d == 4 {
        '4'
    } else if d == 5 {
        '5'
    } else if d == 6 {
        '6'
    } else if d == 7 {
        '7'
    } else if d == 8 {
        '8'
    } else {
        '9'
    }
}

/// Appends `n` in decimal.
pub fn push_decimal(s: &mut String, n: usize)
    ensures
        final(s)@ == old(s)@ + decimal(n as nat),
    decreases n,
{
    if n >= 10 {
        push_decimal(s, n / 10);
    }
    s.push(digit_to_char(n % 10));
}

/// The number of characters that `n` takes in decimal.
pub fn decimal_len(n: usize) -> (len: usize)
    ensures
        len == decimal(n as nat).len(),
        1 <= len <= 20,
    decreases n,
{
    if n >= 10 {
        let rest = decimal_len(n / 10);
        proof {
            lemma_decimal_len_bound(n as nat);
        }
        rest + 1
    } else {
        1
    }
}

/// A number below ten to the power `k` takes at most `k` characters.
pub proof fn lemma_decimal_len_bound(n: nat)
    ensures
        1 <= decimal(n).len(),
        n <= usize::MAX ==> decimal(n).len() <= 20,
    decreases n,
{
    if n <= usize::MAX {
        assert(pow10(20) == 100_000_000_000_000_000_000nat) by {
            reveal_with_fuel(pow10, 21);
        }
        lemma_decimal_len_steps(n, 20);
    } else {
        lemma_decimal_len_positive(n);
    }
}

proof fn lemma_decimal_len_positive(n: nat)
    ensures
        1 <= decimal(n).len(),
    decreases n,
{
    if n >= 10 {
        lemma_decimal_len_positive(n / 10);
    }
}

proof fn lemma_decimal_len_steps(n: nat, k: nat)
    requires
        k >= 1,
        n < pow10(k),
    ensures
        1 <= decimal(n).len() <= k,
    decreases n,
{
    if n >= 10 {
        assert(k >= 2) by {
            reveal_with_fuel(pow10, 2);
        }
        assert(pow10(k) == 10 * pow10((k - 1) as nat));
        lemma_decimal_len_steps(n / 10, (k - 1) as nat);
    }
}

/// Ten to the power `k`.
pub open spec fn pow10(k: nat) -> nat
    decreases k,
{
    if k == 0 {
        1
    } else {
        10 * pow10((k - 1) as nat)
    }
}

/// Appends `n` in decimal, filled with zeros on the left up to `width`
/// characters.
pub fn push_padded_decimal(s: &mut String, n: usize, width: usize)
    ensures
        final(s)@ == old(s)@ + padded_decimal(n as nat, width as nat),
{
    let len = decimal_len(n);
    let ghost start = s@;
    let mut i: usize = len;
    while i < width
        invariant
            len <= i,
            i <= width || i == len,
            s@ == start + Seq::new((i - len) as nat, |j: int| '0'),
        decreases width - i,
    {
        s.push('0');
        i = i + 1;
        assert(s@ =~= start + Seq::new((i - len) as nat, |j: int| '0'));
    }
    let ghost zeros = s@;
    push_decimal(s, n);
    assert(s@ =~= start + padded_decimal(n as nat, width as nat));
}

/// The characters of a piece of text.
pub fn chars_of(text: &str) -> (chars: Vec<char>)
    ensures
        chars@ == text@,
{
    let mut chars: Vec<char> = Vec::new();
    for c in iter: text.chars()
        invariant
            iter.seq() == text@,
            chars@ == iter.seq().take(iter.index() as int),
    {
        chars.push(c);
        assert(chars@ =~= iter.seq().take(iter.index() + 1));
    }
    assert(chars@ =~= text@);
    chars
}

/// Whether `a` comes after `b` from place `from` on, in the order of a
/// dictionary over the characters' code points: the first place where the
/// two differ decides, and where one ends there the longer comes after.
pub open spec fn comes_after_from(a: Seq<char>, b: Seq<char>, from: int) -> bool
    decreases a.len() - from,
{
    if from < 0 || from >= a.len() {
        false
    } else if from >= b.len() {
        true
    } else if a[from] != b[from] {
        a[from] > b[from]
    } else {
        comes_after_from(a, b, from + 1)
    }
}

/// Whether `a` comes after `b` in the order of a dictionary over the
/// characters' code points.
pub open spec fn comes_after(a: Seq<char>, b: Seq<char>) -> bool {
    comes_after_from(a, b, 0)
}

/// Whether `a` comes after `b` in the order of a dictionary.
pub fn text_greater(a: &str, b: &str) -> (after: bool)
    ensures
        after == comes_after(a@, b@),
{
    let x = chars_of(a);
    let y = chars_of(b);
    let mut i: usize = 0;
    while i < x.len()
        invariant
            x@ == a@,
            y@ == b@,
            i <= x@.len(),
            comes_after_from(a@, b@, i as int) == comes_after(a@, b@),
        decreases x@.len() - i,
    {
        if i >= y.len() {
            return true;
        }
        if x[i] != y[i] {
            return x[i] > y[i];
        }
        i = i + 1;
    }
    false
}

/// A piece of text written `count` times in a row.
pub open spec fn repeated(text: Seq<char>, count: nat) -> Seq<char>
    decreases count,
{
    if count == 0 {
        Seq::<char>::empty()
    } else {
        repeated(text, (count - 1) as nat) + text
    }
}

/// Nothing, however often it is written, is nothing.
pub proof fn lemma_repeated_empty(count: nat)
    ensures
        repeated(Seq::<char>::empty(), count) == Seq::<char>::empty(),
    decreases count,
{
    if count > 0 {
        lemma_repeated_empty((count - 1) as nat);
        assert(Seq::<char>::empty() + Seq::<char>::empty() =~= Seq::<char>::empty());
    }
}

/// Writes a piece of text `count` times in a row.
pub fn repeat_text(text: &str, count: usize) -> (out: String)
    ensures
        out@ == repeated(text@, count as nat),
{
    let mut out = String::new();
    if text.unicode_len() == 0 {
        proof {
            assert(text@ =~= Seq::<char>::empty());
            lemma_repeated_empty(count as nat);
        }
        return out;
    }
    let mut i: usize = 0;
    while i < count
        invariant
            i <= count,
            out@ == repeated(text@, i as nat),
        decreases count - i,
    {
        out.append(text);
        i = i + 1;
    }
    out
}

} // verus!
