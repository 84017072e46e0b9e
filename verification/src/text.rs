//! Text helpers: character pushes, decimal rendering, ASCII case folding.

use vstd::prelude::*;

verus! {

/// Appends one character to a string (`String::push`).
#[verifier::external_body]
pub(crate) fn push_char(s: &mut String, c: char)
    ensures
        final(s)@ == old(s)@.push(c),
{
    s.push(c);
}

/// The decimal digit character for `d` (`d < 10`).
pub open spec fn digit_char(d: nat) -> char
    recommends
        d < 10,
{
    ((d + 48) as u8) as char
}

/// Decimal digits of `n`, most significant first, without leading zeros
/// (`"0"` for zero).
pub open spec fn decimal(n: nat) -> Seq<char>
    decreases n,
{
    if n < 10 {
        seq![digit_char(n)]
    } else {
        decimal(n / 10).push(digit_char(n % 10))
    }
}

/// `count` zero characters.
pub open spec fn zeros(count: nat) -> Seq<char>
    decreases count,
{
    if count == 0 {
        Seq::empty()
    } else {
        zeros((count - 1) as nat).push('0')
    }
}

/// Decimal digits of `n` left-padded with zeros to at least `width` characters.
pub open spec fn zero_padded(n: nat, width: nat) -> Seq<char> {
    let d = decimal(n);
    if d.len() >= width {
        d
    } else {
        zeros((width - d.len()) as nat) + d
    }
}

/// The value of a string of decimal digits.
pub open spec fn digits_value(s: Seq<char>) -> nat
    decreases s.len(),
{
    if s.len() == 0 {
        0
    } else {
        digits_value(s.drop_last()) * 10 + ((s.last() as int - 48) as nat)
    }
}

/// A number's decimal digits read back as that number.
pub proof fn lemma_decimal_value(n: nat)
    ensures
        digits_value(decimal(n)) == n,
    decreases n,
{
    let d = n % 10;
    assert(((d + 48) as u8) as int == d + 48);
    assert(digit_char(d) as int == d + 48);
    if n >= 10 {
        lemma_decimal_value(n / 10);
        assert(decimal(n).drop_last() =~= decimal(n / 10));
        assert(decimal(n).last() == digit_char(d));
        assert(digits_value(decimal(n)) == (n / 10) * 10 + d);
    } else {
        assert(decimal(n).drop_last() =~= Seq::<char>::empty());
        assert(digits_value(Seq::<char>::empty()) == 0);
        assert(decimal(n).last() == digit_char(d));
    }
}

/// Zeros in front of a digit string add nothing to its value.
pub proof fn lemma_leading_zeros_value(count: nat, d: Seq<char>)
    ensures
        digits_value(zeros(count) + d) == digits_value(d),
    decreases d.len(), count,
{
    if d.len() == 0 {
        assert(zeros(count) + d =~= zeros(count));
        if count > 0 {
            lemma_leading_zeros_value((count - 1) as nat, d);
            assert(zeros((count - 1) as nat) + d =~= zeros((count - 1) as nat));
            assert(zeros(count).drop_last() =~= zeros((count - 1) as nat));
        }
    } else {
        lemma_leading_zeros_value(count, d.drop_last());
        assert((zeros(count) + d).drop_last() =~= zeros(count) + d.drop_last());
    }
}

/// A zero-padded number reads back as that number.
pub proof fn lemma_zero_padded_value(n: nat, width: nat)
    ensures
        digits_value(zero_padded(n, width)) == n,
{
    lemma_decimal_value(n);
    let d = decimal(n);
    if d.len() < width {
        lemma_leading_zeros_value((width - d.len()) as nat, d);
    }
}

pub proof fn lemma_decimal_len_pos(n: nat)
    ensures
        decimal(n).len() >= 1,
    decreases n,
{
    if n >= 10 {
        lemma_decimal_len_pos(n / 10);
    }
}

pub proof fn lemma_zeros_len(count: nat)
    ensures
        zeros(count).len() == count,
        forall|i: int| 0 <= i < count ==> #[trigger] zeros(count)[i] == '0',
    decreases count,
{
    if count > 0 {
        lemma_zeros_len((count - 1) as nat);
    }
}

/// Appends the decimal digits of `n` to `s`.
pub fn push_decimal(s: &mut String, n: u64)
    ensures
        final(s)@ == old(s)@ + decimal(n as nat),
    decreases n,
{
    if n < 10 {
        push_char(s, ((n as u8) + 48) as char);
    } else {
        push_decimal(s, n / 10);
        let d = (n % 10) as u8;
        push_char(s, (d + 48) as char);
        proof {
            assert(old(s)@ + decimal((n / 10) as nat) + seq![digit_char((n % 10) as nat)]
                =~= old(s)@ + decimal(n as nat));
        }
    }
}

/// `decimal(n)` never has more characters than `n + 1`.
pub proof fn lemma_decimal_len_le(n: nat)
    ensures
        1 <= decimal(n).len() <= n + 1,
    decreases n,
{
    if n >= 10 {
        lemma_decimal_len_le(n / 10);
    }
}

/// The number of decimal digits of `n`.
pub fn decimal_len(n: u64) -> (len: u64)
    ensures
        len == decimal(n as nat).len(),
    decreases n,
{
    proof {
        lemma_decimal_len_le(n as nat);
    }
    if n < 10 {
        1
    } else {
        let l = decimal_len(n / 10);
        proof {
            lemma_decimal_len_le((n / 10) as nat);
        }
        l + 1
    }
}

/// Appends `n` in decimal, left-padded with zeros to at least `width` digits.
pub fn push_zero_padded(s: &mut String, n: u64, width: u64)
    ensures
        final(s)@ == old(s)@ + zero_padded(n as nat, width as nat),
{
    let len = decimal_len(n);
    let mut pad: u64 = 0;
    let ghost start = s@;
    if len < width {
        let count = width - len;
        while pad < count
            invariant
                pad <= count,
                count == width - len,
                s@ == start + zeros(pad as nat),
            decreases count - pad,
        {
            push_char(s, '0');
            pad = pad + 1;
            proof {
                assert(start + zeros((pad - 1) as nat) + seq!['0'] =~= start + zeros(pad as nat));
            }
        }
    }
    push_decimal(s, n);
    proof {
        if len < width {
            assert(s@ =~= start + (zeros((width - len) as nat) + decimal(n as nat)));
        } else {
            assert(s@ =~= start + decimal(n as nat));
        }
    }
}

/// Whether two strings hold the same characters.
pub fn str_eq(a: &str, b: &str) -> (same: bool)
    ensures
        same == (a@ == b@),
{
    let n = a.unicode_len();
    if n != b.unicode_len() {
        return false;
    }
    let mut i: usize = 0;
    while i < n
        invariant
            n == a@.len(),
            n == b@.len(),
            i <= n,
            forall|j: int| 0 <= j < i ==> a@[j] == b@[j],
        decreases n - i,
    {
        if a.get_char(i) != b.get_char(i) {
            return false;
        }
        i = i + 1;
    }
    assert(a@ =~= b@);
    true
}

/// A copy of a string slice as an owned string.
pub fn to_owned_string(s: &str) -> (r: String)
    ensures
        r@ == s@,
{
    String::from_str(s)
}

/// `items` joined with `sep` between neighbours.
pub open spec fn joined(items: Seq<Seq<char>>, sep: Seq<char>) -> Seq<char>
    decreases items.len(),
{
    if items.len() == 0 {
        Seq::empty()
    } else if items.len() == 1 {
        items[0]
    } else {
        joined(items.drop_last(), sep) + sep + items.last()
    }
}

/// Joins the strings with `sep` between neighbours.
pub fn join_strs(items: &Vec<&str>, sep: &str) -> (res: String)
    ensures
        res@ == joined(items@.map_values(|s: &str| s@), sep@),
{
    let ghost views = items@.map_values(|s: &str| s@);
    let mut res = String::new();
    let n = items.len();
    let mut i: usize = 0;
    while i < n
        invariant
            n == items@.len(),
            views == items@.map_values(|s: &str| s@),
            i <= n,
            res@ == joined(views.take(i as int), sep@),
        decreases n - i,
    {
        if i != 0 {
            res.append(sep);
        }
        res.append(items[i]);
        proof {
            assert(views.take(i + 1).drop_last() =~= views.take(i as int));
            assert(views.take(i + 1).last() == items@[i as int]@);
            if i == 0 {
                assert(res@ =~= joined(views.take(1), sep@));
            }
        }
        i = i + 1;
    }
    assert(views.take(n as int) =~= views);
    res
}

/// `a` comes no later than `b` in lexicographic order of character codes.
pub open spec fn lex_le(a: Seq<char>, b: Seq<char>) -> bool
    decreases a.len(),
{
    if a.len() == 0 {
        true
    } else if b.len() == 0 {
        false
    } else if (a[0] as u32) < (b[0] as u32) {
        true
    } else if (a[0] as u32) > (b[0] as u32) {
        false
    } else {
        lex_le(a.drop_first(), b.drop_first())
    }
}

pub proof fn lemma_lex_total(a: Seq<char>, b: Seq<char>)
    ensures
        lex_le(a, b) || lex_le(b, a),
    decreases a.len(),
{
    if a.len() > 0 && b.len() > 0 && (a[0] as u32) == (b[0] as u32) {
        lemma_lex_total(a.drop_first(), b.drop_first());
    }
}

pub proof fn lemma_lex_antisymmetric(a: Seq<char>, b: Seq<char>)
    requires
        lex_le(a, b),
        lex_le(b, a),
    ensures
        a == b,
    decreases a.len(),
{
    if a.len() > 0 && b.len() > 0 {
        lemma_lex_antisymmetric(a.drop_first(), b.drop_first());
        vstd::utf8::char_u32_cast(a[0], a[0] as u32);
        vstd::utf8::char_u32_cast(b[0], b[0] as u32);
        assert(a[0] == b[0]);
        assert(a =~= seq![a[0]] + a.drop_first());
        assert(b =~= seq![b[0]] + b.drop_first());
    }
}

pub proof fn lemma_lex_transitive(a: Seq<char>, b: Seq<char>, c: Seq<char>)
    requires
        lex_le(a, b),
        lex_le(b, c),
    ensures
        lex_le(a, c),
    decreases a.len(),
{
    if a.len() > 0 && b.len() > 0 && c.len() > 0 && (a[0] as u32) == (b[0] as u32) && (b[0] as u32) == (c[0] as u32) {
        lemma_lex_transitive(a.drop_first(), b.drop_first(), c.drop_first());
    }
}

/// Whether `a` comes no later than `b` in lexicographic order of character codes.
pub fn str_le(a: &str, b: &str) -> (le: bool)
    ensures
        le == lex_le(a@, b@),
{
    let na = a.unicode_len();
    let nb = b.unicode_len();
    let mut i: usize = 0;
    assert(a@.skip(0) =~= a@);
    assert(b@.skip(0) =~= b@);
    while i < na && i < nb
        invariant
            na == a@.len(),
            nb == b@.len(),
            i <= na,
            i <= nb,
            lex_le(a@, b@) == lex_le(a@.skip(i as int), b@.skip(i as int)),
        decreases na - i,
    {
        let ca = a.get_char(i);
        let cb = b.get_char(i);
        if (ca as u32) < (cb as u32) {
            return true;
        }
        if (ca as u32) > (cb as u32) {
            return false;
        }
        proof {
            assert(a@.skip(i as int).drop_first() =~= a@.skip(i + 1));
            assert(b@.skip(i as int).drop_first() =~= b@.skip(i + 1));
        }
        i = i + 1;
    }
    i == na
}

/// The character with ASCII capital letters made small.
pub open spec fn ascii_lower(c: char) -> char {
    if 'A' <= c && c <= 'Z' {
        ((c as u32) + 32) as char
    } else {
        c
    }
}

/// The text with ASCII capital letters made small.
pub open spec fn ascii_lowercase(s: Seq<char>) -> Seq<char> {
    s.map_values(|c: char| ascii_lower(c))
}

/// Whether `s`, with ASCII capitals made small, equals `lower`.
pub fn eq_ignore_ascii_case(s: &str, lower: &str) -> (same: bool)
    ensures
        same == (ascii_lowercase(s@) == lower@),
{
    let n = s.unicode_len();
    if n != lower.unicode_len() {
        return false;
    }
    let mut i: usize = 0;
    while i < n
        invariant
            n == s@.len(),
            n == lower@.len(),
            i <= n,
            forall|j: int| 0 <= j < i ==> ascii_lower(s@[j]) == lower@[j],
        decreases n - i,
    {
        let c = s.get_char(i);
        let lc = if 'A' <= c && c <= 'Z' { ((c as u32) + 32) as u8 as char } else { c };
        if lc != lower.get_char(i) {
            assert(ascii_lowercase(s@)[i as int] != lower@[i as int]);
            return false;
        }
        i = i + 1;
    }
    assert(ascii_lowercase(s@) =~= lower@);
    true
}

} // verus!
