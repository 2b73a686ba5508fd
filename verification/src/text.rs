//! Building and taking apart text.
use vstd::prelude::*;
use vstd::string::*;

verus! {

/// The sixteen digits, lowest first.
pub open spec fn digit(d: nat) -> char {
    "0123456789abcdef"@[d as int]
}

/// The number in the given base, highest digit first, without leading zeros.
pub open spec fn numeral(n: nat, base: nat) -> Seq<char>
    decreases n,
    via numeral_shrinks
{
    if base < 2 || n < base {
        seq![digit(n)]
    } else {
        numeral(n / base, base).push(digit(n % base))
    }
}

proof fn lemma_quotient_shrinks(n: nat, base: nat)
    requires
        base >= 2,
        n >= base,
    ensures
        n / base < n,
{
    assert(n / base < n) by (nonlinear_arith)
        requires
            n >= base,
            base >= 2,
    ;
}

#[via_fn]
proof fn numeral_shrinks(n: nat, base: nat) {
    if base >= 2 && n >= base {
        lemma_quotient_shrinks(n, base);
    }
}

/// The number that the digits stand for.
pub open spec fn numeral_value(s: Seq<char>, base: nat) -> nat
    decreases s.len(),
{
    if s.len() == 0 {
        0
    } else {
        numeral_value(s.drop_last(), base) * base + digit_value(s.last())
    }
}

/// The value of a digit.
pub open spec fn digit_value(c: char) -> nat {
    if '0' <= c && c <= '9' {
        (c as nat - '0' as nat) as nat
    } else {
        (c as nat - 'a' as nat + 10) as nat
    }
}

/// Whether the character is a digit in some base up to sixteen.
pub open spec fn is_digit(c: char) -> bool {
    ('0' <= c && c <= '9') || ('a' <= c && c <= 'f')
}

proof fn lemma_digit(d: nat)
    requires
        d < 16,
    ensures
        digit_value(digit(d)) == d,
        is_digit(digit(d)),
{
    reveal_strlit("0123456789abcdef");
}

/// Numerals are made of the digits and the small letters behind them, highest first,
/// and have no leading zeros.
pub proof fn numeral_digits(n: nat, base: nat)
    requires
        2 <= base <= 16,
    ensures
        n < 10 && n < base ==> numeral(n, base) == seq![('0' as u8 + n) as char],
        10 <= n < base ==> numeral(n, base) == seq![('a' as u8 + (n - 10)) as char],
        n >= base ==> numeral(n, base) == numeral(n / base, base) + numeral(n % base, base),
        n > 0 ==> numeral(n, base)[0] != '0',
    decreases n,
{
    reveal_strlit("0123456789abcdef");
    if n < base {
        lemma_digit(n);
    } else {
        lemma_quotient_shrinks(n, base);
        assert(n / base > 0) by (nonlinear_arith)
            requires
                n >= base,
                base >= 2,
        ;
        assert(n % base < base) by (nonlinear_arith)
            requires
                base >= 2,
        ;
        numeral_digits(n / base, base);
        lemma_numeral_value(n / base, base);
        assert(numeral(n, base)[0] == numeral(n / base, base)[0]);
        assert(numeral(n, base) =~= numeral(n / base, base) + numeral(n % base, base));
    }
}

/// A numeral stands for the number it was made from.
pub proof fn lemma_numeral_value(n: nat, base: nat)
    requires
        2 <= base <= 16,
    ensures
        numeral_value(numeral(n, base), base) == n,
        numeral(n, base).len() > 0,
        forall|i: int| 0 <= i < numeral(n, base).len() ==> is_digit(#[trigger] numeral(n, base)[i]),
    decreases n,
{
    let s = numeral(n, base);
    if n < base {
        lemma_digit(n);
        assert(s.drop_last() =~= Seq::empty());
        assert(numeral_value(s.drop_last(), base) == 0);
        assert(s.last() == digit(n));
        assert(0nat * base == 0) by (nonlinear_arith);
    } else {
        lemma_quotient_shrinks(n, base);
        lemma_numeral_value(n / base, base);
        lemma_digit(n % base);
        assert(s.drop_last() =~= numeral(n / base, base));
        assert(n == (n / base) * base + n % base) by (nonlinear_arith)
            requires
                base > 0,
        ;
        assert forall|i: int| 0 <= i < s.len() implies is_digit(#[trigger] s[i]) by {
            if i < numeral(n / base, base).len() {
                assert(s[i] == numeral(n / base, base)[i]);
            }
        }
    }
}

/// Numbers that are spelled alike are the same.
pub proof fn lemma_numeral_injective(a: nat, b: nat, base: nat)
    requires
        2 <= base <= 16,
        numeral(a, base) == numeral(b, base),
    ensures
        a == b,
{
    lemma_numeral_value(a, base);
    lemma_numeral_value(b, base);
}

/// Text read up to the first separator is fixed by the whole: two parts
/// without the separator that lead to the same text are the same.
pub proof fn lemma_split_unique(a: Seq<char>, b: Seq<char>, c: Seq<char>, d: Seq<char>, sep: char)
    requires
        a.push(sep) + b == c.push(sep) + d,
        !a.contains(sep),
        !c.contains(sep),
    ensures
        a == c,
        b == d,
{
    let whole = a.push(sep) + b;
    let other = c.push(sep) + d;
    if a.len() < c.len() {
        assert(whole[a.len() as int] == sep);
        assert(other[a.len() as int] == c[a.len() as int]);
        assert(c.contains(sep));
    }
    if c.len() < a.len() {
        assert(other[c.len() as int] == sep);
        assert(whole[c.len() as int] == a[c.len() as int]);
        assert(a.contains(sep));
    }
    assert forall|i: int| 0 <= i < a.len() implies a[i] == c[i] by {
        assert(whole[i] == a[i]);
        assert(other[i] == c[i]);
    }
    assert(a =~= c);
    assert(whole.len() == a.len() + 1 + b.len());
    assert(other.len() == c.len() + 1 + d.len());
    assert forall|i: int| 0 <= i < b.len() implies b[i] == d[i] by {
        assert(whole[a.len() + 1 + i] == b[i]);
        assert(other[a.len() + 1 + i] == d[i]);
    }
    assert(b =~= d);
}

/// The text before the first `sep`, or all of it.
pub open spec fn before_first(s: Seq<char>, sep: char) -> Seq<char>
    decreases s.len(),
{
    if s.len() == 0 || s[0] == sep {
        Seq::empty()
    } else {
        seq![s[0]] + before_first(s.drop_first(), sep)
    }
}

/// The text after the first `sep`, if there is one.
pub open spec fn after_first(s: Seq<char>, sep: char) -> Option<Seq<char>>
    decreases s.len(),
{
    if s.len() == 0 {
        None
    } else if s[0] == sep {
        Some(s.drop_first())
    } else {
        after_first(s.drop_first(), sep)
    }
}

/// The text is split where `sep` first stands.
pub proof fn lemma_first(s: Seq<char>, sep: char, i: int)
    requires
        0 <= i <= s.len(),
        forall|j: int| 0 <= j < i ==> s[j] != sep,
        i < s.len() ==> s[i] == sep,
    ensures
        before_first(s, sep) == s.subrange(0, i),
        after_first(s, sep) == (if i < s.len() {
            Some(s.subrange(i + 1, s.len() as int))
        } else {
            None
        }),
    decreases s.len(),
{
    if s.len() == 0 {
        assert(s.subrange(0, i) =~= Seq::empty());
    } else if i == 0 {
        assert(s.subrange(0, 0) =~= Seq::empty());
        assert(s.drop_first() =~= s.subrange(1, s.len() as int));
    } else {
        let t = s.drop_first();
        lemma_first(t, sep, i - 1);
        assert(seq![s[0]] + t.subrange(0, i - 1) =~= s.subrange(0, i));
        if i < s.len() {
            assert(t.subrange(i, t.len() as int) =~= s.subrange(i + 1, s.len() as int));
        }
    }
}

/// Where `sep` first stands in the text, or its length.
fn first_place(s: &str, sep: char) -> (r: usize)
    ensures
        r <= s@.len(),
        before_first(s@, sep) == s@.subrange(0, r as int),
        after_first(s@, sep) == (if r < s@.len() {
            Some(s@.subrange(r + 1, s@.len() as int))
        } else {
            None
        }),
        r < s@.len() ==> s@[r as int] == sep,
{
    let n: usize = s.unicode_len();
    let mut i: usize = 0;
    while i < n && s.get_char(i) != sep
        invariant
            i <= n,
            n == s@.len(),
            forall|j: int| 0 <= j < i ==> s@[j] != sep,
        decreases n - i,
    {
        i += 1;
    }
    proof {
        lemma_first(s@, sep, i as int);
    }
    i
}

/// The text before the first `sep`, or all of it.
pub fn head<'a>(s: &'a str, sep: char) -> (r: &'a str)
    ensures
        r@ == before_first(s@, sep),
{
    let i: usize = first_place(s, sep);
    s.substring_char(0, i)
}

/// The text after the first `sep`, if there is one.
pub fn tail<'a>(s: &'a str, sep: char) -> (r: Option<&'a str>)
    ensures
        match r {
            Some(t) => after_first(s@, sep) == Some(t@),
            None => after_first(s@, sep) is None,
        },
{
    let i: usize = first_place(s, sep);
    let n: usize = s.unicode_len();
    if i < n {
        Some(s.substring_char(i + 1, n))
    } else {
        None
    }
}

/// The text without its first part, if it starts with that part.
pub fn strip_prefix<'a>(s: &'a str, prefix: &str) -> (r: Option<&'a str>)
    ensures
        match r {
            Some(t) => s@ == prefix@ + t@,
            None => !prefix@.is_prefix_of(s@),
        },
{
    let n: usize = s.unicode_len();
    let m: usize = prefix.unicode_len();
    if m > n {
        return None;
    }
    let start = s.substring_char(0, m);
    if same_text(start, prefix) {
        let t = s.substring_char(m, n);
        assert(s@ =~= prefix@ + t@);
        Some(t)
    } else {
        assert(prefix@ != s@.subrange(0, m as int));
        None
    }
}

/// The text without its last character, if that is `last`.
pub fn strip_last<'a>(s: &'a str, last: char) -> (r: Option<&'a str>)
    ensures
        match r {
            Some(t) => s@ == t@.push(last),
            None => s@.len() == 0 || s@.last() != last,
        },
{
    let n: usize = s.unicode_len();
    if n > 0 && s.get_char(n - 1) == last {
        let t = s.substring_char(0, n - 1);
        assert(s@ =~= t@.push(last));
        Some(t)
    } else {
        None
    }
}

/// Whether two texts are alike.
pub fn same_text(a: &str, b: &str) -> (r: bool)
    ensures
        r == (a@ == b@),
{
    a.to_owned() == b.to_owned()
}

/// Appends the number in the given base.
fn append_numeral(out: &mut String, n: u64, base: u64)
    requires
        2 <= base <= 16,
    ensures
        final(out)@ == old(out)@ + numeral(n as nat, base as nat),
    decreases n,
{
    let d: u64 = n % base;
    let ghost before = out@;
    if n >= base {
        proof {
            lemma_quotient_shrinks(n as nat, base as nat);
        }
        append_numeral(out, n / base, base);
    }
    proof {
        reveal_strlit("0123456789abcdef");
    }
    let digits = "0123456789abcdef";
    let c = digits.substring_ascii(d as usize, d as usize + 1);
    assert(c@ =~= seq![digit(d as nat)]);
    let ghost so_far = out@;
    out.append(c);
    proof {
        assert(out@ =~= so_far.push(digit(d as nat)));
        let whole = numeral(n as nat, base as nat);
        if n >= base {
            let front = numeral((n / base) as nat, base as nat);
            assert(whole == front.push(digit(d as nat)));
            assert(so_far == before + front);
        } else {
            assert(whole == seq![digit(d as nat)]);
            assert(so_far == before);
        }
        assert(out@ =~= before + whole);
    }
}

/// The number in decimal.
pub fn decimal(n: u64) -> (r: String)
    ensures
        r@ == numeral(n as nat, 10),
{
    let mut r = String::new();
    append_numeral(&mut r, n, 10);
    assert(r@ =~= numeral(n as nat, 10));
    r
}

/// The number in hexadecimal, in lower case.
pub fn hexadecimal(n: u64) -> (r: String)
    ensures
        r@ == numeral(n as nat, 16),
{
    let mut r = String::new();
    append_numeral(&mut r, n, 16);
    assert(r@ =~= numeral(n as nat, 16));
    r
}

/// Text in quotation marks, with escapes for what cannot stand there as it is.
pub uninterp spec fn quoted(s: Seq<char>) -> Seq<char>;

/// `format!` of a `str` with `{:?}`: the text in quotation marks. How each
/// character is escaped is left to `quoted`.
#[verifier::external_body]
pub(crate) fn quote(s: &str) -> (r: String)
    ensures
        r@ == quoted(s@),
{
    format!("{:?}", s)
}

/// Text in brackets behind a tag.
pub open spec fn tagged_text(tag: Seq<char>, inner: Seq<char>) -> Seq<char> {
    tag + "("@ + inner + ")"@
}

/// Puts text in brackets behind a tag.
pub fn tagged(tag: &str, inner: &str) -> (r: String)
    ensures
        r@ == tagged_text(tag@, inner@),
{
    tag.to_owned().concat("(").concat(inner).concat(")")
}

/// One text after the other.
pub fn join2(a: &str, b: &str) -> (r: String)
    ensures
        r@ == a@ + b@,
{
    a.to_owned().concat(b)
}

/// Three texts, one after the other.
pub fn join3(a: &str, b: &str, c: &str) -> (r: String)
    ensures
        r@ == a@ + b@ + c@,
{
    a.to_owned().concat(b).concat(c)
}

/// Five texts, one after the other.
pub fn join5(a: &str, b: &str, c: &str, d: &str, e: &str) -> (r: String)
    ensures
        r@ == a@ + b@ + c@ + d@ + e@,
{
    a.to_owned().concat(b).concat(c).concat(d).concat(e)
}

} // verus!
