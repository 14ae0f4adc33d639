//! Character-level helpers shared by the parsers.
use vstd::prelude::*;
use vstd::string::StringExecFns;
use vstd::utf8::is_ascii_chars;

verus! {

/// Position of the first `d` in `s`, or the length of `s` when `d` does not
/// occur in it.
pub open spec fn first_index(s: Seq<char>, d: char) -> nat
    decreases s.len(),
{
    if s.len() == 0 {
        0
    } else if s[0] == d {
        0
    } else {
        1 + first_index(s.drop_first(), d)
    }
}

/// Whether `d` occurs in `s`.
pub open spec fn has_delimiter(s: Seq<char>, d: char) -> bool {
    first_index(s, d) < s.len()
}

/// The text before the first `d`, or the whole of `s` when there is none.
pub open spec fn field_before(s: Seq<char>, d: char) -> Seq<char> {
    s.take(first_index(s, d) as int)
}

/// The text after the first `d`.
pub open spec fn text_after(s: Seq<char>, d: char) -> Seq<char> {
    s.skip(first_index(s, d) + 1int)
}

/// The first index is the one before which no `d` stands and at which `d`
/// stands, or the end.
pub proof fn lemma_first_index(s: Seq<char>, d: char, i: int)
    requires
        0 <= i <= s.len(),
        forall|j: int| 0 <= j < i ==> s[j] != d,
        i == s.len() || s[i] == d,
    ensures
        first_index(s, d) == i,
    decreases i,
{
    if i > 0 {
        lemma_first_index(s.drop_first(), d, i - 1);
    }
}

/// Finds the first `d` in `s`; the result is the length of `s` when there is
/// none.
pub fn find_char(s: &str, d: char) -> (r: usize)
    ensures
        r == first_index(s@, d),
        r <= s@.len(),
{
    let n = s.unicode_len();
    let mut i: usize = 0;
    while i < n && s.get_char(i) != d
        invariant
            n == s@.len(),
            i <= n,
            forall|j: int| 0 <= j < i ==> s@[j] != d,
        decreases n - i,
    {
        i = i + 1;
    }
    proof {
        lemma_first_index(s@, d, i as int);
    }
    i
}

/// Whether `c` is one of the decimal digits `0` to `9`.
pub open spec fn is_digit(c: char) -> bool {
    '0' <= c <= '9'
}

/// Whether `t` holds decimal digits only.
pub open spec fn all_digits(t: Seq<char>) -> bool {
    forall|i: int| 0 <= i < t.len() ==> is_digit(#[trigger] t[i])
}

/// The value of a decimal digit.
pub open spec fn digit_value(c: char) -> nat {
    (c as u32 - '0' as u32) as nat
}

/// The number that a string of decimal digits denotes, most significant
/// digit first. Leading zeros add nothing.
pub open spec fn decimal_value(t: Seq<char>) -> nat
    decreases t.len(),
{
    if t.len() == 0 {
        0
    } else {
        10 * decimal_value(t.drop_last()) + digit_value(t.last())
    }
}

/// The digit that stands for `n`, for `n` below ten.
pub open spec fn digit_char(n: nat) -> char {
    seq!['0', '1', '2', '3', '4', '5', '6', '7', '8', '9'][n as int]
}

/// The shortest decimal text of `n`: no sign and no leading zero.
pub open spec fn decimal_text(n: nat) -> Seq<char>
    decreases n,
{
    if n < 10 {
        seq![digit_char(n)]
    } else {
        decimal_text(n / 10) + seq![digit_char(n % 10)]
    }
}

/// Whether two strings hold the same characters.
pub fn same_chars(a: &str, b: &str) -> (r: bool)
    ensures
        r == (a@ == b@),
{
    let n = a.unicode_len();
    if n != b.unicode_len() {
        return false;
    }
    let mut i: usize = 0;
    while i < n
        invariant
            n == a@.len(),
            n == b@.len(),
            i <= n,
            forall|j: int| 0 <= j < i ==> a@[j] == b@[j],
        decreases n - i,
    {
        if a.get_char(i) != b.get_char(i) {
            return false;
        }
        i = i + 1;
    }
    assert(a@ =~= b@);
    true
}

/// Each digit character is read back as the digit it stands for.
pub proof fn lemma_digit_char(k: nat)
    requires
        k < 10,
    ensures
        is_digit(digit_char(k)),
        digit_char(k) != '.',
        digit_char(k) != '/',
        digit_value(digit_char(k)) == k,
{
    if k == 0 {
    } else if k == 1 {
    } else if k == 2 {
    } else if k == 3 {
    } else if k == 4 {
    } else if k == 5 {
    } else if k == 6 {
    } else if k == 7 {
    } else if k == 8 {
    } else {
    }
}

/// The decimal text of `n` is a non-empty run of digits that reads back as
/// `n`.
pub proof fn lemma_decimal_text(n: nat)
    ensures
        decimal_text(n).len() > 0,
        all_digits(decimal_text(n)),
        decimal_value(decimal_text(n)) == n,
        !decimal_text(n).contains('.'),
        !decimal_text(n).contains('/'),
    decreases n,
{
    let t = decimal_text(n);
    if n < 10 {
        lemma_digit_char(n);
        assert(t.drop_last() =~= Seq::<char>::empty());
        assert(decimal_value(Seq::<char>::empty()) == 0);
    } else {
        lemma_decimal_text(n / 10);
        lemma_digit_char(n % 10);
        let front = decimal_text(n / 10);
        assert(t.drop_last() =~= front);
        assert forall|i: int| 0 <= i < t.len() implies is_digit(#[trigger] t[i]) by {
            if i < front.len() {
                assert(t[i] == front[i]);
            }
        }
        assert forall|i: int| 0 <= i < t.len() implies #[trigger] t[i] != '.' && t[i] != '/' by {
            if i < front.len() {
                assert(t[i] == front[i]);
            }
        }
    }
}

/// In `a + [d] + b`, where `a` holds no `d`, the first `d` is the one
/// between `a` and `b`.
pub proof fn lemma_split_at_joint(a: Seq<char>, d: char, b: Seq<char>)
    requires
        !a.contains(d),
    ensures
        has_delimiter(a + seq![d] + b, d),
        field_before(a + seq![d] + b, d) == a,
        text_after(a + seq![d] + b, d) == b,
{
    let s = a + seq![d] + b;
    assert forall|j: int| 0 <= j < a.len() implies s[j] != d by {
        assert(s[j] == a[j]);
    }
    lemma_first_index(s, d, a.len() as int);
    assert(field_before(s, d) =~= a);
    assert(text_after(s, d) =~= b);
}

/// A text that holds no `d` is one whole field.
pub proof fn lemma_no_delimiter(s: Seq<char>, d: char)
    requires
        !s.contains(d),
    ensures
        !has_delimiter(s, d),
        field_before(s, d) == s,
{
    assert forall|j: int| 0 <= j < s.len() implies s[j] != d by {
        if s[j] == d {
            assert(s.contains(d));
        }
    }
    lemma_first_index(s, d, s.len() as int);
    assert(field_before(s, d) =~= s);
}

/// The single-character text of the digit `d`.
fn digit_text(d: u8) -> (r: &'static str)
    requires
        d < 10,
    ensures
        r@ == seq![digit_char(d as nat)],
{
    let digits = "0123456789";
    proof {
        reveal_strlit("0123456789");
    }
    assert(digits@ =~= seq!['0', '1', '2', '3', '4', '5', '6', '7', '8', '9']);
    let r = digits.substring_char(d as usize, d as usize + 1);
    assert(r@ =~= seq![digit_char(d as nat)]);
    r
}

/// Appends the decimal text of `n` to `out`.
pub fn append_decimal(out: &mut String, n: u8)
    ensures
        final(out)@ == old(out)@ + decimal_text(n as nat),
{
    proof {
        reveal_with_fuel(decimal_text, 3);
    }
    if n >= 100 {
        out.append(digit_text(n / 100));
        out.append(digit_text(n / 10 % 10));
        out.append(digit_text(n % 10));
        assert(decimal_text(n as nat) =~= seq![
            digit_char((n / 100) as nat),
            digit_char((n / 10 % 10) as nat),
            digit_char((n % 10) as nat),
        ]);
    } else if n >= 10 {
        out.append(digit_text(n / 10));
        out.append(digit_text(n % 10));
        assert(decimal_text(n as nat) =~= seq![
            digit_char((n / 10) as nat),
            digit_char((n % 10) as nat),
        ]);
    } else {
        out.append(digit_text(n));
    }
    assert(final(out)@ =~= old(out)@ + decimal_text(n as nat));
}

/// The lower-case form of a text, as std's `to_lowercase` gives it. Only its
/// value on texts that hold no character outside ASCII is known here: see
/// `lowercase_of`.
pub uninterp spec fn lower_of(s: Seq<char>) -> Seq<char>;

/// ASCII lower-casing of one character: `A` to `Z` become `a` to `z`, every
/// other character stays.
pub open spec fn ascii_lower_char(c: char) -> char {
    if 'A' <= c <= 'Z' {
        ((c as u32) + 32) as char
    } else {
        c
    }
}

/// ASCII lower-casing of a text, character by character.
pub open spec fn ascii_lower(s: Seq<char>) -> Seq<char> {
    s.map_values(|c: char| ascii_lower_char(c))
}

/// The lower-case form of a text: on ASCII text, the ASCII lower-casing;
/// elsewhere, Unicode's lower-case mapping.
pub open spec fn lowercase_of(s: Seq<char>) -> Seq<char> {
    if is_ascii_chars(s) {
        ascii_lower(s)
    } else {
        lower_of(s)
    }
}

/// Relies on std's `str::to_lowercase`: its result is a function of the
/// characters alone, and on a text of ASCII characters it is that text's
/// ASCII lower-casing (std's implementation starts with an ASCII fast path
/// that applies `u8::to_ascii_lowercase`, and Unicode maps `A` to `Z` onto
/// `a` to `z` and no other ASCII character elsewhere).
#[verifier::external_body]
pub(crate) fn to_lowercase(s: &str) -> (r: String)
    ensures
        r@ == lower_of(s@),
        is_ascii_chars(s@) ==> r@ == ascii_lower(s@),
{
    s.to_lowercase()
}

} // verus!
