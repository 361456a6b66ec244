//! Verified text utilities used by the protocol parser: trimming of
//! surrounding whitespace, locating separators, and decimal numbers.

use vstd::prelude::*;

verus! {

/// Characters treated as surrounding whitespace when a response line is
/// trimmed: the ASCII whitespace characters.
pub open spec fn is_ws(c: char) -> bool {
    c == ' ' || c == '\t' || c == '\n' || c == '\r' || c == '\u{c}'
}

fn is_ws_char(c: char) -> (b: bool)
    ensures
        b == is_ws(c),
{
    c == ' ' || c == '\t' || c == '\n' || c == '\r' || c == '\u{c}'
}

/// Length of the longest whitespace prefix of `s`.
pub open spec fn leading_ws(s: Seq<char>) -> nat
    decreases s.len(),
{
    if s.len() == 0 {
        0
    } else if is_ws(s[0]) {
        1 + leading_ws(s.drop_first())
    } else {
        0
    }
}

/// Length of the longest whitespace suffix of `s`.
pub open spec fn trailing_ws(s: Seq<char>) -> nat
    decreases s.len(),
{
    if s.len() == 0 {
        0
    } else if is_ws(s.last()) {
        1 + trailing_ws(s.drop_last())
    } else {
        0
    }
}

/// `s` with its longest whitespace prefix and suffix removed.
pub open spec fn spec_trim(s: Seq<char>) -> Seq<char> {
    if leading_ws(s) == s.len() {
        Seq::empty()
    } else {
        s.subrange(leading_ws(s) as int, s.len() - trailing_ws(s))
    }
}

proof fn lemma_leading_ws_unique(s: Seq<char>, i: int)
    requires
        0 <= i <= s.len(),
        forall|j: int| 0 <= j < i ==> is_ws(s[j]),
        i < s.len() ==> !is_ws(s[i]),
    ensures
        i == leading_ws(s),
    decreases s.len(),
{
    if s.len() > 0 && is_ws(s[0]) {
        assert(i > 0);
        lemma_leading_ws_unique(s.drop_first(), i - 1);
    }
}

proof fn lemma_trailing_ws_unique(s: Seq<char>, i: int)
    requires
        0 <= i <= s.len(),
        forall|j: int| s.len() - i <= j < s.len() ==> is_ws(s[j]),
        i < s.len() ==> !is_ws(s[s.len() - i - 1]),
    ensures
        i == trailing_ws(s),
    decreases s.len(),
{
    if s.len() > 0 && is_ws(s.last()) {
        assert(i > 0);
        lemma_trailing_ws_unique(s.drop_last(), i - 1);
        assert forall|j: int| s.drop_last().len() - (i - 1) <= j < s.drop_last().len()
            implies is_ws(s.drop_last()[j]) by {
            assert(s.drop_last()[j] == s[j]);
        }
    }
}

/// Returns `s` with surrounding ASCII whitespace removed.
pub fn trim(s: &str) -> (r: &str)
    ensures
        r@ == spec_trim(s@),
        r@.len() <= s@.len(),
{
    let n = s.unicode_len();
    let mut a: usize = 0;
    while a < n && is_ws_char(s.get_char(a))
        invariant
            0 <= a <= n,
            n == s@.len(),
            forall|j: int| 0 <= j < a ==> is_ws(s@[j]),
        decreases n - a,
    {
        a = a + 1;
    }
    proof {
        lemma_leading_ws_unique(s@, a as int);
    }
    if a == n {
        let r = s.substring_char(n, n);
        proof {
            assert(r@ =~= spec_trim(s@));
        }
        return r;
    }
    let mut b: usize = n;
    while b > a && is_ws_char(s.get_char(b - 1))
        invariant
            a <= b <= n,
            n == s@.len(),
            a == leading_ws(s@) < n,
            !is_ws(s@[a as int]),
            forall|j: int| b <= j < n ==> is_ws(s@[j]),
        decreases b,
    {
        b = b - 1;
    }
    proof {
        assert(b > a);
        lemma_trailing_ws_unique(s@, n - b);
    }
    let r = s.substring_char(a, b);
    proof {
        assert(r@ =~= spec_trim(s@));
    }
    r
}

/// How often `c` occurs in `s`.
pub open spec fn count_char(s: Seq<char>, c: char) -> nat
    decreases s.len(),
{
    if s.len() == 0 {
        0
    } else {
        (if s[0] == c {
            1nat
        } else {
            0nat
        }) + count_char(s.drop_first(), c)
    }
}

/// Appending a character extends the count by whether it is `c`.
pub proof fn lemma_count_push(s: Seq<char>, x: char, c: char)
    ensures
        count_char(s.push(x), c) == count_char(s, c) + (if x == c {
            1nat
        } else {
            0nat
        }),
    decreases s.len(),
{
    assert(count_char(Seq::<char>::empty(), c) == 0);
    if s.len() == 0 {
        assert(s.push(x).drop_first() =~= Seq::<char>::empty());
        assert(s.push(x)[0] == x);
        assert(count_char(s, c) == 0);
    } else {
        lemma_count_push(s.drop_first(), x, c);
        assert(s.push(x).drop_first() =~= s.drop_first().push(x));
        assert(s.push(x)[0] == s[0]);
        assert(count_char(s, c) == (if s[0] == c {
            1nat
        } else {
            0nat
        }) + count_char(s.drop_first(), c));
    }
}

/// Index of the first occurrence of `c` in `s`, or `s.len()` if there is none.
pub open spec fn first_idx(s: Seq<char>, c: char) -> nat
    decreases s.len(),
{
    if s.len() == 0 {
        0
    } else if s[0] == c {
        0
    } else {
        1 + first_idx(s.drop_first(), c)
    }
}

pub proof fn lemma_first_idx(s: Seq<char>, c: char)
    ensures
        first_idx(s, c) <= s.len(),
        forall|j: int| 0 <= j < first_idx(s, c) ==> s[j] != c,
        first_idx(s, c) < s.len() ==> s[first_idx(s, c) as int] == c,
    decreases s.len(),
{
    if s.len() > 0 && s[0] != c {
        lemma_first_idx(s.drop_first(), c);
        assert forall|j: int| 0 <= j < first_idx(s, c) implies s[j] != c by {
            if j > 0 {
                assert(s.drop_first()[j - 1] == s[j]);
            }
        }
        if first_idx(s, c) < s.len() {
            assert(s.drop_first()[first_idx(s.drop_first(), c) as int]
                == s[first_idx(s, c) as int]);
        }
    }
}

pub proof fn lemma_first_idx_unique(s: Seq<char>, c: char, i: int)
    requires
        0 <= i <= s.len(),
        forall|j: int| 0 <= j < i ==> s[j] != c,
        i < s.len() ==> s[i] == c,
    ensures
        i == first_idx(s, c),
    decreases s.len(),
{
    if s.len() > 0 && s[0] != c {
        assert(i > 0);
        lemma_first_idx_unique(s.drop_first(), c, i - 1);
    }
}

/// `s` divided at every occurrence of the separator `c`: the fields in order,
/// without the separators; one field more than there are separators.
pub open spec fn spec_split(s: Seq<char>, c: char) -> Seq<Seq<char>>
    decreases s.len(),
    via spec_split_decreases
{
    if first_idx(s, c) == s.len() {
        seq![s]
    } else {
        seq![s.take(first_idx(s, c) as int)] + spec_split(
            s.skip(first_idx(s, c) as int + 1),
            c,
        )
    }
}

#[via_fn]
proof fn spec_split_decreases(s: Seq<char>, c: char) {
    lemma_first_idx(s, c);
}

pub proof fn lemma_split_len(s: Seq<char>, c: char)
    ensures
        spec_split(s, c).len() == count_char(s, c) + 1,
    decreases s.len(),
{
    lemma_first_idx(s, c);
    let i = first_idx(s, c) as int;
    if i == s.len() {
        lemma_no_occurrence_count(s, c);
    } else {
        lemma_split_len(s.skip(i + 1), c);
        lemma_count_decompose(s, c, i);
        lemma_no_occurrence_count(s.take(i), c);
    }
}

/// A sequence without `c` has count zero.
proof fn lemma_no_occurrence_count(s: Seq<char>, c: char)
    requires
        forall|j: int| 0 <= j < s.len() ==> s[j] != c,
    ensures
        count_char(s, c) == 0,
    decreases s.len(),
{
    if s.len() > 0 {
        assert forall|j: int| 0 <= j < s.drop_first().len() implies s.drop_first()[j] != c by {
            assert(s.drop_first()[j] == s[j + 1]);
        }
        lemma_no_occurrence_count(s.drop_first(), c);
    }
}

/// Occurrences split at an occurrence position `i`.
proof fn lemma_count_decompose(s: Seq<char>, c: char, i: int)
    requires
        0 <= i < s.len(),
    ensures
        count_char(s, c) == count_char(s.take(i), c) + (if s[i] == c {
            1nat
        } else {
            0nat
        }) + count_char(s.skip(i + 1), c),
    decreases s.len(),
{
    if i == 0 {
        assert(s.take(0) =~= Seq::<char>::empty());
        assert(s.skip(1) =~= s.drop_first());
    } else {
        lemma_count_decompose(s.drop_first(), c, i - 1);
        assert(s.drop_first().take(i - 1) =~= s.take(i).drop_first());
        assert(s.drop_first().skip(i) =~= s.skip(i + 1));
        assert(s.take(i)[0] == s[0]);
    }
}

/// With exactly two occurrences of `c`, at `i1` and `i2`, the split has the
/// three fields around them.
pub proof fn lemma_split_two(s: Seq<char>, c: char, i1: int, i2: int)
    requires
        0 <= i1 < i2 < s.len(),
        s[i1] == c,
        s[i2] == c,
        forall|j: int| 0 <= j < i1 ==> s[j] != c,
        forall|j: int| i1 < j < i2 ==> s[j] != c,
        forall|j: int| i2 < j < s.len() ==> s[j] != c,
    ensures
        spec_split(s, c) =~= seq![s.take(i1), s.subrange(i1 + 1, i2), s.skip(i2 + 1)],
{
    lemma_first_idx_unique(s, c, i1);
    let rest = s.skip(i1 + 1);
    assert forall|j: int| 0 <= j < i2 - i1 - 1 implies rest[j] != c by {
        assert(rest[j] == s[j + i1 + 1]);
    }
    assert(rest[i2 - i1 - 1] == s[i2]);
    lemma_first_idx_unique(rest, c, i2 - i1 - 1);
    let rest2 = rest.skip(i2 - i1);
    assert forall|j: int| 0 <= j < rest2.len() implies rest2[j] != c by {
        assert(rest2[j] == s[j + i2 + 1]);
    }
    lemma_first_idx_unique(rest2, c, rest2.len() as int);
    assert(rest.take(i2 - i1 - 1) =~= s.subrange(i1 + 1, i2));
    assert(rest2 =~= s.skip(i2 + 1));
    assert(spec_split(rest2, c) == seq![rest2]);
    assert(spec_split(rest, c) == seq![rest.take(i2 - i1 - 1)] + spec_split(rest2, c));
    assert(spec_split(s, c) == seq![s.take(i1)] + spec_split(rest, c));
}

/// Appends one character to a string.
///
/// Relies on `String::push` of std: it appends exactly the given character.
#[verifier::external_body]
pub fn push_char(s: &mut String, c: char)
    ensures
        final(s)@ == old(s)@ + seq![c],
{
    s.push(c);
}

pub open spec fn is_digit(c: char) -> bool {
    48 <= c as u32 <= 57
}

pub open spec fn digit_val(c: char) -> nat {
    (c as u32 - 48) as nat
}

pub open spec fn all_digits(s: Seq<char>) -> bool {
    forall|j: int| 0 <= j < s.len() ==> is_digit(s[j])
}

/// The number written in decimal as `s`, read with no bound on its size.
pub open spec fn digits_value(s: Seq<char>) -> nat
    decreases s.len(),
{
    if s.len() == 0 {
        0
    } else {
        digits_value(s.drop_last()) * 10 + digit_val(s.last())
    }
}

/// What `str::parse` yields for an unsigned integer type, before the bound of
/// the type is applied: an optional leading `+`, then at least one digit.
pub open spec fn spec_parse_uint(s: Seq<char>) -> Option<nat> {
    let d = if s.len() > 0 && s[0] == '+' {
        s.drop_first()
    } else {
        s
    };
    if d.len() > 0 && all_digits(d) {
        Some(digits_value(d))
    } else {
        None
    }
}

/// A longer digit string never denotes a smaller number.
proof fn lemma_digits_value_monotone(s: Seq<char>, i: int)
    requires
        0 <= i <= s.len(),
    ensures
        digits_value(s.take(i)) <= digits_value(s),
    decreases s.len() - i,
{
    if i < s.len() {
        lemma_digits_value_monotone(s, i + 1);
        assert(s.take(i + 1).drop_last() =~= s.take(i));
        assert(digits_value(s.take(i)) <= digits_value(s.take(i + 1)));
    } else {
        assert(s.take(i) =~= s);
    }
}

/// Parses `s` as a decimal `usize` the way `str::parse` reads it: an optional
/// leading `+`, then at least one digit, and the value within bounds.
pub fn parse_usize_str(s: &str) -> (r: Option<usize>)
    ensures
        match spec_parse_uint(s@) {
            Some(v) => if v <= usize::MAX {
                r == Some(v as usize)
            } else {
                r is None
            },
            None => r is None,
        },
{
    let n = s.unicode_len();
    let start: usize = if n > 0 && s.get_char(0) == '+' {
        1
    } else {
        0
    };
    let ghost d = if s@.len() > 0 && s@[0] == '+' {
        s@.drop_first()
    } else {
        s@
    };
    assert(d =~= s@.skip(start as int));
    if n == start {
        return None;
    }
    let mut acc: usize = 0;
    let mut i: usize = start;
    proof {
        assert(d.take(0) =~= Seq::<char>::empty());
        assert(digits_value(Seq::<char>::empty()) == 0);
    }
    while i < n
        invariant
            start <= i <= n,
            n == s@.len(),
            d == s@.skip(start as int),
            d == (if s@.len() > 0 && s@[0] == '+' {
                s@.drop_first()
            } else {
                s@
            }),
            all_digits(d.take(i - start)),
            acc == digits_value(d.take(i - start)),
        decreases n - i,
    {
        let c = s.get_char(i);
        let u = c as u32;
        if u < 48 || u > 57 {
            proof {
                assert(d[i - start] == c);
                assert(!is_digit(d[i - start]));
            }
            return None;
        }
        let dv = (u - 48) as usize;
        let next = match acc.checked_mul(10) {
            Some(m) => m.checked_add(dv),
            None => None,
        };
        proof {
            assert(d[i - start] == c);
            assert(is_digit(c));
            let dd = d.take(i - start + 1);
            assert(dd.drop_last() =~= d.take(i - start));
            assert(dd.last() == d[i - start]);
            assert forall|j: int| 0 <= j < dd.len() implies is_digit(#[trigger] dd[j]) by {
                if j < i - start {
                    assert(dd[j] == d.take(i - start)[j]);
                }
            }
        }
        match next {
            Some(v) => {
                acc = v;
            },
            None => {
                proof {
                    lemma_digits_value_monotone(d, i - start + 1);
                }
                return None;
            },
        }
        i = i + 1;
    }
    proof {
        assert(d.take(n - start) =~= d);
    }
    Some(acc)
}

/// The decimal digit `d` as a character.
pub open spec fn digit_char(d: nat) -> char {
    (48 + d) as char
}

/// The number `n` written in decimal, without sign or leading zeros.
pub open spec fn spec_digits(n: nat) -> Seq<char>
    decreases n,
{
    if n < 10 {
        seq![digit_char(n)]
    } else {
        spec_digits(n / 10) + seq![digit_char(n % 10)]
    }
}

/// The decimal writing of a number reads back as that number, is never empty,
/// and holds digits alone.
pub proof fn lemma_spec_digits(n: nat)
    ensures
        spec_digits(n).len() > 0,
        all_digits(spec_digits(n)),
        digits_value(spec_digits(n)) == n,
    decreases n,
{
    if n < 10 {
        assert(spec_digits(n) =~= seq![digit_char(n)]);
        assert(spec_digits(n).drop_last() =~= Seq::<char>::empty());
        assert(digits_value(Seq::<char>::empty()) == 0);
    } else {
        lemma_spec_digits(n / 10);
        assert(spec_digits(n).drop_last() =~= spec_digits(n / 10));
        assert(spec_digits(n).last() == digit_char(n % 10));
        assert forall|j: int| 0 <= j < spec_digits(n).len() implies is_digit(
            spec_digits(n)[j],
        ) by {
            if j < spec_digits(n / 10).len() {
                assert(spec_digits(n)[j] == spec_digits(n / 10)[j]);
            }
        }
    }
}

fn digit_char_exec(d: usize) -> (c: char)
    requires
        d < 10,
    ensures
        c == digit_char(d as nat),
{
    ((48 + d) as u8) as char
}

/// Writes `n` in decimal.
pub fn digits_string(n: usize) -> (r: String)
    ensures
        r@ == spec_digits(n as nat),
    decreases n,
{
    if n < 10 {
        let mut s = String::new();
        push_char(&mut s, digit_char_exec(n));
        proof {
            assert(s@ =~= spec_digits(n as nat));
        }
        s
    } else {
        let mut s = digits_string(n / 10);
        push_char(&mut s, digit_char_exec(n % 10));
        proof {
            assert(s@ =~= spec_digits(n as nat));
        }
        s
    }
}

} // verus!
