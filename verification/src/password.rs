//! The password deriver: maps raw seed bytes cyclically onto a character
//! alphabet selected by a complexity code.

use vstd::prelude::*;
use vstd::slice::slice_index_get;
use crate::text::push_char;

verus! {

/// The decimal digits `0` to `9`.
pub open spec fn digit_chars() -> Seq<char> {
    Seq::new(10, |i: int| (48 + i) as char)
}

/// The lowercase letters `a` to `z`.
pub open spec fn lowercase_chars() -> Seq<char> {
    Seq::new(26, |i: int| (97 + i) as char)
}

/// The uppercase letters `A` to `Z`.
pub open spec fn uppercase_chars() -> Seq<char> {
    Seq::new(26, |i: int| (65 + i) as char)
}

/// The fixed symbol set.
pub open spec fn symbol_chars() -> Seq<char> {
    seq![
        '!',
        '@',
        '#',
        '$',
        '%',
        '^',
        '&',
        '*',
        '(',
        ')',
        '_',
        '+',
        '-',
        '=',
        '[',
        ']',
        '{',
        '}',
        '|',
        ';',
        ':',
        ',',
        '.',
        '<',
        '>',
        '?',
    ]
}

/// The alphabet that a complexity code selects: digits for 0, lowercase for 1,
/// uppercase for 2, both letter cases for 3, letters and digits for 4, and the
/// full four-class alphabet with symbols for every other code.
pub open spec fn spec_alphabet(complexity: u8) -> Seq<char> {
    if complexity == 0 {
        digit_chars()
    } else if complexity == 1 {
        lowercase_chars()
    } else if complexity == 2 {
        uppercase_chars()
    } else if complexity == 3 {
        lowercase_chars() + uppercase_chars()
    } else if complexity == 4 {
        lowercase_chars() + uppercase_chars() + digit_chars()
    } else {
        lowercase_chars() + uppercase_chars() + digit_chars() + symbol_chars()
    }
}

/// The password derived from `seed`: `length` characters, the one at position
/// `i` chosen from the alphabet by the seed byte at `i`, read cyclically,
/// reduced modulo the alphabet's size. An empty seed yields the empty string.
pub open spec fn spec_password(seed: Seq<u8>, length: nat, complexity: u8) -> Seq<char> {
    if seed.len() == 0 {
        Seq::empty()
    } else {
        Seq::new(
            length,
            |i: int| spec_alphabet(complexity)[(seed[i % seed.len() as int] as int) % (
            spec_alphabet(complexity).len() as int)],
        )
    }
}

/// Appends the characters with codes `first` to `first + count - 1`.
fn push_ascii_range(v: &mut Vec<char>, first: u8, count: u8)
    requires
        first + count <= 127,
    ensures
        final(v)@ == old(v)@ + Seq::new(count as nat, |i: int| (first + i) as char),
{
    let mut k: u8 = 0;
    while k < count
        invariant
            k <= count,
            first + count <= 127,
            v@ == old(v)@ + Seq::new(k as nat, |i: int| (first + i) as char),
        decreases count - k,
    {
        v.push(((first + k) as u8) as char);
        proof {
            assert(v@ =~= old(v)@ + Seq::new((k + 1) as nat, |i: int| (first + i) as char));
        }
        k = k + 1;
    }
    proof {
        assert(v@ =~= old(v)@ + Seq::new(count as nat, |i: int| (first + i) as char));
    }
}

/// Appends the fixed symbol set.
fn push_symbols(v: &mut Vec<char>)
    ensures
        final(v)@ == old(v)@ + symbol_chars(),
{
    v.push('!');
    v.push('@');
    v.push('#');
    v.push('$');
    v.push('%');
    v.push('^');
    v.push('&');
    v.push('*');
    v.push('(');
    v.push(')');
    v.push('_');
    v.push('+');
    v.push('-');
    v.push('=');
    v.push('[');
    v.push(']');
    v.push('{');
    v.push('}');
    v.push('|');
    v.push(';');
    v.push(':');
    v.push(',');
    v.push('.');
    v.push('<');
    v.push('>');
    v.push('?');
    proof {
        assert(v@ =~= old(v)@ + symbol_chars());
    }
}

/// Builds the alphabet that `complexity` selects.
fn alphabet_chars(complexity: u8) -> (v: Vec<char>)
    ensures
        v@ == spec_alphabet(complexity),
        v@.len() > 0,
{
    let mut v: Vec<char> = Vec::new();
    if complexity == 0 {
        push_ascii_range(&mut v, 48, 10);
    } else if complexity == 1 {
        push_ascii_range(&mut v, 97, 26);
    } else if complexity == 2 {
        push_ascii_range(&mut v, 65, 26);
    } else if complexity == 3 {
        push_ascii_range(&mut v, 97, 26);
        push_ascii_range(&mut v, 65, 26);
    } else if complexity == 4 {
        push_ascii_range(&mut v, 97, 26);
        push_ascii_range(&mut v, 65, 26);
        push_ascii_range(&mut v, 48, 10);
    } else {
        push_ascii_range(&mut v, 97, 26);
        push_ascii_range(&mut v, 65, 26);
        push_ascii_range(&mut v, 48, 10);
        push_symbols(&mut v);
    }
    proof {
        assert(v@ =~= spec_alphabet(complexity));
    }
    v
}

/// Derives a password of `length` characters from the seed bytes, cycling
/// through the seed and reducing each byte modulo the size of the alphabet
/// that `complexity` selects.
pub fn generate_password_from_bytes(random_bytes: &[u8], length: usize, complexity: u8) -> (r:
    String)
    ensures
        r@ == spec_password(random_bytes@, length as nat, complexity),
        random_bytes@.len() > 0 ==> r@.len() == length,
{
    let mut out = String::new();
    let m = random_bytes.len();
    if m == 0 {
        proof {
            assert(out@ =~= spec_password(random_bytes@, length as nat, complexity));
        }
        return out;
    }
    let alpha = alphabet_chars(complexity);
    let a = alpha.len();
    let mut i: usize = 0;
    while i < length
        invariant
            0 < m == random_bytes@.len(),
            0 < a == alpha@.len(),
            alpha@ == spec_alphabet(complexity),
            i <= length,
            out@ == spec_password(random_bytes@, i as nat, complexity),
        decreases length - i,
    {
        let b = *slice_index_get(random_bytes, i % m);
        let idx = (b as usize) % a;
        let c = alpha[idx];
        push_char(&mut out, c);
        proof {
            assert(out@ =~= spec_password(random_bytes@, (i + 1) as nat, complexity));
        }
        i = i + 1;
    }
    out
}

/// Every character of a derived password is drawn from the alphabet that the
/// complexity code selects.
pub proof fn lemma_password_alphabet(seed: Seq<u8>, length: nat, complexity: u8)
    ensures
        forall|i: int|
            0 <= i < spec_password(seed, length, complexity).len() ==> spec_alphabet(
                complexity,
            ).contains(#[trigger] spec_password(seed, length, complexity)[i]),
{
    let a = spec_alphabet(complexity);
    let p = spec_password(seed, length, complexity);
    assert forall|i: int| 0 <= i < p.len() implies a.contains(#[trigger] p[i]) by {
        let idx = (seed[i % seed.len() as int] as int) % (a.len() as int);
        assert(0 <= idx < a.len());
        assert(a[idx] == p[i]);
    }
}

/// A derived password from a non-empty seed has exactly the requested length.
pub proof fn lemma_password_length(seed: Seq<u8>, length: nat, complexity: u8)
    requires
        seed.len() > 0,
    ensures
        spec_password(seed, length, complexity).len() == length,
{
}

} // verus!
