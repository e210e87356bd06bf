use vstd::prelude::*;

verus! {

/// The decimal digit `d` (below ten) as a character.
pub open spec fn digit_char(d: nat) -> char
    recommends
        d < 10,
{
    ((48 + d) as u8) as char
}

/// The decimal digits of `n`, most significant first.
pub open spec fn dec_digits(n: nat) -> Seq<char>
    decreases n,
{
    if n < 10 {
        seq![digit_char(n)]
    } else {
        dec_digits(n / 10).push(digit_char(n % 10))
    }
}

/// The decimal digits of `i`, with a leading minus sign when negative.
pub open spec fn int_digits(i: int) -> Seq<char> {
    if i < 0 {
        seq!['-'] + dec_digits((-i) as nat)
    } else {
        dec_digits(i as nat)
    }
}

/// Relies on std's `String: FromIterator<char>`: the collected string holds
/// exactly the characters of the vector, in order.
#[verifier::external_body]
pub(crate) fn chars_to_string(v: &Vec<char>) -> (r: String)
    ensures
        r@ == v@,
{
    String::from_iter(v.iter().copied())
}

/// Relies on `str::chars`: the iterator yields exactly the string's
/// characters, in order.
#[verifier::external_body]
pub(crate) fn str_to_chars(s: &str) -> (r: Vec<char>)
    ensures
        r@ == s@,
{
    s.chars().collect()
}

fn digit_char_exec(d: u64) -> (c: char)
    requires
        d < 10,
    ensures
        c == digit_char(d as nat),
{
    (48 + d as u8) as char
}

/// Appends the decimal digits of `n` to `out`.
pub fn push_dec_digits(n: u64, out: &mut Vec<char>)
    ensures
        final(out)@ == old(out)@ + dec_digits(n as nat),
    decreases n,
{
    if n < 10 {
        out.push(digit_char_exec(n));
    } else {
        push_dec_digits(n / 10, out);
        out.push(digit_char_exec(n % 10));
    }
}

/// Appends the decimal form of `i` to `out`, minus sign included.
pub fn push_int_digits(i: i64, out: &mut Vec<char>)
    ensures
        final(out)@ == old(out)@ + int_digits(i as int),
{
    if i < 0 {
        out.push('-');
        let mag: u64 = ((-(i + 1)) as u64) + 1;
        assert(mag == -(i as int));
        push_dec_digits(mag, out);
    } else {
        push_dec_digits(i as u64, out);
    }
}

/// The numeric value of a sequence of decimal digit characters.
pub open spec fn dec_val(s: Seq<char>) -> int
    decreases s.len(),
{
    if s.len() == 0 {
        0
    } else {
        dec_val(s.drop_last()) * 10 + (s.last() as int - 48)
    }
}

/// Whether every character of `s` is a decimal digit.
pub open spec fn all_digits(s: Seq<char>) -> bool {
    forall|i: int| 0 <= i < s.len() ==> '0' <= #[trigger] s[i] <= '9'
}

/// Writing a number and reading the digits back yields the number.
pub proof fn lemma_dec_digits_val(n: nat)
    ensures
        dec_val(dec_digits(n)) == n,
        all_digits(dec_digits(n)),
        dec_digits(n).len() >= 1,
        dec_digits(n).first() != '0' || n < 10,
    decreases n,
{
    if n < 10 {
        let s = seq![digit_char(n)];
        assert(dec_digits(n) == s);
        assert(s.drop_last() == Seq::<char>::empty());
        assert(digit_char(n) as int == 48 + n);
        assert(dec_val(s) == dec_val(s.drop_last()) * 10 + (s.last() as int - 48));
    } else {
        lemma_dec_digits_val(n / 10);
        let s = dec_digits(n);
        assert(s.drop_last() == dec_digits(n / 10));
        assert(s.last() == digit_char(n % 10));
    }
}

} // verus!

verus! {

/// Compares two strings by their characters.
pub fn str_eq(a: &str, b: &str) -> (r: bool)
    ensures
        r == (a@ == b@),
{
    let av = str_to_chars(a);
    let bv = str_to_chars(b);
    if av.len() != bv.len() {
        return false;
    }
    let mut i: usize = 0;
    while i < av.len()
        invariant
            i <= av.len(),
            av@.len() == bv@.len(),
            av@ == a@,
            bv@ == b@,
            forall|j: int| 0 <= j < i ==> av@[j] == bv@[j],
        decreases av.len() - i,
    {
        if av[i] != bv[i] {
            return false;
        }
        i += 1;
    }
    proof {
        assert(a@ =~= b@);
    }
    true
}

} // verus!

verus! {

/// Clones a list of strings, value for value.
pub fn clone_strings(v: &Vec<String>) -> (r: Vec<String>)
    ensures
        r@ == v@,
{
    let mut out: Vec<String> = Vec::new();
    let mut i: usize = 0;
    while i < v.len()
        invariant
            i <= v.len(),
            out@ =~= v@.take(i as int),
        decreases v.len() - i,
    {
        out.push(v[i].clone());
        proof {
            assert(out@ =~= v@.take(i as int + 1));
        }
        i += 1;
    }
    proof {
        assert(v@.take(v.len() as int) =~= v@);
    }
    out
}

} // verus!

verus! {

/// Clones a list of bytes.
pub fn clone_bytes(v: &Vec<u8>) -> (r: Vec<u8>)
    ensures
        r@ == v@,
{
    let mut out: Vec<u8> = Vec::new();
    let mut i: usize = 0;
    while i < v.len()
        invariant
            i <= v.len(),
            out@ =~= v@.take(i as int),
        decreases v.len() - i,
    {
        out.push(v[i]);
        proof {
            assert(out@ =~= v@.take(i as int + 1));
        }
        i += 1;
    }
    proof {
        assert(v@.take(v.len() as int) =~= v@);
    }
    out
}

} // verus!
