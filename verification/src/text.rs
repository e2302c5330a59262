use vstd::prelude::*;
use vstd::std_specs::iter::IteratorSpec;

verus! {

/// Decimal digit for `d < 10`.
pub open spec fn digit_char(d: nat) -> char {
    if d == 0 { '0' }
    else if d == 1 { '1' }
    else if d == 2 { '2' }
    else if d == 3 { '3' }
    else if d == 4 { '4' }
    else if d == 5 { '5' }
    else if d == 6 { '6' }
    else if d == 7 { '7' }
    else if d == 8 { '8' }
    else { '9' }
}

/// Decimal representation of a natural number, without leading zeros.
pub open spec fn decimal(n: nat) -> Seq<char>
    decreases n,
{
    if n < 10 {
        seq![digit_char(n)]
    } else {
        decimal(n / 10).push(digit_char(n % 10))
    }
}

/// Decimal representation of an integer, with a leading `-` when negative.
pub open spec fn signed_decimal(i: int) -> Seq<char> {
    if i < 0 {
        seq!['-'] + decimal((-i) as nat)
    } else {
        decimal(i as nat)
    }
}

/// Appends a character to a string.
#[verifier::external_body]
pub fn push_char(s: &mut String, c: char)
    ensures
        final(s)@ == old(s)@.push(c),
{
    s.push(c);
}

fn digit(d: u8) -> (c: char)
    requires
        d < 10,
    ensures
        c == digit_char(d as nat),
{
    if d == 0 { '0' }
    else if d == 1 { '1' }
    else if d == 2 { '2' }
    else if d == 3 { '3' }
    else if d == 4 { '4' }
    else if d == 5 { '5' }
    else if d == 6 { '6' }
    else if d == 7 { '7' }
    else if d == 8 { '8' }
    else { '9' }
}

/// Appends the decimal representation of `n` to `s`.
pub fn push_decimal(s: &mut String, n: u128)
    ensures
        final(s)@ == old(s)@ + decimal(n as nat),
    decreases n,
{
    if n >= 10 {
        push_decimal(s, n / 10);
        push_char(s, digit((n % 10) as u8));
        assert(decimal(n as nat) == decimal((n / 10) as nat).push(digit_char((n % 10) as nat)));
        assert(final(s)@ =~= old(s)@ + decimal(n as nat));
    } else {
        push_char(s, digit(n as u8));
        assert(decimal(n as nat) == seq![digit_char(n as nat)]);
        assert(final(s)@ =~= old(s)@ + decimal(n as nat));
    }
}

/// Decimal representation of `n`.
pub fn to_decimal(n: u128) -> (r: String)
    ensures
        r@ == decimal(n as nat),
{
    let mut s = String::new();
    push_decimal(&mut s, n);
    assert(s@ =~= decimal(n as nat));
    s
}

/// Decimal representation of a signed integer.
pub fn i64_to_decimal(i: i64) -> (r: String)
    ensures
        r@ == signed_decimal(i as int),
{
    let mut s = String::new();
    if i < 0 {
        push_char(&mut s, '-');
        let m: u128 = if i == i64::MIN { 9223372036854775808u128 } else { (-i) as u128 };
        push_decimal(&mut s, m);
    } else {
        push_decimal(&mut s, i as u128);
    }
    assert(s@ =~= signed_decimal(i as int));
    s
}

/// Concatenation of two strings.
pub fn concat(a: &str, b: &str) -> (r: String)
    ensures
        r@ == a@ + b@,
{
    let mut s = String::from_str(a);
    s.append(b);
    s
}

/// Characters of a string.
pub fn chars_of(s: &str) -> (r: Vec<char>)
    ensures
        r@ == s@,
{
    broadcast use vstd::string::axiom_spec_iter;
    let mut out: Vec<char> = Vec::new();
    let mut it = s.chars();
    let ghost all = s@;
    let ghost mut done: int = 0;
    loop
        invariant
            0 <= done <= all.len(),
            it.remaining() == all.subrange(done, all.len() as int),
            out@ == all.subrange(0, done),
        ensures
            out@ == all,
        decreases all.len() - done,
    {
        match it.next() {
            Some(c) => {
                proof { assert(c == all[done]); }
                out.push(c);
                proof {
                    assert(out@ =~= all.subrange(0, done + 1));
                    done = done + 1;
                }
            },
            None => {
                proof { assert(all.subrange(0, done) =~= all); }
                break;
            },
        }
    }
    out
}

/// The character is ASCII: a single byte in UTF-8.
pub open spec fn is_ascii_char(c: char) -> bool {
    (c as u32) < 128
}

/// The digits of a hexadecimal literal, without its `0x` prefix, keeping a leading `-`.
pub open spec fn hex_digits(s: Seq<char>) -> Seq<char> {
    if s[0] == '-' { seq!['-'] + s.subrange(3, s.len() as int) } else { s.subrange(2, s.len() as int) }
}

/// Removes the `0x` prefix of a hexadecimal literal, after its sign if any.
pub fn remove_hex_prefix(string: &str) -> (r: String)
    requires
        string@.len() >= 2,
        is_ascii_char(string@[0]),
        is_ascii_char(string@[1]),
        string@[0] == '-' ==> string@.len() >= 3 && is_ascii_char(string@[2]),
    ensures
        r@ == hex_digits(string@),
{
    let chars = chars_of(string);
    let mut out = String::new();
    let start: usize = if chars[0] == '-' {
        push_char(&mut out, '-');
        3
    } else {
        2
    };
    let ghost head = out@;
    for i in start..chars.len()
        invariant
            chars@ == string@,
            start <= chars@.len(),
            out@ == head + chars@.subrange(start as int, i as int),
    {
        push_char(&mut out, chars[i]);
        assert(out@ =~= head + chars@.subrange(start as int, i + 1));
    }
    assert(out@ =~= hex_digits(string@));
    out
}

} // verus!
