//! Small verified building blocks for assembling text.

use vstd::prelude::*;
use vstd::string::StringExecFns;

verus! {

/// Appends one character to a string.
///
/// Trusted: calls `String::push`, which std documents as appending the given
/// `char` to the end of the string.
#[verifier::external_body]
pub(crate) fn push_char(s: &mut String, c: char)
    ensures
        final(s)@ == old(s)@.push(c),
{
    s.push(c);
}

/// Appends a string slice to a string.
pub fn push_str(s: &mut String, other: &str)
    ensures
        final(s)@ == old(s)@ + other@,
{
    s.append(other);
}

/// The characters of `s`, collected into a vector.
pub fn chars_of(s: &str) -> (res: Vec<char>)
    ensures
        res@ == s@,
{
    let mut res: Vec<char> = Vec::new();
    for c in it: s.chars()
        invariant
            res@ == it.seq().take(it.index()),
            it.seq() == s@,
    {
        res.push(c);
    }
    res
}

} // verus!

verus! {

/// Whether two strings hold the same characters.
pub fn same_text(a: &str, b: &str) -> (res: bool)
    ensures
        res == (a@ == b@),
{
    let x = chars_of(a);
    let y = chars_of(b);
    if x.len() != y.len() {
        return false;
    }
    let mut i: usize = 0;
    while i < x.len()
        invariant
            x@ == a@,
            y@ == b@,
            x.len() == y.len(),
            i <= x.len(),
            forall|j: int| 0 <= j < i ==> x@[j] == y@[j],
        decreases x.len() - i,
    {
        if x[i] != y[i] {
            return false;
        }
        i = i + 1;
    }
    assert(x@ == y@);
    true
}

} // verus!

verus! {

/// The character of a decimal digit.
pub open spec fn digit_char(d: nat) -> char {
    if d == 0 { '0' }
    else if d == 1 { '1' }
    else if d == 2 { '2' }
    else if d == 3 { '3' }
    else if d == 4 { '4' }
    else if d == 5 { '5' }
    else if d == 6 { '6' }
    else if d == 7 { '7' }
    else if d == 8 { '8' }
    else { '9' }
}

/// The character of a decimal digit.
pub fn digit(d: u128) -> (c: char)
    requires
        d < 10,
    ensures
        c == digit_char(d as nat),
{
    if d == 0 { '0' }
    else if d == 1 { '1' }
    else if d == 2 { '2' }
    else if d == 3 { '3' }
    else if d == 4 { '4' }
    else if d == 5 { '5' }
    else if d == 6 { '6' }
    else if d == 7 { '7' }
    else if d == 8 { '8' }
    else { '9' }
}

/// The decimal representation of `n`, without leading zeros.
pub open spec fn decimal(n: nat) -> Seq<char>
    decreases n,
{
    if n < 10 {
        seq![digit_char(n)]
    } else {
        decimal(n / 10).push(digit_char(n % 10))
    }
}

/// Writes `n` in decimal.
pub fn decimal_text(n: u128) -> (res: String)
    ensures
        res@ == decimal(n as nat),
{
    // Digits from least to most significant.
    let mut digits: Vec<char> = Vec::new();
    let mut m: u128 = n;
    let ghost mut tail: Seq<char> = seq![];
    loop
        invariant_except_break
            decimal(n as nat) == decimal(m as nat) + tail,
        invariant
            digits@.len() == tail.len(),
            forall|j: int| 0 <= j < tail.len() ==> #[trigger] digits@[j] == tail[tail.len() - 1 - j],
        ensures
            decimal(n as nat) == tail,
        decreases m,
    {
        if m < 10 {
            let c = digit(m);
            digits.push(c);
            proof {
                tail = seq![c] + tail;
            }
            break;
        }
        let d = m % 10;
        let c = digit(d);
        proof {
            assert(decimal((m / 10) as nat).push(c) + tail == decimal((m / 10) as nat) + (seq![c] + tail));
        }
        digits.push(c);
        proof {
            tail = seq![c] + tail;
        }
        m = m / 10;
    }
    let mut res = String::new();
    let mut k: usize = digits.len();
    while k > 0
        invariant
            k <= digits.len(),
            digits@.len() == tail.len(),
            forall|j: int| 0 <= j < tail.len() ==> #[trigger] digits@[j] == tail[tail.len() - 1 - j],
            res@ == tail.take(digits.len() - k),
        decreases k,
    {
        k = k - 1;
        push_char(&mut res, digits[k]);
    }
    res
}

} // verus!

verus! {

/// A character with the Unicode `White_Space` property.
pub open spec fn white_space(c: char) -> bool {
    let u = c as u32;
    ||| 9 <= u <= 13
    ||| u == 0x20
    ||| u == 0x85
    ||| u == 0xA0
    ||| u == 0x1680
    ||| 0x2000 <= u <= 0x200A
    ||| u == 0x2028
    ||| u == 0x2029
    ||| u == 0x202F
    ||| u == 0x205F
    ||| u == 0x3000
}

/// `s` without its leading white space.
pub open spec fn trimmed_start(s: Seq<char>) -> Seq<char>
    decreases s.len(),
{
    if s.len() > 0 && white_space(s[0]) {
        trimmed_start(s.skip(1))
    } else {
        s
    }
}

/// `s` without its trailing white space.
pub open spec fn trimmed_end(s: Seq<char>) -> Seq<char>
    decreases s.len(),
{
    if s.len() > 0 && white_space(s.last()) {
        trimmed_end(s.drop_last())
    } else {
        s
    }
}

/// `s` without its leading and trailing white space.
pub open spec fn trimmed(s: Seq<char>) -> Seq<char> {
    trimmed_end(trimmed_start(s))
}

/// Trims white space from both ends of a string.
///
/// Trusted: calls `str::trim`, which std documents as removing the leading
/// and trailing characters that have the Unicode `White_Space` property;
/// `white_space` lists the code points that Unicode gives that property.
#[verifier::external_body]
pub(crate) fn trim(s: &str) -> (res: &str)
    ensures
        res@ == trimmed(s@),
{
    s.trim()
}

} // verus!

verus! {

/// The character of a lower-case hexadecimal digit.
pub open spec fn hex_char(d: nat) -> char {
    if d < 10 {
        digit_char(d)
    } else if d == 10 {
        'a'
    } else if d == 11 {
        'b'
    } else if d == 12 {
        'c'
    } else if d == 13 {
        'd'
    } else if d == 14 {
        'e'
    } else {
        'f'
    }
}

/// The lower-case hexadecimal representation of `n`, without leading zeros.
pub open spec fn hex_lower(n: nat) -> Seq<char>
    decreases n,
{
    if n < 16 {
        seq![hex_char(n)]
    } else {
        hex_lower(n / 16).push(hex_char(n % 16))
    }
}

fn hex_digit(d: u16) -> (c: char)
    requires
        d < 16,
    ensures
        c == hex_char(d as nat),
{
    if d < 10 {
        digit(d as u128)
    } else if d == 10 {
        'a'
    } else if d == 11 {
        'b'
    } else if d == 12 {
        'c'
    } else if d == 13 {
        'd'
    } else if d == 14 {
        'e'
    } else {
        'f'
    }
}

/// Appends `n` in lower-case hexadecimal.
pub fn push_hex(s: &mut String, n: u16)
    ensures
        final(s)@ == old(s)@ + hex_lower(n as nat),
{
    let mut digits: Vec<char> = Vec::new();
    let mut m: u16 = n;
    let ghost mut tail: Seq<char> = seq![];
    loop
        invariant_except_break
            hex_lower(n as nat) == hex_lower(m as nat) + tail,
        invariant
            digits@.len() == tail.len(),
            forall|j: int| 0 <= j < tail.len() ==> #[trigger] digits@[j] == tail[tail.len() - 1 - j],
        ensures
            hex_lower(n as nat) == tail,
        decreases m,
    {
        if m < 16 {
            let c = hex_digit(m);
            digits.push(c);
            proof {
                tail = seq![c] + tail;
            }
            break;
        }
        let c = hex_digit(m % 16);
        proof {
            assert(hex_lower((m / 16) as nat).push(c) + tail == hex_lower((m / 16) as nat) + (seq![c] + tail));
        }
        digits.push(c);
        proof {
            tail = seq![c] + tail;
        }
        m = m / 16;
    }
    let ghost start = s@;
    let mut k: usize = digits.len();
    while k > 0
        invariant
            k <= digits.len(),
            digits@.len() == tail.len(),
            forall|j: int| 0 <= j < tail.len() ==> #[trigger] digits@[j] == tail[tail.len() - 1 - j],
            s@ == start + tail.take(digits.len() - k),
        decreases k,
    {
        k = k - 1;
        push_char(s, digits[k]);
    }
}

/// Trimmed text starts and ends with a character that is not white space.
pub proof fn lemma_trimmed_ends(s: Seq<char>)
    ensures
        trimmed(s).len() > 0 ==> !white_space(trimmed(s)[0]) && !white_space(trimmed(s).last()),
    decreases s.len(),
{
    lemma_trimmed_start(s);
    lemma_trimmed_end(trimmed_start(s));
}

proof fn lemma_trimmed_start(s: Seq<char>)
    ensures
        trimmed_start(s).len() > 0 ==> !white_space(trimmed_start(s)[0]),
    decreases s.len(),
{
    if s.len() > 0 && white_space(s[0]) {
        lemma_trimmed_start(s.skip(1));
    }
}

proof fn lemma_trimmed_end(s: Seq<char>)
    ensures
        trimmed_end(s).len() > 0 ==> !white_space(trimmed_end(s).last()),
        trimmed_end(s).len() > 0 && s.len() > 0 && !white_space(s[0]) ==> trimmed_end(s)[0] == s[0],
        trimmed_end(s).len() <= s.len(),
    decreases s.len(),
{
    if s.len() > 0 && white_space(s.last()) {
        lemma_trimmed_end(s.drop_last());
        if trimmed_end(s).len() > 0 && !white_space(s[0]) {
            assert(s.drop_last()[0] == s[0]);
        }
    }
}

} // verus!
