//! Characters, their UTF-8 byte widths, and building strings one character at a time.

use vstd::prelude::*;
use vstd::utf8::*;

verus! {

/// How many bytes the UTF-8 encoding of `c` takes.
pub open spec fn char_width(c: char) -> nat {
    let u = c as u32;
    if u <= 0x7F {
        1
    } else if u <= 0x7FF {
        2
    } else if u <= 0xFFFF {
        3
    } else {
        4
    }
}

/// How many bytes the UTF-8 encoding of `s` takes: what `str::len` reports.
pub open spec fn byte_len(s: Seq<char>) -> nat
    decreases s.len(),
{
    if s.len() == 0 {
        0
    } else {
        byte_len(s.drop_last()) + char_width(s.last())
    }
}

/// The byte length of a concatenation is the sum of the byte lengths.
pub proof fn lemma_byte_len_concat(a: Seq<char>, b: Seq<char>)
    ensures
        byte_len(a + b) == byte_len(a) + byte_len(b),
    decreases b.len(),
{
    if b.len() == 0 {
        assert(a + b =~= a);
    } else {
        assert((a + b).drop_last() =~= a + b.drop_last());
        lemma_byte_len_concat(a, b.drop_last());
    }
}

/// A prefix never takes more bytes than the whole.
pub proof fn lemma_byte_len_prefix(s: Seq<char>, i: int)
    requires
        0 <= i <= s.len(),
    ensures
        byte_len(s.take(i)) <= byte_len(s),
        i <= byte_len(s.take(i)),
{
    lemma_byte_len_concat(s.take(i), s.skip(i));
    assert(s.take(i) + s.skip(i) =~= s);
    lemma_byte_len_at_least_len(s.take(i));
}

/// Every character takes at least one byte.
pub proof fn lemma_byte_len_at_least_len(s: Seq<char>)
    ensures
        s.len() <= byte_len(s),
    decreases s.len(),
{
    if s.len() > 0 {
        lemma_byte_len_at_least_len(s.drop_last());
    }
}

/// Taking one more character adds that character's width.
pub proof fn lemma_byte_len_take_next(s: Seq<char>, i: int)
    requires
        0 <= i < s.len(),
    ensures
        byte_len(s.take(i + 1)) == byte_len(s.take(i)) + char_width(s[i]),
{
    assert(s.take(i + 1).drop_last() =~= s.take(i));
}

/// A sequence of one-byte characters takes as many bytes as it has characters.
pub proof fn lemma_byte_len_ascii(s: Seq<char>)
    requires
        forall|i: int| 0 <= i < s.len() ==> (s[i] as u32) <= 0x7F,
    ensures
        byte_len(s) == s.len(),
    decreases s.len(),
{
    if s.len() > 0 {
        lemma_byte_len_ascii(s.drop_last());
    }
}

pub proof fn lemma_encode_utf8_concat(a: Seq<char>, b: Seq<char>)
    ensures
        encode_utf8(a + b) == encode_utf8(a) + encode_utf8(b),
    decreases a.len(),
{
    if a.len() == 0 {
        assert(a + b =~= b);
        assert(encode_utf8(a) =~= Seq::<u8>::empty());
        assert(encode_utf8(a) + encode_utf8(b) =~= encode_utf8(b));
    } else {
        assert((a + b).drop_first() =~= a.drop_first() + b);
        lemma_encode_utf8_concat(a.drop_first(), b);
        assert(encode_utf8(a + b) =~= encode_scalar(a[0] as u32) + encode_utf8(a.drop_first() + b));
    }
}

/// `byte_len` agrees with the length of vstd's UTF-8 encoding.
pub proof fn lemma_byte_len_is_encoded_len(s: Seq<char>)
    ensures
        encode_utf8(s).len() == byte_len(s),
    decreases s.len(),
{
    if s.len() > 0 {
        let c = s.last();
        lemma_byte_len_is_encoded_len(s.drop_last());
        assert(s.drop_last() + seq![c] =~= s);
        lemma_encode_utf8_concat(s.drop_last(), seq![c]);
        assert(seq![c].drop_first() =~= Seq::<char>::empty());
        assert(encode_utf8(Seq::<char>::empty()) =~= Seq::<u8>::empty());
        assert(encode_utf8(seq![c]) =~= encode_scalar(c as u32));
        char_is_scalar(c);
    }
}

/// The width of one character, as `char::len_utf8` computes it.
pub fn utf8_width(c: char) -> (w: usize)
    ensures
        w == char_width(c),
        1 <= w <= 4,
{
    let u = c as u32;
    if u <= 0x7F {
        1
    } else if u <= 0x7FF {
        2
    } else if u <= 0xFFFF {
        3
    } else {
        4
    }
}

/// Appends one character to a string.
///
/// Calls `String::push`, which the standard library documents as appending the given `char` to
/// the end of the string; the contract says exactly that of the string's characters.
#[verifier::external_body]
pub(crate) fn push_char(s: &mut String, c: char)
    ensures
        final(s)@ == old(s)@.push(c),
{
    s.push(c);
}

/// What `{:?}` prints for a character: the character in single quotes, escaped where needed.
pub uninterp spec fn char_debug(c: char) -> Seq<char>;

/// Formats a character the way `Debug` does.
///
/// Calls `<char as Debug>::fmt` through `format!`. Its escaping rules depend on Unicode tables,
/// so the contract only names the result, as a function of the character alone.
#[verifier::external_body]
pub(crate) fn debug_char(c: char) -> (r: String)
    ensures
        r@ == char_debug(c),
{
    format!("{c:?}")
}

/// The characters of a string slice, in order.
pub fn chars_of(s: &str) -> (v: Vec<char>)
    ensures
        v@ == s@,
{
    broadcast use vstd::string::group_string_axioms;

    let mut v: Vec<char> = Vec::new();
    for c in it: s.chars()
        invariant
            it.seq() == s@,
            v@ == s@.take(it.index() as int),
    {
        assert(s@.take(it.index() + 1) =~= v@.push(c));
        v.push(c);
    }
    assert(s@.take(s@.len() as int) =~= s@);
    v
}

/// A string holding `chars[from..to]`.
pub fn string_of(chars: &Vec<char>, from: usize, to: usize) -> (r: String)
    requires
        from <= to <= chars.len(),
    ensures
        r@ == chars@.subrange(from as int, to as int),
{
    let mut r = String::new();
    let mut i = from;
    while i < to
        invariant
            from <= i <= to <= chars.len(),
            r@ == chars@.subrange(from as int, i as int),
        decreases to - i,
    {
        push_char(&mut r, chars[i]);
        assert(chars@.subrange(from as int, i + 1) =~= chars@.subrange(from as int, i as int).push(
            chars@[i as int],
        ));
        i += 1;
    }
    r
}

/// Appends every character of `tail` to `s`.
pub fn push_str(s: &mut String, tail: &str)
    ensures
        final(s)@ == old(s)@ + tail@,
{
    let chars = chars_of(tail);
    let mut i: usize = 0;
    while i < chars.len()
        invariant
            i <= chars.len(),
            chars@ == tail@,
            s@ == old(s)@ + tail@.take(i as int),
        decreases chars.len() - i,
    {
        push_char(s, chars[i]);
        assert(tail@.take(i + 1) =~= tail@.take(i as int).push(tail@[i as int]));
        i += 1;
    }
    assert(tail@.take(chars.len() as int) =~= tail@);
}

/// The characters with the Unicode `White_Space` property, which `char::is_whitespace` tests for.
pub open spec fn is_white_space(c: char) -> bool {
    let u = c as u32;
    ||| 0x09 <= u <= 0x0D
    ||| u == 0x20
    ||| u == 0x85
    ||| u == 0xA0
    ||| u == 0x1680
    ||| 0x2000 <= u <= 0x200A
    ||| u == 0x2028
    ||| u == 0x2029
    ||| u == 0x202F
    ||| u == 0x205F
    ||| u == 0x3000
}

/// Whether a line holds nothing but white space, so that trimming it leaves it empty.
pub fn is_blank(line: &str) -> (r: bool)
    ensures
        r == forall|i: int| 0 <= i < line@.len() ==> is_white_space(#[trigger] line@[i]),
{
    let chars = chars_of(line);
    let mut i: usize = 0;
    while i < chars.len()
        invariant
            i <= chars.len(),
            chars@ == line@,
            forall|j: int| 0 <= j < i ==> is_white_space(#[trigger] line@[j]),
        decreases chars.len() - i,
    {
        let u = chars[i] as u32;
        let white = (0x09 <= u && u <= 0x0D) || u == 0x20 || u == 0x85 || u == 0xA0 || u == 0x1680
            || (0x2000 <= u && u <= 0x200A) || u == 0x2028 || u == 0x2029 || u == 0x202F || u
            == 0x205F || u == 0x3000;
        if !white {
            return false;
        }
        i += 1;
    }
    true
}

/// The decimal digit for `d`.
pub open spec fn digit(d: nat) -> char {
    if d == 0 {
        '0'
    } else if d == 1 {
        '1'
    } else if d == 2 {
        '2'
    } else if d == 3 {
        '3'
    } else if d == 4 {
        '4'
    } else if d == 5 {
        '5'
    } else if d == 6 {
        '6'
    } else if d == 7 {
        '7'
    } else if d == 8 {
        '8'
    } else {
        '9'
    }
}

/// The decimal representation of `n`, as `Display` and `Debug` print an unsigned integer.
pub open spec fn decimal(n: nat) -> Seq<char>
    decreases n,
{
    if n < 10 {
        seq![digit(n)]
    } else {
        decimal(n / 10).push(digit(n % 10))
    }
}

fn digit_char(d: usize) -> (c: char)
    requires
        d < 10,
    ensures
        c == digit(d as nat),
{
    if d == 0 {
        '0'
    } else if d == 1 {
        '1'
    } else if d == 2 {
        '2'
    } else if d == 3 {
        '3'
    } else if d == 4 {
        '4'
    } else if d == 5 {
        '5'
    } else if d == 6 {
        '6'
    } else if d == 7 {
        '7'
    } else if d == 8 {
        '8'
    } else {
        '9'
    }
}

/// Appends the decimal representation of `n` to `s`.
pub fn push_decimal(s: &mut String, n: usize)
    ensures
        final(s)@ == old(s)@ + decimal(n as nat),
{
    // Digits are produced least significant first, then written out in reverse.
    let mut low_first: Vec<char> = Vec::new();
    let mut m: usize = n;
    while m >= 10
        invariant
            decimal(n as nat) == decimal(m as nat) + low_first@.reverse(),
        decreases m,
    {
        let d = m % 10;
        let c = digit_char(d);
        assert(decimal(m as nat) == decimal((m / 10) as nat).push(c));
        assert(low_first@.push(c).reverse() =~= seq![c] + low_first@.reverse());
        assert(decimal((m / 10) as nat).push(c) + low_first@.reverse() =~= decimal(
            (m / 10) as nat,
        ) + (seq![c] + low_first@.reverse()));
        low_first.push(c);
        m = m / 10;
    }
    let c = digit_char(m);
    push_char(s, c);
    let mut i = low_first.len();
    while i > 0
        invariant
            i <= low_first.len(),
            decimal(n as nat) == seq![c] + low_first@.reverse(),
            s@ == old(s)@ + seq![c] + low_first@.reverse().take(low_first.len() - i),
        decreases i,
    {
        i -= 1;
        push_char(s, low_first[i]);
        assert(low_first@.reverse().take(low_first.len() - i) =~= low_first@.reverse().take(
            low_first.len() - i - 1,
        ).push(low_first@[i as int]));
    }
    assert(low_first@.reverse().take(low_first.len() as int) =~= low_first@.reverse());
    assert(old(s)@ + seq![c] + low_first@.reverse() =~= old(s)@ + (seq![c]
        + low_first@.reverse()));
}

} // verus!
