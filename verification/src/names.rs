//! Bucket names, keys and values, and the rules that decide which strings can be any of them.

use vstd::prelude::*;
use vstd::std_specs::cmp::PartialEqSpecImpl;

use crate::text::{
    byte_len, chars_of, decimal, push_decimal, push_str, lemma_byte_len_ascii, lemma_byte_len_is_encoded_len, lemma_byte_len_prefix,
    lemma_byte_len_take_next, string_of, utf8_width,
};

verus! {

/// The longest a bucket name or a key may be, in bytes.
pub const MAX_NAME_LENGTH: usize = 64;

/// The longest a value may be, in bytes.
pub const MAX_VALUE_LENGTH: usize = 4096;

/// What can go wrong when parsing a bucket name or a key.
#[derive(Debug, PartialEq, Eq, Structural, Clone, Copy)]
pub enum NameError {
    Empty,
    TooLong { length: usize },
    InvalidCharacter { character: char, index: usize },
}

/// What can go wrong when parsing a value.
#[derive(Debug, PartialEq, Eq, Structural, Clone, Copy)]
pub enum ValueError {
    TooLong { length: usize },
    Newline { index: usize },
}

/// An ASCII letter or digit, as `char::is_ascii_alphanumeric` documents it: `'A'..='Z'`,
/// `'a'..='z'` or `'0'..='9'`.
pub open spec fn is_ascii_alphanumeric(c: char) -> bool {
    ||| 'A' <= c <= 'Z'
    ||| 'a' <= c <= 'z'
    ||| '0' <= c <= '9'
}

/// The characters a name may hold: ASCII letters and digits, `-`, `_`, `.` and `/`.
pub open spec fn is_name_char(c: char) -> bool {
    let u = c as u32;
    ||| 0x61 <= u <= 0x7A  // a-z
    ||| 0x41 <= u <= 0x5A  // A-Z
    ||| 0x30 <= u <= 0x39  // 0-9
    ||| c == '-'
    ||| c == '_'
    ||| c == '.'
    ||| c == '/'
}

/// A name may hold exactly the ASCII letters and digits and the four marks `-`, `_`, `.`, `/`.
pub proof fn law_is_valid_char(c: char)
    ensures
        is_name_char(c) == (is_ascii_alphanumeric(c) || c == '-' || c == '_' || c == '.' || c
            == '/'),
        is_name_char('a') && is_name_char('Z') && is_name_char('7') && is_name_char('/'),
        !is_name_char(' ') && !is_name_char('*') && !is_name_char(':') && !is_name_char('é'),
{
}

/// `i` is where the first character that no name may hold stands in `s`.
pub open spec fn is_first_non_name_char(s: Seq<char>, i: int) -> bool {
    &&& 0 <= i < s.len()
    &&& !is_name_char(s[i])
    &&& forall|j: int| 0 <= j < i ==> is_name_char(#[trigger] s[j])
}

/// Every character of `s` is one a name may hold.
pub open spec fn all_name_chars(s: Seq<char>) -> bool {
    forall|i: int| 0 <= i < s.len() ==> is_name_char(#[trigger] s[i])
}

/// The outcome of parsing `s` as a bucket name or key. The index of a bad character is its byte
/// offset in `s`.
pub open spec fn parse_name_spec(s: Seq<char>) -> Result<Seq<char>, NameError> {
    if s.len() == 0 {
        Err(NameError::Empty)
    } else if byte_len(s) > MAX_NAME_LENGTH {
        Err(NameError::TooLong { length: byte_len(s) as usize })
    } else if !all_name_chars(s) {
        let i = choose|i: int| is_first_non_name_char(s, i);
        Err(NameError::InvalidCharacter { character: s[i], index: byte_len(s.take(i)) as usize })
    } else {
        Ok(s)
    }
}

/// A string that can be stored as a bucket name or a key.
pub open spec fn is_valid_name(s: Seq<char>) -> bool {
    parse_name_spec(s) is Ok
}

/// What `parse_name` does with a name: it is accepted, as itself, exactly when it is one to 64
/// bytes long and every character is one a name may hold. Otherwise the first check that fails
/// decides the error: empty, then too long (with the byte length), then the first bad character,
/// with its index, which is its byte offset too, since every character before it is ASCII.
pub proof fn law_parse_name(s: Seq<char>)
    ensures
        is_valid_name(s) <==> (1 <= s.len() && byte_len(s) <= MAX_NAME_LENGTH && all_name_chars(
            s,
        )),
        parse_name_spec(s) is Ok ==> parse_name_spec(s) == Ok::<Seq<char>, NameError>(s),
        s.len() == 0 ==> parse_name_spec(s) == Err::<Seq<char>, NameError>(NameError::Empty),
        1 <= s.len() && byte_len(s) > MAX_NAME_LENGTH ==> parse_name_spec(s) == Err::<
            Seq<char>,
            NameError,
        >(NameError::TooLong { length: byte_len(s) as usize }),
        forall|i: int|
            1 <= s.len() && byte_len(s) <= MAX_NAME_LENGTH && #[trigger] is_first_non_name_char(s, i)
                ==> parse_name_spec(s) == Err::<Seq<char>, NameError>(
                NameError::InvalidCharacter { character: s[i], index: i as usize },
            ),
{
    assert forall|i: int|
        1 <= s.len() && byte_len(s) <= MAX_NAME_LENGTH && #[trigger] is_first_non_name_char(s, i)
            implies parse_name_spec(s) == Err::<Seq<char>, NameError>(
            NameError::InvalidCharacter { character: s[i], index: i as usize },
        ) by {
        let k = choose|k: int| is_first_non_name_char(s, k);
        assert(k == i) by {
            if k < i {
                assert(is_name_char(s[k]));
            } else if k > i {
                assert(is_name_char(s[i]));
            }
        }
        assert forall|j: int| 0 <= j < s.take(i).len() implies (#[trigger] s.take(i)[j] as u32)
            <= 0x7F by {
            assert(is_name_char(s[j]));
            assert(s.take(i)[j] == s[j]);
        }
        lemma_byte_len_ascii(s.take(i));
        assert(!all_name_chars(s));
    }
}

/// `i` is where the first line break stands in `s`.
pub open spec fn is_first_line_break(s: Seq<char>, i: int) -> bool {
    &&& 0 <= i < s.len()
    &&& (s[i] == '\n' || s[i] == '\r')
    &&& forall|j: int| 0 <= j < i ==> #[trigger] s[j] != '\n' && s[j] != '\r'
}

/// `s` holds no line break.
pub open spec fn no_line_break(s: Seq<char>) -> bool {
    forall|i: int| 0 <= i < s.len() ==> #[trigger] s[i] != '\n' && s[i] != '\r'
}

/// The outcome of parsing `s` as a value. The index of a line break is its byte offset in `s`.
pub open spec fn parse_value_spec(s: Seq<char>) -> Result<Seq<char>, ValueError> {
    if byte_len(s) > MAX_VALUE_LENGTH {
        Err(ValueError::TooLong { length: byte_len(s) as usize })
    } else if !no_line_break(s) {
        let i = choose|i: int| is_first_line_break(s, i);
        Err(ValueError::Newline { index: byte_len(s.take(i)) as usize })
    } else {
        Ok(s)
    }
}

/// A string that can be stored as a value and survive a round trip over the wire.
pub open spec fn is_valid_value(s: Seq<char>) -> bool {
    parse_value_spec(s) is Ok
}

/// What `Value::parse` does with a value: it is accepted, as itself, exactly when it takes at most
/// 4096 bytes and holds neither `\n` nor `\r`, whatever else it holds. A value over the limit is
/// refused as too long, with its byte length; otherwise the first line break is reported, with its
/// byte offset.
pub proof fn law_parse_value(s: Seq<char>)
    ensures
        is_valid_value(s) <==> (byte_len(s) <= MAX_VALUE_LENGTH && forall|i: int|
            0 <= i < s.len() ==> #[trigger] s[i] != '\n' && s[i] != '\r'),
        is_valid_value(s) ==> parse_value_spec(s) == Ok::<Seq<char>, ValueError>(s),
        byte_len(s) > MAX_VALUE_LENGTH ==> parse_value_spec(s) == Err::<Seq<char>, ValueError>(
            ValueError::TooLong { length: byte_len(s) as usize },
        ),
        forall|i: int|
            byte_len(s) <= MAX_VALUE_LENGTH && 0 <= i < s.len() && (#[trigger] s[i] == '\n' || s[i]
                == '\r') && (forall|j: int| 0 <= j < i ==> s[j] != '\n' && s[j] != '\r')
                ==> parse_value_spec(s) == Err::<Seq<char>, ValueError>(
                ValueError::Newline { index: byte_len(s.take(i)) as usize },
            ),
{
    assert forall|i: int|
        byte_len(s) <= MAX_VALUE_LENGTH && 0 <= i < s.len() && (#[trigger] s[i] == '\n' || s[i]
            == '\r') && (forall|j: int| 0 <= j < i ==> s[j] != '\n' && s[j] != '\r')
            implies parse_value_spec(s) == Err::<Seq<char>, ValueError>(
            ValueError::Newline { index: byte_len(s.take(i)) as usize },
        ) by {
        assert(is_first_line_break(s, i));
        assert(!no_line_break(s));
        let k = choose|k: int| is_first_line_break(s, k);
        assert(k == i) by {
            if k < i {
                assert(s[k] != '\n' && s[k] != '\r');
            } else if k > i {
                assert(s[i] != '\n' && s[i] != '\r');
            }
        }
    }
}

/// Whether `c` may stand in a name.
fn is_valid_char(c: char) -> (r: bool)
    ensures
        r == is_name_char(c),
{
    let u = c as u32;
    (0x61 <= u && u <= 0x7A) || (0x41 <= u && u <= 0x5A) || (0x30 <= u && u <= 0x39) || c == '-'
        || c == '_' || c == '.' || c == '/'
}

/// Parses a bucket name or a key, rejecting anything `minidb` cannot store.
fn parse_name(raw: &str) -> (r: Result<String, NameError>)
    requires
        byte_len(raw@) <= usize::MAX,
    ensures
        match r {
            Ok(s) => parse_name_spec(raw@) == Ok::<Seq<char>, NameError>(s@),
            Err(e) => parse_name_spec(raw@) == Err::<Seq<char>, NameError>(e),
        },
{
    proof {
        lemma_byte_len_is_encoded_len(raw@);
    }
    if raw.is_empty() {
        return Err(NameError::Empty);
    }
    let length = raw.len();
    if length > MAX_NAME_LENGTH {
        return Err(NameError::TooLong { length });
    }
    let chars = chars_of(raw);
    let mut i: usize = 0;
    while i < chars.len()
        invariant
            chars@ == raw@,
            i <= chars.len(),
            0 < raw@.len(),
            byte_len(raw@) <= MAX_NAME_LENGTH,
            forall|j: int| 0 <= j < i ==> is_name_char(#[trigger] raw@[j]),
        decreases chars.len() - i,
    {
        let c = chars[i];
        if !is_valid_char(c) {
            proof {
                assert(is_first_non_name_char(raw@, i as int));
                let k = choose|k: int| is_first_non_name_char(raw@, k);
                assert(k == i) by {
                    if k < i {
                        assert(is_name_char(raw@[k]));
                    } else if k > i {
                        assert(is_name_char(raw@[i as int]));
                    }
                }
                assert forall|j: int| 0 <= j < raw@.take(i as int).len() implies (
                #[trigger] raw@.take(i as int)[j] as u32) <= 0x7F by {
                    assert(is_name_char(raw@[j]));
                    assert(raw@.take(i as int)[j] == raw@[j]);
                }
                lemma_byte_len_ascii(raw@.take(i as int));
                assert(!all_name_chars(raw@));
            }
            return Err(NameError::InvalidCharacter { character: c, index: i });
        }
        i += 1;
    }
    assert(chars@.subrange(0, chars.len() as int) =~= raw@);
    Ok(string_of(&chars, 0, chars.len()))
}

/// The name of a bucket.
#[derive(Debug, Hash)]
pub struct Bucket(String);

/// The name of a value within a bucket.
#[derive(Debug, Hash)]
pub struct Key(String);

/// A value held in the store.
pub struct Value(String);

impl View for Bucket {
    type V = Seq<char>;

    closed spec fn view(&self) -> Seq<char> {
        self.0@
    }
}

impl View for Key {
    type V = Seq<char>;

    closed spec fn view(&self) -> Seq<char> {
        self.0@
    }
}

impl View for Value {
    type V = Seq<char>;

    closed spec fn view(&self) -> Seq<char> {
        self.0@
    }
}

impl Bucket {
    #[verifier::type_invariant]
    spec fn wf(self) -> bool {
        is_valid_name(self.0@)
    }

    /// Parses a bucket name, rejecting anything `minidb` cannot store.
    pub fn parse(raw: &str) -> (r: Result<Self, NameError>)
        requires
            byte_len(raw@) <= usize::MAX,
        ensures
            match r {
                Ok(b) => parse_name_spec(raw@) == Ok::<Seq<char>, NameError>(b@),
                Err(e) => parse_name_spec(raw@) == Err::<Seq<char>, NameError>(e),
            },
    {
        match parse_name(raw) {
            Ok(s) => Ok(Bucket(s)),
            Err(e) => Err(e),
        }
    }

    /// Borrows the bucket name.
    pub fn as_str(&self) -> (r: &str)
        ensures
            r@ == self@,
            is_valid_name(self@),
    {
        proof {
            use_type_invariant(self);
        }
        self.0.as_str()
    }

}

impl Key {
    #[verifier::type_invariant]
    spec fn wf(self) -> bool {
        is_valid_name(self.0@)
    }

    /// Parses a key, rejecting anything `minidb` cannot store.
    pub fn parse(raw: &str) -> (r: Result<Self, NameError>)
        requires
            byte_len(raw@) <= usize::MAX,
        ensures
            match r {
                Ok(k) => parse_name_spec(raw@) == Ok::<Seq<char>, NameError>(k@),
                Err(e) => parse_name_spec(raw@) == Err::<Seq<char>, NameError>(e),
            },
    {
        match parse_name(raw) {
            Ok(s) => Ok(Key(s)),
            Err(e) => Err(e),
        }
    }

    /// Borrows the key.
    pub fn as_str(&self) -> (r: &str)
        ensures
            r@ == self@,
            is_valid_name(self@),
    {
        proof {
            use_type_invariant(self);
        }
        self.0.as_str()
    }
}

impl Value {
    #[verifier::type_invariant]
    spec fn wf(self) -> bool {
        is_valid_value(self.0@)
    }

    /// Parses a value, rejecting anything that could not survive a round trip over the wire.
    pub fn parse(raw: &str) -> (r: Result<Self, ValueError>)
        requires
            byte_len(raw@) <= usize::MAX,
        ensures
            match r {
                Ok(v) => parse_value_spec(raw@) == Ok::<Seq<char>, ValueError>(v@),
                Err(e) => parse_value_spec(raw@) == Err::<Seq<char>, ValueError>(e),
            },
    {
        proof {
            lemma_byte_len_is_encoded_len(raw@);
        }
        let length = raw.len();
        if length > MAX_VALUE_LENGTH {
            return Err(ValueError::TooLong { length });
        }
        let chars = chars_of(raw);
        let mut i: usize = 0;
        // The byte offset of `chars[i]`, which is what `char_indices` reports.
        let mut offset: usize = 0;
        while i < chars.len()
            invariant
                chars@ == raw@,
                i <= chars.len(),
                byte_len(raw@) <= MAX_VALUE_LENGTH,
                offset == byte_len(raw@.take(i as int)),
                forall|j: int| 0 <= j < i ==> #[trigger] raw@[j] != '\n' && raw@[j] != '\r',
            decreases chars.len() - i,
        {
            let c = chars[i];
            if c == '\n' || c == '\r' {
                proof {
                    assert(is_first_line_break(raw@, i as int));
                    let k = choose|k: int| is_first_line_break(raw@, k);
                    assert(k == i) by {
                        if k < i {
                            assert(raw@[k] != '\n' && raw@[k] != '\r');
                        } else if k > i {
                            assert(raw@[i as int] != '\n' && raw@[i as int] != '\r');
                        }
                    }
                }
                return Err(ValueError::Newline { index: offset });
            }
            proof {
                lemma_byte_len_take_next(raw@, i as int);
                lemma_byte_len_prefix(raw@, i + 1);
            }
            offset = offset + utf8_width(c);
            i += 1;
        }
        assert(raw@.take(i as int) =~= raw@);
        Ok(Value(string_of(&chars, 0, chars.len())))
    }

    /// How a value is shown in debugging output, `{:?}` included: its size, never its contents.
    pub fn describe(&self) -> (r: String)
        ensures
            r@ == "Value(<redacted, "@ + decimal(byte_len(self@)) + " bytes>)"@,
    {
        proof {
            use_type_invariant(self);
            lemma_byte_len_is_encoded_len(self.0@);
        }
        let mut r = String::new();
        push_str(&mut r, "Value(<redacted, ");
        push_decimal(&mut r, self.0.as_str().len());
        push_str(&mut r, " bytes>)");
        r
    }

    /// Borrows the value.
    pub fn as_str(&self) -> (r: &str)
        ensures
            r@ == self@,
            is_valid_value(self@),
    {
        proof {
            use_type_invariant(self);
        }
        self.0.as_str()
    }
}

impl Clone for Bucket {
    fn clone(&self) -> (r: Self)
        ensures
            r@ == self@,
    {
        proof {
            use_type_invariant(self);
        }
        Bucket(self.0.clone())
    }
}

impl PartialEq for Bucket {
    fn eq(&self, other: &Self) -> (r: bool) {
        self.0 == other.0
    }
}

impl PartialEqSpecImpl for Bucket {
    open spec fn obeys_eq_spec() -> bool {
        true
    }

    open spec fn eq_spec(&self, other: &Self) -> bool {
        self@ == other@
    }
}

impl Eq for Bucket {

}

impl Clone for Key {
    fn clone(&self) -> (r: Self)
        ensures
            r@ == self@,
    {
        proof {
            use_type_invariant(self);
        }
        Key(self.0.clone())
    }
}

impl PartialEq for Key {
    fn eq(&self, other: &Self) -> (r: bool) {
        self.0 == other.0
    }
}

impl PartialEqSpecImpl for Key {
    open spec fn obeys_eq_spec() -> bool {
        true
    }

    open spec fn eq_spec(&self, other: &Self) -> bool {
        self@ == other@
    }
}

impl Eq for Key {

}

impl Clone for Value {
    fn clone(&self) -> (r: Self)
        ensures
            r@ == self@,
    {
        proof {
            use_type_invariant(self);
        }
        Value(self.0.clone())
    }
}

impl PartialEq for Value {
    fn eq(&self, other: &Self) -> (r: bool) {
        self.0 == other.0
    }
}

impl PartialEqSpecImpl for Value {
    open spec fn obeys_eq_spec() -> bool {
        true
    }

    open spec fn eq_spec(&self, other: &Self) -> bool {
        self@ == other@
    }
}

impl Eq for Value {

}

} // verus!
