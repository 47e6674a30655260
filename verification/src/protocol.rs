//! The wire protocol: one request per line, one response per line.

use vstd::prelude::*;
use vstd::std_specs::convert::FromSpecImpl;

use crate::names::{
    is_name_char, is_valid_name, is_valid_value, parse_name_spec, parse_value_spec, Bucket, Key,
    NameError, Value, ValueError,
};
use crate::text::{
    byte_len, char_debug, chars_of, debug_char, decimal, lemma_byte_len_concat, push_char,
    push_decimal, push_str, string_of,
};

verus! {

/// A request from a client.
#[derive(Clone, PartialEq, Eq)]
pub enum Request {
    Get { bucket: Bucket, key: Key },
    Put { bucket: Bucket, key: Key, value: Value },
    Del { bucket: Bucket, key: Key },
}

/// A request, as the names and value it carries.
pub enum RequestView {
    Get { bucket: Seq<char>, key: Seq<char> },
    Put { bucket: Seq<char>, key: Seq<char>, value: Seq<char> },
    Del { bucket: Seq<char>, key: Seq<char> },
}

impl View for Request {
    type V = RequestView;

    open spec fn view(&self) -> RequestView {
        match self {
            Request::Get { bucket, key } => RequestView::Get { bucket: bucket@, key: key@ },
            Request::Put { bucket, key, value } => RequestView::Put {
                bucket: bucket@,
                key: key@,
                value: value@,
            },
            Request::Del { bucket, key } => RequestView::Del { bucket: bucket@, key: key@ },
        }
    }
}

/// A reply to a request.
#[derive(Clone, PartialEq, Eq)]
pub enum Response {
    Okay,
    Value(Value),
    Nil,
    Error(String),
}

/// A reply, as the text it carries.
pub enum ResponseView {
    Okay,
    Value(Seq<char>),
    Nil,
    Error(Seq<char>),
}

impl View for Response {
    type V = ResponseView;

    open spec fn view(&self) -> ResponseView {
        match self {
            Response::Okay => ResponseView::Okay,
            Response::Value(v) => ResponseView::Value(v@),
            Response::Nil => ResponseView::Nil,
            Response::Error(m) => ResponseView::Error(m@),
        }
    }
}

/// What can go wrong reading a line off the wire.
#[derive(Debug, PartialEq, Eq)]
pub enum ProtocolError {
    Empty,
    UnknownVerb(String),
    MissingArgument,
    BadName(NameError),
    BadValue(ValueError),
}

/// A protocol error, with the verb it could not make sense of as text.
pub enum ProtocolErrorView {
    Empty,
    UnknownVerb(Seq<char>),
    MissingArgument,
    BadName(NameError),
    BadValue(ValueError),
}

impl View for ProtocolError {
    type V = ProtocolErrorView;

    open spec fn view(&self) -> ProtocolErrorView {
        match self {
            ProtocolError::Empty => ProtocolErrorView::Empty,
            ProtocolError::UnknownVerb(v) => ProtocolErrorView::UnknownVerb(v@),
            ProtocolError::MissingArgument => ProtocolErrorView::MissingArgument,
            ProtocolError::BadName(e) => ProtocolErrorView::BadName(*e),
            ProtocolError::BadValue(e) => ProtocolErrorView::BadValue(*e),
        }
    }
}

pub open spec fn word_get() -> Seq<char> {
    seq!['G', 'E', 'T']
}

pub open spec fn word_set() -> Seq<char> {
    seq!['S', 'E', 'T']
}

pub open spec fn word_del() -> Seq<char> {
    seq!['D', 'E', 'L']
}

pub open spec fn word_ok() -> Seq<char> {
    seq!['O', 'K']
}

pub open spec fn word_nil() -> Seq<char> {
    seq!['N', 'I', 'L']
}

pub open spec fn word_value() -> Seq<char> {
    seq!['V', 'A', 'L', 'U', 'E']
}

pub open spec fn word_err() -> Seq<char> {
    seq!['E', 'R', 'R']
}

/// Where the first `c` stands in `s`, or the length of `s` when there is none.
pub open spec fn find_char(s: Seq<char>, c: char) -> int
    decreases s.len(),
{
    if s.len() == 0 {
        0
    } else if s[0] == c {
        0
    } else {
        1 + find_char(s.drop_first(), c)
    }
}

/// `c` with ASCII lower-case letters mapped to upper case, as `to_ascii_uppercase` does.
pub open spec fn ascii_upper(c: char) -> char {
    let u = c as u32;
    if 0x61 <= u <= 0x7A {
        ((u - 32) as u8) as char
    } else {
        c
    }
}

/// `s` with every ASCII lower-case letter mapped to upper case.
pub open spec fn upper(s: Seq<char>) -> Seq<char> {
    s.map_values(|c: char| ascii_upper(c))
}

/// One of the three verbs a request may start with.
pub open spec fn is_verb(verb: Seq<char>) -> bool {
    verb == word_get() || verb == word_set() || verb == word_del()
}

/// The outcome of parsing a request line. The line is cut at spaces into at most four fields, as
/// `str::splitn(4, ' ')` cuts it: a verb, a bucket, a key and, for `SET`, the value, which keeps
/// the rest of the line, spaces included. The verb is read case-insensitively.
pub open spec fn parse_request_spec(line: Seq<char>) -> Result<RequestView, ProtocolErrorView> {
    let p = find_char(line, ' ');
    let verb = upper(line.take(p));
    if verb.len() == 0 {
        Err(ProtocolErrorView::Empty)
    } else if !is_verb(verb) {
        Err(ProtocolErrorView::UnknownVerb(verb))
    } else if p == line.len() {
        Err(ProtocolErrorView::MissingArgument)
    } else {
        parse_arguments_spec(verb, line.skip(p + 1))
    }
}

/// What follows the verb: the bucket, then the key and what follows it.
pub open spec fn parse_arguments_spec(verb: Seq<char>, rest: Seq<char>) -> Result<
    RequestView,
    ProtocolErrorView,
> {
    let p = find_char(rest, ' ');
    let bucket = rest.take(p);
    if parse_name_spec(bucket) is Err {
        Err(ProtocolErrorView::BadName(parse_name_spec(bucket)->Err_0))
    } else if p == rest.len() {
        Err(ProtocolErrorView::MissingArgument)
    } else {
        parse_key_spec(verb, bucket, rest.skip(p + 1))
    }
}

/// What follows the bucket: the key, then for `SET` the value, which is the rest of the line.
pub open spec fn parse_key_spec(verb: Seq<char>, bucket: Seq<char>, rest: Seq<char>) -> Result<
    RequestView,
    ProtocolErrorView,
> {
    let p = find_char(rest, ' ');
    let key = rest.take(p);
    let value = rest.skip(p + 1);
    if parse_name_spec(key) is Err {
        Err(ProtocolErrorView::BadName(parse_name_spec(key)->Err_0))
    } else if verb == word_get() {
        Ok(RequestView::Get { bucket, key })
    } else if verb == word_del() {
        Ok(RequestView::Del { bucket, key })
    } else if p == rest.len() {
        Err(ProtocolErrorView::MissingArgument)
    } else if parse_value_spec(value) is Err {
        Err(ProtocolErrorView::BadValue(parse_value_spec(value)->Err_0))
    } else {
        Ok(RequestView::Put { bucket, key, value })
    }
}

/// The line a request is written as.
pub open spec fn request_line(r: RequestView) -> Seq<char> {
    match r {
        RequestView::Get { bucket, key } => word_get() + seq![' '] + bucket + seq![' '] + key,
        RequestView::Put { bucket, key, value } => word_set() + seq![' '] + bucket + seq![' '] + key
            + seq![' '] + value,
        RequestView::Del { bucket, key } => word_del() + seq![' '] + bucket + seq![' '] + key,
    }
}

/// A request that could have come out of `Request::parse`: its names and value are valid.
pub open spec fn valid_request(r: RequestView) -> bool {
    match r {
        RequestView::Get { bucket, key } => is_valid_name(bucket) && is_valid_name(key),
        RequestView::Put { bucket, key, value } => is_valid_name(bucket) && is_valid_name(key)
            && is_valid_value(value),
        RequestView::Del { bucket, key } => is_valid_name(bucket) && is_valid_name(key),
    }
}

/// The outcome of parsing a response line.
pub open spec fn parse_response_spec(line: Seq<char>) -> Result<ResponseView, ProtocolErrorView> {
    let p = find_char(line, ' ');
    let verb = line.take(p);
    let has_rest = p < line.len();
    let rest = line.skip(p + 1);
    if verb == word_ok() && !has_rest {
        Ok(ResponseView::Okay)
    } else if verb == word_nil() && !has_rest {
        Ok(ResponseView::Nil)
    } else if verb == word_value() && has_rest {
        if parse_value_spec(rest) is Err {
            Err(ProtocolErrorView::BadValue(parse_value_spec(rest)->Err_0))
        } else {
            Ok(ResponseView::Value(rest))
        }
    } else if verb == word_err() && has_rest {
        Ok(ResponseView::Error(rest))
    } else if verb.len() == 0 && !has_rest {
        Err(ProtocolErrorView::Empty)
    } else {
        Err(ProtocolErrorView::UnknownVerb(verb))
    }
}

/// The line a response is written as.
pub open spec fn response_line(r: ResponseView) -> Seq<char> {
    match r {
        ResponseView::Okay => word_ok(),
        ResponseView::Nil => word_nil(),
        ResponseView::Value(v) => word_value() + seq![' '] + v,
        ResponseView::Error(m) => word_err() + seq![' '] + m,
    }
}

/// A response that could have come out of `Response::parse`: a value it carries is valid.
pub open spec fn valid_response(r: ResponseView) -> bool {
    match r {
        ResponseView::Value(v) => is_valid_value(v),
        _ => true,
    }
}

/// How `{:?}` prints a `NameError`.
pub open spec fn name_error_text(e: NameError) -> Seq<char> {
    match e {
        NameError::Empty => "Empty"@,
        NameError::TooLong { length } => "TooLong { length: "@ + decimal(length as nat) + " }"@,
        NameError::InvalidCharacter { character, index } => "InvalidCharacter { character: "@
            + char_debug(character) + ", index: "@ + decimal(index as nat) + " }"@,
    }
}

/// How `{:?}` prints a `ValueError`.
pub open spec fn value_error_text(e: ValueError) -> Seq<char> {
    match e {
        ValueError::TooLong { length } => "TooLong { length: "@ + decimal(length as nat) + " }"@,
        ValueError::Newline { index } => "Newline { index: "@ + decimal(index as nat) + " }"@,
    }
}

/// How a protocol error reads, which is what a client is told after `ERR`.
pub open spec fn protocol_error_text(e: ProtocolErrorView) -> Seq<char> {
    match e {
        ProtocolErrorView::Empty => "empty request"@,
        ProtocolErrorView::UnknownVerb(verb) => "unknown verb "@ + verb,
        ProtocolErrorView::MissingArgument => "missing argument"@,
        ProtocolErrorView::BadName(e) => "invalid name: "@ + name_error_text(e),
        ProtocolErrorView::BadValue(e) => "invalid value: "@ + value_error_text(e),
    }
}

proof fn lemma_find_char(s: Seq<char>, c: char, p: int)
    requires
        0 <= p <= s.len(),
        forall|j: int| 0 <= j < p ==> s[j] != c,
        p < s.len() ==> s[p] == c,
    ensures
        find_char(s, c) == p,
    decreases p,
{
    if p > 0 {
        assert forall|j: int| 0 <= j < p - 1 implies s.drop_first()[j] != c by {
            assert(s.drop_first()[j] == s[j + 1]);
        }
        lemma_find_char(s.drop_first(), c, p - 1);
    }
}

/// The first space in `chars`, from `from` on, or the length when there is none.
fn find_space(chars: &Vec<char>, from: usize) -> (p: usize)
    requires
        from <= chars.len(),
    ensures
        from <= p <= chars.len(),
        p - from == find_char(chars@.skip(from as int), ' '),
        p < chars.len() ==> chars@[p as int] == ' ',
        forall|j: int| from <= j < p ==> chars@[j] != ' ',
{
    let mut p = from;
    while p < chars.len() && chars[p] != ' '
        invariant
            from <= p <= chars.len(),
            forall|j: int| from <= j < p ==> chars@[j] != ' ',
        decreases chars.len() - p,
    {
        p += 1;
    }
    proof {
        let rest = chars@.skip(from as int);
        assert forall|j: int| 0 <= j < p - from implies rest[j] != ' ' by {
            assert(rest[j] == chars@[from + j]);
        }
        lemma_find_char(rest, ' ', p - from);
    }
    p
}

fn to_upper(c: char) -> (r: char)
    ensures
        r == ascii_upper(c),
{
    let u = c as u32;
    if 0x61 <= u && u <= 0x7A {
        ((u - 32) as u8) as char
    } else {
        c
    }
}

/// `chars[from..to]`, with ASCII letters in upper case.
fn upper_range(chars: &Vec<char>, from: usize, to: usize) -> (r: Vec<char>)
    requires
        from <= to <= chars.len(),
    ensures
        r@ == upper(chars@.subrange(from as int, to as int)),
{
    let mut r: Vec<char> = Vec::new();
    let mut i = from;
    while i < to
        invariant
            from <= i <= to <= chars.len(),
            r@ == upper(chars@.subrange(from as int, i as int)),
        decreases to - i,
    {
        let c = to_upper(chars[i]);
        r.push(c);
        assert(upper(chars@.subrange(from as int, i + 1)) =~= upper(
            chars@.subrange(from as int, i as int),
        ).push(ascii_upper(chars@[i as int])));
        i += 1;
    }
    r
}

/// Whether `w` holds exactly the three characters `a`, `b`, `c`.
fn is_word3(w: &Vec<char>, a: char, b: char, c: char) -> (r: bool)
    ensures
        r == (w@ == seq![a, b, c]),
{
    let r = w.len() == 3 && w[0] == a && w[1] == b && w[2] == c;
    proof {
        if r {
            assert(w@ =~= seq![a, b, c]);
        }
    }
    r
}

/// The three verbs a request may start with.
enum Verb {
    Read,
    Write,
    Delete,
}

impl Verb {
    spec fn word(self) -> Seq<char> {
        match self {
            Verb::Read => word_get(),
            Verb::Write => word_set(),
            Verb::Delete => word_del(),
        }
    }
}

/// The byte length of a stretch of a line is at most that of the line.
proof fn lemma_byte_len_subrange(s: Seq<char>, a: int, b: int)
    requires
        0 <= a <= b <= s.len(),
    ensures
        byte_len(s.subrange(a, b)) <= byte_len(s),
{
    assert(s =~= s.take(a) + s.subrange(a, b) + s.skip(b));
    lemma_byte_len_concat(s.take(a), s.subrange(a, b));
    lemma_byte_len_concat(s.take(a) + s.subrange(a, b), s.skip(b));
}

/// Parses what follows the bucket, starting at `from`.
fn parse_key(chars: &Vec<char>, from: usize, verb: Verb, bucket: Bucket) -> (r: Result<
    Request,
    ProtocolError,
>)
    requires
        from <= chars.len(),
        byte_len(chars@) <= usize::MAX,
    ensures
        match r {
            Ok(request) => parse_key_spec(verb.word(), bucket@, chars@.skip(from as int)) == Ok::<
                RequestView,
                ProtocolErrorView,
            >(request@),
            Err(e) => parse_key_spec(verb.word(), bucket@, chars@.skip(from as int)) == Err::<
                RequestView,
                ProtocolErrorView,
            >(e@),
        },
{
    let ghost rest = chars@.skip(from as int);
    let n = chars.len();
    let p = find_space(chars, from);
    proof {
        assert(rest.take(p - from) =~= chars@.subrange(from as int, p as int));
        lemma_byte_len_subrange(chars@, from as int, p as int);
    }
    let key_text = string_of(chars, from, p);
    let key = match Key::parse(key_text.as_str()) {
        Ok(k) => k,
        Err(e) => {
            return Err(ProtocolError::BadName(e));
        },
    };
    match verb {
        Verb::Read => Ok(Request::Get { bucket, key }),
        Verb::Delete => Ok(Request::Del { bucket, key }),
        Verb::Write => {
            if p == n {
                return Err(ProtocolError::MissingArgument);
            }
            proof {
                assert(rest.skip(p - from + 1) =~= chars@.subrange(p + 1, n as int));
                lemma_byte_len_subrange(chars@, p + 1, n as int);
            }
            let value_text = string_of(chars, p + 1, n);
            match Value::parse(value_text.as_str()) {
                Ok(value) => Ok(Request::Put { bucket, key, value }),
                Err(e) => Err(ProtocolError::BadValue(e)),
            }
        },
    }
}

/// Parses what follows the verb, starting at `from`.
fn parse_arguments(chars: &Vec<char>, from: usize, verb: Verb) -> (r: Result<Request, ProtocolError>)
    requires
        from <= chars.len(),
        byte_len(chars@) <= usize::MAX,
    ensures
        match r {
            Ok(request) => parse_arguments_spec(verb.word(), chars@.skip(from as int)) == Ok::<
                RequestView,
                ProtocolErrorView,
            >(request@),
            Err(e) => parse_arguments_spec(verb.word(), chars@.skip(from as int)) == Err::<
                RequestView,
                ProtocolErrorView,
            >(e@),
        },
{
    let ghost rest = chars@.skip(from as int);
    let n = chars.len();
    let p = find_space(chars, from);
    proof {
        assert(rest.take(p - from) =~= chars@.subrange(from as int, p as int));
        lemma_byte_len_subrange(chars@, from as int, p as int);
    }
    let bucket_text = string_of(chars, from, p);
    let bucket = match Bucket::parse(bucket_text.as_str()) {
        Ok(b) => b,
        Err(e) => {
            return Err(ProtocolError::BadName(e));
        },
    };
    if p == n {
        return Err(ProtocolError::MissingArgument);
    }
    proof {
        assert(rest.skip(p - from + 1) =~= chars@.skip(p + 1));
    }
    parse_key(chars, p + 1, verb, bucket)
}

impl Request {
    /// Parses a request line, which is what a server does with everything a client sends.
    pub fn parse(line: &str) -> (r: Result<Self, ProtocolError>)
        requires
            byte_len(line@) <= usize::MAX,
        ensures
            match r {
                Ok(request) => parse_request_spec(line@) == Ok::<
                    RequestView,
                    ProtocolErrorView,
                >(request@),
                Err(e) => parse_request_spec(line@) == Err::<RequestView, ProtocolErrorView>(e@),
            },
    {
        let chars = chars_of(line);
        let n = chars.len();
        let p = find_space(&chars, 0);
        proof {
            assert(chars@.skip(0) =~= line@);
            assert(line@.take(p as int) =~= chars@.subrange(0, p as int));
        }
        let verb = upper_range(&chars, 0, p);
        if verb.len() == 0 {
            return Err(ProtocolError::Empty);
        }
        let kind = if is_word3(&verb, 'G', 'E', 'T') {
            Verb::Read
        } else if is_word3(&verb, 'S', 'E', 'T') {
            Verb::Write
        } else if is_word3(&verb, 'D', 'E', 'L') {
            Verb::Delete
        } else {
            assert(verb@.subrange(0, verb.len() as int) =~= verb@);
            return Err(ProtocolError::UnknownVerb(string_of(&verb, 0, verb.len())));
        };
        if p == n {
            return Err(ProtocolError::MissingArgument);
        }
        parse_arguments(&chars, p + 1, kind)
    }
}

/// Whether `chars[..to]` is exactly `word`.
fn prefix_is(chars: &Vec<char>, to: usize, word: &[char]) -> (r: bool)
    requires
        to <= chars.len(),
    ensures
        r == (chars@.take(to as int) == word@),
{
    if to != word.len() {
        return false;
    }
    let mut i: usize = 0;
    while i < to
        invariant
            i <= to <= chars.len(),
            to == word@.len(),
            forall|j: int| 0 <= j < i ==> chars@[j] == word@[j],
        decreases to - i,
    {
        if chars[i] != word[i] {
            return false;
        }
        i += 1;
    }
    assert(chars@.take(to as int) =~= word@);
    true
}

impl Response {
    /// Parses a response line, which is what a client does with everything a server sends.
    pub fn parse(line: &str) -> (r: Result<Self, ProtocolError>)
        requires
            byte_len(line@) <= usize::MAX,
        ensures
            match r {
                Ok(response) => parse_response_spec(line@) == Ok::<
                    ResponseView,
                    ProtocolErrorView,
                >(response@),
                Err(e) => parse_response_spec(line@) == Err::<ResponseView, ProtocolErrorView>(e@),
            },
    {
        let chars = chars_of(line);
        let n = chars.len();
        let p = find_space(&chars, 0);
        let has_rest = p < n;
        proof {
            assert(chars@.skip(0) =~= line@);
            assert(['O', 'K']@ =~= word_ok());
            assert(['N', 'I', 'L']@ =~= word_nil());
            assert(['V', 'A', 'L', 'U', 'E']@ =~= word_value());
            assert(['E', 'R', 'R']@ =~= word_err());
            if has_rest {
                assert(line@.skip(p + 1) =~= chars@.subrange(p + 1, n as int));
                lemma_byte_len_subrange(line@, p + 1, n as int);
            }
        }
        if !has_rest && prefix_is(&chars, p, &['O', 'K']) {
            Ok(Response::Okay)
        } else if !has_rest && prefix_is(&chars, p, &['N', 'I', 'L']) {
            Ok(Response::Nil)
        } else if has_rest && prefix_is(&chars, p, &['V', 'A', 'L', 'U', 'E']) {
            let text = string_of(&chars, p + 1, n);
            match Value::parse(text.as_str()) {
                Ok(v) => Ok(Response::Value(v)),
                Err(e) => Err(ProtocolError::BadValue(e)),
            }
        } else if has_rest && prefix_is(&chars, p, &['E', 'R', 'R']) {
            Ok(Response::Error(string_of(&chars, p + 1, n)))
        } else if !has_rest && p == 0 {
            Err(ProtocolError::Empty)
        } else {
            assert(line@.take(p as int) =~= chars@.subrange(0, p as int));
            Err(ProtocolError::UnknownVerb(string_of(&chars, 0, p)))
        }
    }

    /// The line this response is written as, without its line break.
    pub fn to_string(&self) -> (r: String)
        ensures
            r@ == response_line(self@),
    {
        let mut r = String::new();
        match self {
            Response::Okay => {
                push_char(&mut r, 'O');
                push_char(&mut r, 'K');
                assert(r@ =~= word_ok());
            },
            Response::Nil => {
                push_char(&mut r, 'N');
                push_char(&mut r, 'I');
                push_char(&mut r, 'L');
                assert(r@ =~= word_nil());
            },
            Response::Value(v) => {
                push_char(&mut r, 'V');
                push_char(&mut r, 'A');
                push_char(&mut r, 'L');
                push_char(&mut r, 'U');
                push_char(&mut r, 'E');
                push_char(&mut r, ' ');
                push_str(&mut r, v.as_str());
                assert(r@ =~= word_value() + seq![' '] + v@);
            },
            Response::Error(m) => {
                push_char(&mut r, 'E');
                push_char(&mut r, 'R');
                push_char(&mut r, 'R');
                push_char(&mut r, ' ');
                push_str(&mut r, m.as_str());
                assert(r@ =~= word_err() + seq![' '] + m@);
            },
        }
        r
    }
}

impl Request {
    /// The line this request is written as, without its line break.
    pub fn to_string(&self) -> (r: String)
        ensures
            r@ == request_line(self@),
    {
        let mut r = String::new();
        match self {
            Request::Get { bucket, key } => {
                push_char(&mut r, 'G');
                push_char(&mut r, 'E');
                push_char(&mut r, 'T');
                push_char(&mut r, ' ');
                push_str(&mut r, bucket.as_str());
                push_char(&mut r, ' ');
                push_str(&mut r, key.as_str());
                assert(r@ =~= word_get() + seq![' '] + bucket@ + seq![' '] + key@);
            },
            Request::Put { bucket, key, value } => {
                push_char(&mut r, 'S');
                push_char(&mut r, 'E');
                push_char(&mut r, 'T');
                push_char(&mut r, ' ');
                push_str(&mut r, bucket.as_str());
                push_char(&mut r, ' ');
                push_str(&mut r, key.as_str());
                push_char(&mut r, ' ');
                push_str(&mut r, value.as_str());
                assert(r@ =~= word_set() + seq![' '] + bucket@ + seq![' '] + key@ + seq![' ']
                    + value@);
            },
            Request::Del { bucket, key } => {
                push_char(&mut r, 'D');
                push_char(&mut r, 'E');
                push_char(&mut r, 'L');
                push_char(&mut r, ' ');
                push_str(&mut r, bucket.as_str());
                push_char(&mut r, ' ');
                push_str(&mut r, key.as_str());
                assert(r@ =~= word_del() + seq![' '] + bucket@ + seq![' '] + key@);
            },
        }
        r
    }
}

/// Appends how `{:?}` prints a `NameError`.
fn push_name_error(s: &mut String, e: NameError)
    ensures
        final(s)@ == old(s)@ + name_error_text(e),
{
    match e {
        NameError::Empty => push_str(s, "Empty"),
        NameError::TooLong { length } => {
            push_str(s, "TooLong { length: ");
            push_decimal(s, length);
            push_str(s, " }");
        },
        NameError::InvalidCharacter { character, index } => {
            push_str(s, "InvalidCharacter { character: ");
            let shown = debug_char(character);
            push_str(s, shown.as_str());
            push_str(s, ", index: ");
            push_decimal(s, index);
            push_str(s, " }");
        },
    }
    assert(final(s)@ =~= old(s)@ + name_error_text(e));
}

/// Appends how `{:?}` prints a `ValueError`.
fn push_value_error(s: &mut String, e: ValueError)
    ensures
        final(s)@ == old(s)@ + value_error_text(e),
{
    match e {
        ValueError::TooLong { length } => {
            push_str(s, "TooLong { length: ");
            push_decimal(s, length);
            push_str(s, " }");
        },
        ValueError::Newline { index } => {
            push_str(s, "Newline { index: ");
            push_decimal(s, index);
            push_str(s, " }");
        },
    }
    assert(final(s)@ =~= old(s)@ + value_error_text(e));
}

impl ProtocolError {
    /// How this error reads, which is what a client is told after `ERR`.
    pub fn to_string(&self) -> (r: String)
        ensures
            r@ == protocol_error_text(self@),
    {
        let mut r = String::new();
        match self {
            ProtocolError::Empty => push_str(&mut r, "empty request"),
            ProtocolError::UnknownVerb(verb) => {
                push_str(&mut r, "unknown verb ");
                push_str(&mut r, verb.as_str());
            },
            ProtocolError::MissingArgument => push_str(&mut r, "missing argument"),
            ProtocolError::BadName(e) => {
                push_str(&mut r, "invalid name: ");
                push_name_error(&mut r, *e);
            },
            ProtocolError::BadValue(e) => {
                push_str(&mut r, "invalid value: ");
                push_value_error(&mut r, *e);
            },
        }
        assert(r@ =~= protocol_error_text(self@));
        r
    }
}

impl From<NameError> for ProtocolError {
    fn from(error: NameError) -> (r: Self) {
        ProtocolError::BadName(error)
    }
}

impl FromSpecImpl<NameError> for ProtocolError {
    open spec fn obeys_from_spec() -> bool {
        true
    }

    open spec fn from_spec(error: NameError) -> Self {
        ProtocolError::BadName(error)
    }
}

impl From<ValueError> for ProtocolError {
    fn from(error: ValueError) -> (r: Self) {
        ProtocolError::BadValue(error)
    }
}

impl FromSpecImpl<ValueError> for ProtocolError {
    open spec fn obeys_from_spec() -> bool {
        true
    }

    open spec fn from_spec(error: ValueError) -> Self {
        ProtocolError::BadValue(error)
    }
}

/// A valid name holds no space.
proof fn lemma_name_has_no_space(s: Seq<char>)
    requires
        is_valid_name(s),
    ensures
        forall|i: int| 0 <= i < s.len() ==> s[i] != ' ',
{
    assert forall|i: int| 0 <= i < s.len() implies s[i] != ' ' by {
        assert(is_name_char(s[i]));
    }
}

/// The first space in `w + [' '] + rest` is right after `w`, when `w` holds none.
proof fn lemma_find_after_word(w: Seq<char>, rest: Seq<char>)
    requires
        forall|i: int| 0 <= i < w.len() ==> w[i] != ' ',
    ensures
        find_char(w + seq![' '] + rest, ' ') == w.len(),
        (w + seq![' '] + rest).take(w.len() as int) == w,
        (w + seq![' '] + rest).skip(w.len() as int + 1) == rest,
{
    let line = w + seq![' '] + rest;
    assert forall|j: int| 0 <= j < w.len() implies line[j] != ' ' by {
        assert(line[j] == w[j]);
    }
    lemma_find_char(line, ' ', w.len() as int);
    assert(line.take(w.len() as int) =~= w);
    assert(line.skip(w.len() as int + 1) =~= rest);
}

/// A sequence with no space holds none to find.
proof fn lemma_find_none(w: Seq<char>)
    requires
        forall|i: int| 0 <= i < w.len() ==> w[i] != ' ',
    ensures
        find_char(w, ' ') == w.len(),
        w.take(w.len() as int) == w,
{
    lemma_find_char(w, ' ', w.len() as int);
    assert(w.take(w.len() as int) =~= w);
}

proof fn lemma_parse_verb(verb: Seq<char>, rest: Seq<char>)
    requires
        verb == word_get() || verb == word_set() || verb == word_del(),
    ensures
        parse_request_spec(verb + seq![' '] + rest) == parse_arguments_spec(verb, rest),
{
    assert(verb[0] != ' ' && verb[1] != ' ' && verb[2] != ' ');
    lemma_find_after_word(verb, rest);
    assert(upper(verb) =~= verb);
}

proof fn lemma_parse_bucket(verb: Seq<char>, bucket: Seq<char>, tail: Seq<char>)
    requires
        is_valid_name(bucket),
    ensures
        parse_arguments_spec(verb, bucket + seq![' '] + tail) == parse_key_spec(verb, bucket, tail),
{
    lemma_name_has_no_space(bucket);
    lemma_find_after_word(bucket, tail);
}

proof fn lemma_parse_key_alone(verb: Seq<char>, bucket: Seq<char>, key: Seq<char>)
    requires
        is_valid_name(key),
        verb == word_get() || verb == word_del(),
    ensures
        parse_key_spec(verb, bucket, key) == if verb == word_get() {
            Ok::<RequestView, ProtocolErrorView>(RequestView::Get { bucket, key })
        } else {
            Ok::<RequestView, ProtocolErrorView>(RequestView::Del { bucket, key })
        },
{
    lemma_name_has_no_space(key);
    lemma_find_none(key);
}

proof fn lemma_parse_key_and_value(bucket: Seq<char>, key: Seq<char>, value: Seq<char>)
    requires
        is_valid_name(key),
        is_valid_value(value),
    ensures
        parse_key_spec(word_set(), bucket, key + seq![' '] + value) == Ok::<
            RequestView,
            ProtocolErrorView,
        >(RequestView::Put { bucket, key, value }),
{
    lemma_name_has_no_space(key);
    lemma_find_after_word(key, value);
    assert(word_set() != word_get());
    assert(word_set() != word_del());
}

/// A written request reads back as itself: `Request::parse` undoes `Request::to_string`.
pub proof fn law_request_round_trip(r: RequestView)
    requires
        valid_request(r),
    ensures
        parse_request_spec(request_line(r)) == Ok::<RequestView, ProtocolErrorView>(r),
{
    match r {
        RequestView::Get { bucket, key } => {
            assert(request_line(r) =~= word_get() + seq![' '] + (bucket + seq![' '] + key));
            lemma_parse_verb(word_get(), bucket + seq![' '] + key);
            lemma_parse_bucket(word_get(), bucket, key);
            lemma_parse_key_alone(word_get(), bucket, key);
        },
        RequestView::Del { bucket, key } => {
            assert(request_line(r) =~= word_del() + seq![' '] + (bucket + seq![' '] + key));
            lemma_parse_verb(word_del(), bucket + seq![' '] + key);
            lemma_parse_bucket(word_del(), bucket, key);
            assert(word_del() != word_get());
            lemma_parse_key_alone(word_del(), bucket, key);
        },
        RequestView::Put { bucket, key, value } => {
            let tail = key + seq![' '] + value;
            assert(request_line(r) =~= word_set() + seq![' '] + (bucket + seq![' '] + tail));
            lemma_parse_verb(word_set(), bucket + seq![' '] + tail);
            lemma_parse_bucket(word_set(), bucket, tail);
            lemma_parse_key_and_value(bucket, key, value);
        },
    }
}

/// Where the first `c` stands in `s`: no `c` comes before it, and it is a `c` unless it is the end.
proof fn lemma_find_char_props(s: Seq<char>, c: char)
    ensures
        0 <= find_char(s, c) <= s.len(),
        forall|j: int| 0 <= j < find_char(s, c) ==> s[j] != c,
        find_char(s, c) < s.len() ==> s[find_char(s, c)] == c,
    decreases s.len(),
{
    if s.len() > 0 && s[0] != c {
        lemma_find_char_props(s.drop_first(), c);
        assert forall|j: int| 0 <= j < find_char(s, c) implies s[j] != c by {
            if j > 0 {
                assert(s[j] == s.drop_first()[j - 1]);
            }
        }
    }
}

/// A line that starts with a three-letter word holding no space: the word ends where `rest`'s
/// first word does, and what follows is what follows in `rest`.
proof fn lemma_line_after_three(x: Seq<char>, rest: Seq<char>)
    requires
        x.len() == 3,
        x[0] != ' ' && x[1] != ' ' && x[2] != ' ',
    ensures
        find_char(x + rest, ' ') == 3 + find_char(rest, ' '),
        (x + rest).take(3 + find_char(rest, ' ')) == x + rest.take(find_char(rest, ' ')),
        find_char(rest, ' ') < rest.len() ==> (x + rest).skip(3 + find_char(rest, ' ') + 1)
            == rest.skip(find_char(rest, ' ') + 1),
        (x + rest).len() == 3 + rest.len(),
{
    let q = find_char(rest, ' ');
    let line = x + rest;
    lemma_find_char_props(rest, ' ');
    assert forall|j: int| 0 <= j < 3 + q implies line[j] != ' ' by {
        if j >= 3 {
            assert(line[j] == rest[j - 3]);
        }
    }
    if 3 + q < line.len() {
        assert(line[3 + q] == rest[q]);
    }
    lemma_find_char(line, ' ', 3 + q);
    assert(line.take(3 + q) =~= x + rest.take(q));
    if q < rest.len() {
        assert(line.skip(3 + q + 1) =~= rest.skip(q + 1));
    }
}

/// The verb of a request is read in any case, one letter at a time: a line whose first three
/// letters spell `GET`, `SET` or `DEL` with any of them in lower case parses exactly as the line
/// with those letters in upper case, whatever follows them.
pub proof fn law_verb_in_any_case(verb: Seq<char>, word: Seq<char>, rest: Seq<char>)
    requires
        verb == seq!['G', 'E', 'T'] || verb == seq!['S', 'E', 'T'] || verb == seq!['D', 'E', 'L'],
        word.len() == 3,
        forall|i: int| 0 <= i < 3 ==> word[i] == verb[i] || word[i] as u32 == verb[i] as u32 + 32,
    ensures
        parse_request_spec(word + rest) == parse_request_spec(verb + rest),
{
    assert forall|i: int| 0 <= i < 3 implies 0x41 <= (#[trigger] verb[i] as u32) <= 0x5A by {}
    assert(word[0] != ' ' && word[1] != ' ' && word[2] != ' ');
    lemma_line_after_three(word, rest);
    lemma_line_after_three(verb, rest);
    let q = find_char(rest, ' ');
    lemma_find_char_props(rest, ' ');
    let head = rest.take(q);
    assert(upper(word) =~= verb) by {
        assert forall|i: int| 0 <= i < 3 implies ascii_upper(word[i]) == verb[i] by {
            let u = word[i] as u32;
            if u == verb[i] as u32 + 32 {
                assert(0x61 <= u <= 0x7A);
                assert(((u - 32) as u8) as u32 == verb[i] as u32);
            }
        }
    }
    assert(upper(verb) =~= verb);
    assert(upper(word + head) =~= upper(word) + upper(head));
    assert(upper(verb + head) =~= upper(verb) + upper(head));
    let lw = word + rest;
    let lv = verb + rest;
    assert(find_char(lw, ' ') == find_char(lv, ' '));
    assert(upper(lw.take(3 + q)) == upper(lv.take(3 + q)));
    let v = upper(lw.take(3 + q));
    assert(v.len() == 3 + q);
    if q < rest.len() {
        assert(lw.skip(3 + q + 1) == lv.skip(3 + q + 1));
        assert(3 + q != lw.len());
        if is_verb(v) {
            assert(parse_request_spec(lw) == parse_arguments_spec(v, lw.skip(3 + q + 1)));
            assert(parse_request_spec(lv) == parse_arguments_spec(v, lv.skip(3 + q + 1)));
        }
    } else {
        assert(3 + q == lw.len());
    }
}

/// A written response reads back as itself: `Response::parse` undoes `Response::to_string`.
pub proof fn law_response_round_trip(r: ResponseView)
    requires
        valid_response(r),
    ensures
        parse_response_spec(response_line(r)) == Ok::<ResponseView, ProtocolErrorView>(r),
{
    match r {
        ResponseView::Okay => {
            lemma_find_none(word_ok());
        },
        ResponseView::Nil => {
            lemma_find_none(word_nil());
        },
        ResponseView::Value(v) => {
            lemma_find_after_word(word_value(), v);
        },
        ResponseView::Error(m) => {
            lemma_find_after_word(word_err(), m);
        },
    }
}

} // verus!
