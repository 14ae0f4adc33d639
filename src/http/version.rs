//! The scheme and the protocol version of an HTTP message line.
use vstd::prelude::*;
use vstd::std_specs::convert::TryFromSpecImpl;
use vstd::string::StringExecFns;
use vstd::utf8::is_ascii_chars;

use crate::http::text::{
    all_digits, append_decimal, ascii_lower, decimal_text, decimal_value, digit_value,
    field_before, find_char, has_delimiter, is_digit, lemma_decimal_text, lemma_no_delimiter,
    lemma_split_at_joint, lowercase_of, same_chars, text_after, to_lowercase,
};
use crate::http::HttpError;

verus! {

/// The transport schemes that a protocol version can name.
#[derive(Debug, Clone, Copy, PartialEq, Eq, Structural)]
pub enum Protocol {
    HTTP,
    HTTPS,
}

/// The scheme that an already lower-cased token names: exactly `http` or
/// `https`, and nothing else.
pub open spec fn protocol_of_lowered(lowered: Seq<char>) -> Result<Protocol, HttpError> {
    if lowered == seq!['h', 't', 't', 'p'] {
        Ok(Protocol::HTTP)
    } else if lowered == seq!['h', 't', 't', 'p', 's'] {
        Ok(Protocol::HTTPS)
    } else {
        Err(HttpError::HeaderParseError)
    }
}

impl Protocol {
    /// Resolves a token that has already been lower-cased.
    pub fn from_lowercase(lowered: &str) -> (r: Result<Protocol, HttpError>)
        ensures
            r == protocol_of_lowered(lowered@),
    {
        proof {
            reveal_strlit("http");
            reveal_strlit("https");
        }
        if same_chars(lowered, "http") {
            assert("http"@ =~= seq!['h', 't', 't', 'p']);
            Ok(Protocol::HTTP)
        } else if same_chars(lowered, "https") {
            assert("https"@ =~= seq!['h', 't', 't', 'p', 's']);
            Ok(Protocol::HTTPS)
        } else {
            assert("http"@ =~= seq!['h', 't', 't', 'p']);
            assert("https"@ =~= seq!['h', 't', 't', 'p', 's']);
            Err(HttpError::HeaderParseError)
        }
    }
}

/// The number that a version component denotes: a non-empty run of decimal
/// digits, with no sign, space or point, whose value is at most 255.
pub open spec fn number_of(t: Seq<char>) -> Result<u8, HttpError> {
    if t.len() > 0 && all_digits(t) && decimal_value(t) <= 255 {
        Ok(decimal_value(t) as u8)
    } else {
        Err(HttpError::HeaderParseError)
    }
}

/// The major and minor numbers that `"<major>.<minor>"` denotes. The text is
/// cut at its first point; the minor part ends at the next point, if any,
/// and what follows that point is not read.
pub open spec fn version_pair_of(t: Seq<char>) -> Result<(u8, u8), HttpError> {
    if !has_delimiter(t, '.') {
        Err(HttpError::HeaderParseError)
    } else {
        match number_of(field_before(t, '.')) {
            Err(e) => Err(e),
            Ok(major) => match number_of(field_before(text_after(t, '.'), '.')) {
                Err(e) => Err(e),
                Ok(minor) => Ok((major, minor)),
            },
        }
    }
}

/// A running decimal value, held at 256 once it has passed 255.
pub open spec fn capped(v: nat) -> nat {
    if v <= 255 {
        v
    } else {
        256
    }
}

/// Reads one version component as an 8-bit number.
pub fn parse_num(num_str: &str) -> (r: Result<u8, HttpError>)
    ensures
        r == number_of(num_str@),
{
    let n = num_str.unicode_len();
    if n == 0 {
        return Err(HttpError::HeaderParseError);
    }
    let mut acc: u32 = 0;
    let mut i: usize = 0;
    while i < n
        invariant
            n == num_str@.len(),
            i <= n,
            all_digits(num_str@.take(i as int)),
            acc == capped(decimal_value(num_str@.take(i as int))),
        decreases n - i,
    {
        let c = num_str.get_char(i);
        if !('0' <= c && c <= '9') {
            assert(!is_digit(num_str@[i as int]));
            return Err(HttpError::HeaderParseError);
        }
        let d = c as u32 - '0' as u32;
        let ghost prev = num_str@.take(i as int);
        let ghost next = num_str@.take(i + 1);
        assert(next.drop_last() =~= prev);
        assert(next.last() == c);
        assert(d == digit_value(c));
        let v = acc * 10 + d;
        acc = if v > 255 { 256 } else { v };
        i = i + 1;
    }
    assert(num_str@.take(n as int) =~= num_str@);
    if acc > 255 {
        return Err(HttpError::HeaderParseError);
    }
    Ok(acc as u8)
}

/// Reads `"<major>.<minor>"` into its two numbers.
pub fn parse_version(value: &str) -> (r: Result<(u8, u8), HttpError>)
    ensures
        r == version_pair_of(value@),
{
    let n = value.unicode_len();
    let i = find_char(value, '.');
    if i == n {
        return Err(HttpError::HeaderParseError);
    }
    let major_text = value.substring_char(0, i);
    let rest = value.substring_char(i + 1, n);
    assert(rest@ =~= text_after(value@, '.'));
    let j = find_char(rest, '.');
    let minor_text = rest.substring_char(0, j);
    let major = match parse_num(major_text) {
        Ok(m) => m,
        Err(e) => return Err(e),
    };
    let minor = match parse_num(minor_text) {
        Ok(m) => m,
        Err(e) => return Err(e),
    };
    Ok((major, minor))
}

/// The scheme that a token names, whatever the case of its letters.
pub open spec fn protocol_of(token: Seq<char>) -> Result<Protocol, HttpError> {
    protocol_of_lowered(lowercase_of(token))
}

impl TryFrom<String> for Protocol {
    type Error = HttpError;

    fn try_from(value: String) -> (r: Result<Self, Self::Error>) {
        let lowered = to_lowercase(value.as_str());
        Protocol::from_lowercase(lowered.as_str())
    }
}

impl TryFromSpecImpl<String> for Protocol {
    open spec fn obeys_try_from_spec() -> bool {
        true
    }

    open spec fn try_from_spec(v: String) -> Result<Self, Self::Error> {
        protocol_of(v@)
    }
}

/// The name under which a scheme is written out: `Http` or `Https`.
pub open spec fn scheme_name(p: Protocol) -> Seq<char> {
    match p {
        Protocol::HTTP => seq!['H', 't', 't', 'p'],
        Protocol::HTTPS => seq!['H', 't', 't', 'p', 's'],
    }
}

/// The written form `"<Http|Https>/<major>.<minor>"` of a protocol version.
pub open spec fn written_form(v: HttpVersion) -> Seq<char> {
    scheme_name(v.protocol) + seq!['/'] + decimal_text(v.major as nat) + seq!['.']
        + decimal_text(v.minor as nat)
}

/// A scheme together with a major and a minor version number.
#[derive(Debug, Clone, Copy, PartialEq, Eq, Structural)]
pub struct HttpVersion {
    pub protocol: Protocol,
    pub major: u8,
    pub minor: u8,
}

impl HttpVersion {
    /// A version made of the three given parts.
    pub fn new(protocol: Protocol, major: u8, minor: u8) -> (r: Self)
        ensures
            r == (HttpVersion { protocol, major, minor }),
    {
        HttpVersion { protocol, major, minor }
    }

    /// Writes the version out as `"<Http|Https>/<major>.<minor>"`.
    pub fn to_string(&self) -> (r: String)
        ensures
            r@ == written_form(*self),
    {
        proof {
            reveal_strlit("Http");
            reveal_strlit("Https");
            reveal_strlit("/");
            reveal_strlit(".");
        }
        let mut out = String::new();
        match self.protocol {
            Protocol::HTTP => out.append("Http"),
            Protocol::HTTPS => out.append("Https"),
        }
        assert(out@ =~= scheme_name(self.protocol));
        out.append("/");
        append_decimal(&mut out, self.major);
        out.append(".");
        append_decimal(&mut out, self.minor);
        assert(out@ =~= written_form(*self));
        out
    }
}

/// The protocol version that `"<scheme>/<major>.<minor>"` denotes. The text
/// is cut at its first slash; the version part ends at the next slash, if
/// any.
pub open spec fn http_version_of(s: Seq<char>) -> Result<HttpVersion, HttpError> {
    if !has_delimiter(s, '/') {
        Err(HttpError::HeaderParseError)
    } else {
        match protocol_of(field_before(s, '/')) {
            Err(e) => Err(e),
            Ok(protocol) => match version_pair_of(field_before(text_after(s, '/'), '/')) {
                Err(e) => Err(e),
                Ok((major, minor)) => Ok(HttpVersion { protocol, major, minor }),
            },
        }
    }
}

impl TryFrom<String> for HttpVersion {
    type Error = HttpError;

    fn try_from(value: String) -> (r: Result<Self, Self::Error>) {
        let s = value.as_str();
        let n = s.unicode_len();
        let i = find_char(s, '/');
        if i == n {
            return Err(HttpError::HeaderParseError);
        }
        let scheme = s.substring_char(0, i);
        let rest = s.substring_char(i + 1, n);
        assert(rest@ =~= text_after(s@, '/'));
        let j = find_char(rest, '/');
        let version = rest.substring_char(0, j);
        let protocol = match Protocol::try_from(String::from_str(scheme)) {
            Ok(p) => p,
            Err(e) => return Err(e),
        };
        let (major, minor) = match parse_version(version) {
            Ok(pair) => pair,
            Err(e) => return Err(e),
        };
        Ok(HttpVersion { protocol, major, minor })
    }
}

impl TryFromSpecImpl<String> for HttpVersion {
    open spec fn obeys_try_from_spec() -> bool {
        true
    }

    open spec fn try_from_spec(v: String) -> Result<Self, Self::Error> {
        http_version_of(v@)
    }
}

/// The decimal text of any number reads back as that number when it is at
/// most 255, and is rejected when it is larger.
pub proof fn lemma_number_of_decimal(n: nat)
    ensures
        number_of(decimal_text(n)) == (if n <= 255 {
            Ok::<u8, HttpError>(n as u8)
        } else {
            Err(HttpError::HeaderParseError)
        }),
{
    lemma_decimal_text(n);
}

/// For any two numbers `a` and `b`, `"<a>.<b>"` reads back as `(a, b)` when
/// both are at most 255, and is rejected when either is larger.
pub proof fn lemma_version_pair_round_trip(a: nat, b: nat)
    ensures
        version_pair_of(decimal_text(a) + seq!['.'] + decimal_text(b)) == (if a <= 255 && b
            <= 255 {
            Ok::<(u8, u8), HttpError>((a as u8, b as u8))
        } else {
            Err(HttpError::HeaderParseError)
        }),
{
    lemma_decimal_text(a);
    lemma_decimal_text(b);
    lemma_split_at_joint(decimal_text(a), '.', decimal_text(b));
    lemma_no_delimiter(decimal_text(b), '.');
    lemma_number_of_decimal(a);
    lemma_number_of_decimal(b);
}

/// A version pair whose major or minor part holds a character that is not
/// a decimal digit is rejected.
pub proof fn lemma_version_pair_rejects_non_digit(major: Seq<char>, minor: Seq<char>, i: int)
    requires
        !major.contains('.'),
        !minor.contains('.'),
        (0 <= i < major.len() && !is_digit(major[i])) || (0 <= i < minor.len() && !is_digit(
            minor[i],
        )),
    ensures
        version_pair_of(major + seq!['.'] + minor) == Err::<(u8, u8), HttpError>(
            HttpError::HeaderParseError,
        ),
{
    lemma_split_at_joint(major, '.', minor);
    lemma_no_delimiter(minor, '.');
}

/// The written name of a scheme resolves to that scheme.
pub proof fn lemma_scheme_name_resolves(p: Protocol)
    ensures
        protocol_of(scheme_name(p)) == Ok::<Protocol, HttpError>(p),
{
    let name = scheme_name(p);
    assert(is_ascii_chars(name));
    match p {
        Protocol::HTTP => assert(ascii_lower(name) =~= seq!['h', 't', 't', 'p']),
        Protocol::HTTPS => assert(ascii_lower(name) =~= seq!['h', 't', 't', 'p', 's']),
    }
}

/// Parsing the written form of any protocol version gives that version
/// back, so a further cycle of parsing and writing changes nothing.
pub proof fn lemma_written_form_parses_back(v: HttpVersion)
    ensures
        http_version_of(written_form(v)) == Ok::<HttpVersion, HttpError>(v),
        written_form(http_version_of(written_form(v))->Ok_0) == written_form(v),
{
    let name = scheme_name(v.protocol);
    let pair = decimal_text(v.major as nat) + seq!['.'] + decimal_text(v.minor as nat);
    lemma_decimal_text(v.major as nat);
    lemma_decimal_text(v.minor as nat);
    assert(!name.contains('/')) by {
        assert forall|j: int| 0 <= j < name.len() implies name[j] != '/' by {}
    }
    assert(!pair.contains('/')) by {
        assert forall|j: int| 0 <= j < pair.len() implies pair[j] != '/' by {
            if j < decimal_text(v.major as nat).len() {
                assert(pair[j] == decimal_text(v.major as nat)[j]);
            } else if j > decimal_text(v.major as nat).len() {
                let k = j - decimal_text(v.major as nat).len() - 1;
                assert(pair[j] == decimal_text(v.minor as nat)[k]);
            }
        }
    }
    assert(written_form(v) =~= name + seq!['/'] + pair);
    lemma_split_at_joint(name, '/', pair);
    lemma_no_delimiter(pair, '/');
    lemma_scheme_name_resolves(v.protocol);
    lemma_version_pair_round_trip(v.major as nat, v.minor as nat);
}

} // verus!
