use vstd::prelude::*;
use vstd::std_specs::iter::IteratorSpec;
use base64::Engine;
use sha2::Digest;
use vstd::utf8::{decode_utf8, valid_utf8};
use crate::error::ApiError;
use crate::fingerprint::{hex_of, md5_digest, md5_utf8, push_char, to_hex};
use crate::provider::{decimal, push_decimal};
use crate::text::{trim_text, trimmed};

verus! {

broadcast use vstd::string::group_string_axioms;

/// The SHA-256 digest of the UTF-8 encoding of a text.
pub uninterp spec fn sha256_digest(s: Seq<char>) -> Seq<u8>;

/// Relies on `sha2::Sha256::digest`: the 32-byte SHA-256 digest of the bytes
/// it is given, here the UTF-8 bytes of `s`.
#[verifier::external_body]
fn sha256_utf8(s: &str) -> (r: [u8; 32])
    ensures
        r@ == sha256_digest(s@),
{
    sha2::Sha256::digest(s.as_bytes()).into()
}

/// The standard, padded Base64 encoding of the UTF-8 encoding of a text.
pub uninterp spec fn base64_encoded(s: Seq<char>) -> Seq<char>;

/// The bytes a standard, padded Base64 text decodes to; none when it is not
/// valid Base64.
pub uninterp spec fn base64_decoded(s: Seq<char>) -> Option<Seq<u8>>;

/// Relies on `Engine::encode` of base64's `STANDARD` engine, applied to the
/// UTF-8 bytes of `s`.
#[verifier::external_body]
fn base64_encode_utf8(s: &str) -> (r: String)
    ensures
        r@ == base64_encoded(s@),
{
    base64::engine::general_purpose::STANDARD.encode(s.as_bytes())
}

/// Relies on `Engine::decode` of base64's `STANDARD` engine: the decoded
/// bytes, or the description of the decoding error.
#[verifier::external_body]
fn base64_decode_text(s: &str) -> (r: Result<Vec<u8>, String>)
    ensures
        r matches Ok(v) ==> base64_decoded(s@) == Some(v@),
        r is Err ==> base64_decoded(s@) is None,
{
    base64::engine::general_purpose::STANDARD.decode(s.as_bytes()).map_err(|e| e.to_string())
}

/// Relies on `String::from_utf8`: it succeeds exactly on valid UTF-8, with
/// the characters the bytes encode.
#[verifier::external_body]
fn string_from_utf8(v: Vec<u8>) -> (r: Option<String>)
    ensures
        r is Some <==> valid_utf8(v@),
        r matches Some(s) ==> s@ == decode_utf8(v@),
{
    String::from_utf8(v).ok()
}

/// ASCII lowercase of one character; other characters are kept.
pub open spec fn ascii_lower(c: char) -> char {
    if 'A' <= c <= 'Z' {
        ((c as u32) + 32) as u8 as char
    } else {
        c
    }
}

pub open spec fn ascii_lowercase(s: Seq<char>) -> Seq<char> {
    s.map_values(|c: char| ascii_lower(c))
}

fn lower_char(c: char) -> (r: char)
    ensures
        r == ascii_lower(c),
{
    if 'A' <= c && c <= 'Z' {
        ((c as u8) + 32) as char
    } else {
        c
    }
}

/// Whether the ASCII lowercase of `s` is `lower`.
pub fn lowercase_equals(s: &str, lower: &str) -> (r: bool)
    ensures
        r == (ascii_lowercase(s@) == lower@),
{
    let n = s.unicode_len();
    if n != lower.unicode_len() {
        assert(ascii_lowercase(s@).len() != lower@.len());
        return false;
    }
    let mut i: usize = 0;
    while i < n
        invariant
            n == s@.len(),
            n == lower@.len(),
            i <= n,
            forall|j: int| 0 <= j < i ==> ascii_lower(s@[j]) == lower@[j],
        decreases n - i,
    {
        if lower_char(s.get_char(i)) != lower.get_char(i) {
            assert(ascii_lowercase(s@)[i as int] != lower@[i as int]);
            return false;
        }
        i = i + 1;
    }
    assert(ascii_lowercase(s@) =~= lower@);
    true
}

/// The digest algorithms of the hash tool.
#[derive(Clone, Copy, Debug, PartialEq, Eq, Structural)]
pub enum HashAlgorithm {
    Md5,
    Sha256,
}

/// The algorithm a lowercase name selects.
pub open spec fn algorithm_named(name: Seq<char>) -> Option<HashAlgorithm> {
    if name == "md5"@ {
        Some(HashAlgorithm::Md5)
    } else if name == "sha256"@ {
        Some(HashAlgorithm::Sha256)
    } else {
        None
    }
}

/// The digest of a text under an algorithm.
pub open spec fn digest_of(algo: HashAlgorithm, s: Seq<char>) -> Seq<u8> {
    match algo {
        HashAlgorithm::Md5 => md5_digest(s),
        HashAlgorithm::Sha256 => sha256_digest(s),
    }
}

impl HashAlgorithm {
    pub open spec fn name_spec(self) -> Seq<char> {
        match self {
            HashAlgorithm::Md5 => "md5"@,
            HashAlgorithm::Sha256 => "sha256"@,
        }
    }

    pub fn as_str(&self) -> (r: &'static str)
        ensures
            r@ == self.name_spec(),
    {
        match self {
            HashAlgorithm::Md5 => "md5",
            HashAlgorithm::Sha256 => "sha256",
        }
    }

    /// Reads an algorithm name, ignoring ASCII case.
    pub fn from_name(s: &str) -> (r: Option<HashAlgorithm>)
        ensures
            r == algorithm_named(ascii_lowercase(s@)),
    {
        if lowercase_equals(s, "md5") {
            Some(HashAlgorithm::Md5)
        } else if lowercase_equals(s, "sha256") {
            Some(HashAlgorithm::Sha256)
        } else {
            None
        }
    }
}

/// The algorithm a hash request names when it names none.
pub fn default_algorithm() -> (r: String)
    ensures
        r@ == "md5"@,
{
    String::from_str("md5")
}

/// The lowercase hexadecimal digest of a text's UTF-8 bytes.
pub fn compute_digest(algo: HashAlgorithm, input: &str) -> (r: String)
    ensures
        r@ == hex_of(digest_of(algo, input@)),
{
    match algo {
        HashAlgorithm::Md5 => {
            let d = md5_utf8(input);
            to_hex(&d)
        },
        HashAlgorithm::Sha256 => {
            let d = sha256_utf8(input);
            to_hex(&d)
        },
    }
}

/// Serves a hash request: the algorithm named (trimmed, any ASCII case) and
/// the digest of the text under it; an unknown name is a bad request.
pub fn hash_text(algorithm: &str, text: &str) -> (r: Result<(HashAlgorithm, String), ApiError>)
    ensures
        match algorithm_named(ascii_lowercase(trimmed(algorithm@))) {
            Some(a) => r matches Ok((b, d)) && a == b && d@ == hex_of(digest_of(a, text@)),
            None => r matches Err(ApiError::BadRequest(m)) && m@ == "unsupported algorithm: "@
                + trimmed(algorithm@),
        },
{
    let name = trim_text(algorithm);
    match HashAlgorithm::from_name(name) {
        Some(a) => Ok((a, compute_digest(a, text))),
        None => {
            let mut m = String::from_str("unsupported algorithm: ");
            m.append(name);
            Err(ApiError::BadRequest(m))
        },
    }
}

/// The two directions of the Base64 tool.
#[derive(Clone, Copy, Debug, PartialEq, Eq, Structural)]
pub enum Base64Action {
    Encode,
    Decode,
}

impl Base64Action {
    pub open spec fn name_spec(self) -> Seq<char> {
        match self {
            Base64Action::Encode => "encode"@,
            Base64Action::Decode => "decode"@,
        }
    }

    pub fn as_str(&self) -> (r: &'static str)
        ensures
            r@ == self.name_spec(),
    {
        match self {
            Base64Action::Encode => "encode",
            Base64Action::Decode => "decode",
        }
    }

    /// Reads an action: `decode` in any ASCII case decodes, anything else encodes.
    pub fn from_text(value: &str) -> (r: Base64Action)
        ensures
            r == (if ascii_lowercase(value@) == "decode"@ {
                Base64Action::Decode
            } else {
                Base64Action::Encode
            }),
    {
        if lowercase_equals(value, "decode") {
            Base64Action::Decode
        } else {
            Base64Action::Encode
        }
    }
}

/// The action a Base64 request names when it names none.
pub fn default_action() -> (r: String)
    ensures
        r@ == "encode"@,
{
    String::from_str("encode")
}

/// Serves a Base64 request. Encoding always succeeds; decoding fails as a bad
/// request on text that is not Base64 and on bytes that are not UTF-8.
pub fn base64_transform(action: Base64Action, text: &str) -> (r: Result<String, ApiError>)
    ensures
        action == Base64Action::Encode ==> (r matches Ok(s) && s@ == base64_encoded(text@)),
        action == Base64Action::Decode ==> match base64_decoded(text@) {
            None => r matches Err(ApiError::BadRequest(m)) && "invalid base64: "@.is_prefix_of(
                m@,
            ),
            Some(b) => if valid_utf8(b) {
                r matches Ok(s) && s@ == decode_utf8(b)
            } else {
                r matches Err(ApiError::BadRequest(m)) && m@
                    == "decoded bytes are not valid UTF-8"@
            },
        },
{
    match action {
        Base64Action::Encode => Ok(base64_encode_utf8(text)),
        Base64Action::Decode => match base64_decode_text(text) {
            Err(e) => {
                let mut m = String::from_str("invalid base64: ");
                m.append(e.as_str());
                Err(ApiError::BadRequest(m))
            },
            Ok(bytes) => match string_from_utf8(bytes) {
                Some(s) => Ok(s),
                None => Err(ApiError::BadRequest(String::from_str("decoded bytes are not valid UTF-8"))),
            },
        },
    }
}

/// The indent width of the JSON formatter when a request gives none.
pub fn default_indent() -> (r: u8)
    ensures
        r == 2,
{
    2
}

pub open spec fn count_char(s: Seq<char>, c: char) -> nat
    decreases s.len(),
{
    if s.len() == 0 {
        0
    } else {
        count_char(s.drop_last(), c) + if s.last() == c {
            1nat
        } else {
            0nat
        }
    }
}

/// A local date-time in `YYYY-MM-DD HH:MM:SS` shape: each `T` becomes a
/// space, and a time with hours and minutes only gets `:00` seconds.
pub open spec fn normalized_datetime(s: Seq<char>) -> Seq<char> {
    if count_char(s, ':') == 1 {
        spaced(s) + ":00"@
    } else {
        spaced(s)
    }
}

/// The text with each `T` replaced by a space.
pub open spec fn spaced(s: Seq<char>) -> Seq<char> {
    s.map_values(|c: char| if c == 'T' { ' ' } else { c })
}

pub fn normalize_local_datetime(value: &str) -> (r: String)
    ensures
        r@ == normalized_datetime(value@),
{
    let n = value.unicode_len();
    let mut out = String::new();
    let mut colons: usize = 0;
    let mut it = value.chars();
    let ghost mut i: int = 0;
    loop
        invariant
            0 <= i <= value@.len(),
            n == value@.len(),
            it.remaining() == value@.subrange(i, value@.len() as int),
            colons == count_char(value@.subrange(0, i), ':'),
            colons <= i,
            out@ == spaced(value@.subrange(0, i)),
        ensures
            i == value@.len(),
            colons == count_char(value@.subrange(0, i), ':'),
            out@ == spaced(value@.subrange(0, i)),
        decreases value@.len() - i,
    {
        match it.next() {
            Some(c) => {
                proof {
                    assert(value@.subrange(0, i + 1).drop_last() =~= value@.subrange(0, i));
                }
                if c == ':' {
                    colons = colons + 1;
                }
                push_char(&mut out, if c == 'T' { ' ' } else { c });
                proof {
                    i = i + 1;
                    assert(out@ =~= spaced(value@.subrange(0, i)));
                }
            },
            None => {
                assert(i == value@.len());
                break;
            },
        }
    }
    assert(value@.subrange(0, i) =~= value@);
    if colons == 1 {
        out.append(":00");
    }
    out
}

/// A number below a hundred as two digits; larger ones in full.
pub open spec fn two_digits(n: nat) -> Seq<char> {
    if n < 10 {
        "0"@ + decimal(n)
    } else {
        decimal(n)
    }
}

pub open spec fn abs_minutes(total: i16) -> nat {
    if total < 0 {
        (-(total as int)) as nat
    } else {
        total as nat
    }
}

/// A UTC offset given in whole minutes, written `±HH:MM`: the hours of
/// the quotient by sixty rounded toward zero, signed and padded to two
/// digits, then the minutes of the remainder's magnitude.
pub open spec fn offset_text(total: i16) -> Seq<char> {
    let sign = if total as int <= -60 {
        "-"@
    } else {
        "+"@
    };
    sign + two_digits(abs_minutes(total) / 60) + ":"@ + two_digits(abs_minutes(total) % 60)
}

fn push_two_digits(out: &mut String, n: u32)
    ensures
        final(out)@ == old(out)@ + two_digits(n as nat),
{
    if n < 10 {
        out.append("0");
    }
    push_decimal(out, n as u64);
}

pub fn format_offset(total_minutes: i16) -> (r: String)
    ensures
        r@ == offset_text(total_minutes),
{
    let a: u32 = if total_minutes < 0 {
        (-(total_minutes as i32)) as u32
    } else {
        total_minutes as u32
    };
    assert(a as nat == abs_minutes(total_minutes));
    let mut out = String::new();
    if total_minutes <= -60 {
        out.append("-");
    } else {
        out.append("+");
    }
    push_two_digits(&mut out, a / 60);
    out.append(":");
    push_two_digits(&mut out, a % 60);
    assert(out@ =~= offset_text(total_minutes));
    out
}

pub open spec fn is_digit(c: char) -> bool {
    '0' <= c <= '9'
}

/// The value of a string of decimal digits.
pub open spec fn digits_value(s: Seq<char>) -> int
    decreases s.len(),
{
    if s.len() == 0 {
        0
    } else {
        digits_value(s.drop_last()) * 10 + (s.last() as int - '0' as int)
    }
}

/// A text without its one optional leading `+` or `-`.
pub open spec fn unsigned_part(s: Seq<char>) -> Seq<char> {
    if s.len() > 0 && (s[0] == '-' || s[0] == '+') {
        s.drop_first()
    } else {
        s
    }
}

pub open spec fn all_digits(s: Seq<char>) -> bool {
    forall|i: int| 0 <= i < s.len() ==> is_digit(#[trigger] s[i])
}

/// What `i8::from_str` reads from a text: an optional `+` or `-`, then one or
/// more ASCII digits whose value fits an `i8`.
pub open spec fn parsed_i8(s: Seq<char>) -> Option<i8> {
    let body = unsigned_part(s);
    let v = if s.len() > 0 && s[0] == '-' {
        -digits_value(body)
    } else {
        digits_value(body)
    };
    if body.len() == 0 || !all_digits(body) {
        None
    } else if -128 <= v <= 127 {
        Some(v as i8)
    } else {
        None
    }
}

proof fn lemma_digits_value_nonneg(s: Seq<char>)
    requires
        all_digits(s),
    ensures
        digits_value(s) >= 0,
    decreases s.len(),
{
    if s.len() > 0 {
        lemma_digits_value_nonneg(s.drop_last());
    }
}

/// Reads a decimal `i8` the way `i8::from_str` does.
pub fn parse_i8(s: &str) -> (r: Option<i8>)
    ensures
        r == parsed_i8(s@),
{
    let n = s.unicode_len();
    let neg = n > 0 && s.get_char(0) == '-';
    let start: usize = if n > 0 && (s.get_char(0) == '-' || s.get_char(0) == '+') {
        1
    } else {
        0
    };
    let ghost body = unsigned_part(s@);
    assert(body =~= s@.subrange(start as int, n as int));
    if start == n {
        return None;
    }
    let mut acc: u32 = 0;
    let mut i: usize = start;
    while i < n
        invariant
            start <= i <= n,
            n == s@.len(),
            body == unsigned_part(s@),
            neg == (s@.len() > 0 && s@[0] == '-'),
            body =~= s@.subrange(start as int, n as int),
            forall|j: int| start <= j < i ==> is_digit(#[trigger] s@[j]),
            acc as int == if digits_value(s@.subrange(start as int, i as int)) < 1000 {
                digits_value(s@.subrange(start as int, i as int))
            } else {
                1000
            },
        decreases n - i,
    {
        let c = s.get_char(i);
        if !('0' <= c && c <= '9') {
            assert(body[i - start] == c);
            assert(!all_digits(body));
            return None;
        }
        let ghost prev = s@.subrange(start as int, i as int);
        assert(s@.subrange(start as int, i + 1).drop_last() =~= prev);
        proof {
            assert forall|j: int| 0 <= j < prev.len() implies is_digit(#[trigger] prev[j]) by {
                assert(prev[j] == s@[start + j]);
            }
            assert(all_digits(prev));
            lemma_digits_value_nonneg(prev);
        }
        let d: u32 = (c as u32) - 48;
        acc = if acc * 10 + d < 1000 {
            acc * 10 + d
        } else {
            1000
        };
        proof {
            let v = digits_value(prev);
            let w = digits_value(s@.subrange(start as int, i + 1));
            assert(w == v * 10 + d);
            if v >= 1000 {
                assert(w >= 1000) by (nonlinear_arith)
                    requires
                        w == v * 10 + d,
                        v >= 1000,
                        d >= 0,
                ;
            }
        }
        i = i + 1;
    }
    assert(all_digits(body)) by {
        assert forall|j: int| 0 <= j < body.len() implies is_digit(#[trigger] body[j]) by {
            assert(body[j] == s@[start + j]);
        }
    }
    assert(s@.subrange(start as int, n as int) =~= body);
    if neg {
        if acc <= 128 {
            Some((0 - (acc as i32)) as i8)
        } else {
            None
        }
    } else {
        if acc <= 127 {
            Some(acc as i8)
        } else {
            None
        }
    }
}

/// The text after its leading `+` and `-` characters.
pub open spec fn strip_signs(s: Seq<char>) -> Seq<char>
    decreases s.len(),
{
    if s.len() > 0 && (s[0] == '+' || s[0] == '-') {
        strip_signs(s.drop_first())
    } else {
        s
    }
}

/// The index of the first `:` at or after `from`, or the length when there is none.
pub open spec fn next_colon(s: Seq<char>, from: int) -> int
    decreases s.len() - from,
{
    if from < 0 || from >= s.len() {
        s.len() as int
    } else if s[from] == ':' {
        from
    } else {
        next_colon(s, from + 1)
    }
}

proof fn lemma_next_colon_bounds(s: Seq<char>, from: int)
    requires
        0 <= from <= s.len(),
    ensures
        from <= next_colon(s, from) <= s.len(),
    decreases s.len() - from,
{
    if from < s.len() && s[from] != ':' {
        lemma_next_colon_bounds(s, from + 1);
    }
}

fn find_colon(s: &str, from: usize) -> (r: usize)
    requires
        from <= s@.len(),
    ensures
        r == next_colon(s@, from as int),
{
    let n = s.unicode_len();
    let mut i = from;
    while i < n && s.get_char(i) != ':'
        invariant
            from <= i <= n,
            n == s@.len(),
            next_colon(s@, from as int) == next_colon(s@, i as int),
        decreases n - i,
    {
        i = i + 1;
    }
    i
}

/// The hours and minutes a time-zone label gives, each with the label's sign.
/// A blank label and `local` (any ASCII case) give none; `utc` gives zero.
/// Otherwise the label, after its leading signs, is `hours` or
/// `hours:minutes`, each read as an `i8`; anything after a second colon is
/// ignored.
pub open spec fn timezone_of(label: Seq<char>) -> Option<(i8, i8)> {
    let t = trimmed(label);
    let neg = t.len() > 0 && t[0] == '-';
    let digits = strip_signs(t);
    let c1 = next_colon(digits, 0);
    let hours = parsed_i8(digits.subrange(0, c1));
    let minutes = if c1 < digits.len() {
        parsed_i8(digits.subrange(c1 + 1, next_colon(digits, c1 + 1)))
    } else {
        Some(0i8)
    };
    if t.len() == 0 || ascii_lowercase(t) == "local"@ {
        None
    } else if ascii_lowercase(t) == "utc"@ {
        Some((0i8, 0i8))
    } else if hours is None || minutes is None {
        None
    } else if !neg {
        Some((hours->0, minutes->0))
    } else if hours->0 == -128 || minutes->0 == -128 {
        None
    } else {
        Some(((-(hours->0 as int)) as i8, (-(minutes->0 as int)) as i8))
    }
}

pub fn parse_timezone(label: &str) -> (r: Option<(i8, i8)>)
    ensures
        r == timezone_of(label@),
{
    let t = trim_text(label);
    if t.is_empty() || lowercase_equals(t, "local") {
        return None;
    }
    if lowercase_equals(t, "utc") {
        return Some((0, 0));
    }
    let n = t.unicode_len();
    let neg = t.get_char(0) == '-';
    let mut k: usize = 0;
    assert(t@.subrange(0, n as int) =~= t@);
    while k < n && (t.get_char(k) == '+' || t.get_char(k) == '-')
        invariant
            k <= n,
            n == t@.len(),
            strip_signs(t@) == strip_signs(t@.subrange(k as int, n as int)),
        decreases n - k,
    {
        assert(t@.subrange(k as int, n as int).drop_first() =~= t@.subrange(k + 1, n as int));
        k = k + 1;
    }
    let digits = t.substring_char(k, n);
    assert(digits@ =~= strip_signs(t@)) by {
        if k < n {
            assert(digits@[0] == t@[k as int]);
        }
    }
    let m = digits.unicode_len();
    let c1 = find_colon(digits, 0);
    proof {
        lemma_next_colon_bounds(digits@, 0);
    }
    let hours = match parse_i8(digits.substring_char(0, c1)) {
        Some(h) => h,
        None => return None,
    };
    let minutes = if c1 < m {
        let c2 = find_colon(digits, c1 + 1);
        proof {
            lemma_next_colon_bounds(digits@, c1 + 1);
        }
        match parse_i8(digits.substring_char(c1 + 1, c2)) {
            Some(v) => v,
            None => return None,
        }
    } else {
        0
    };
    if !neg {
        Some((hours, minutes))
    } else if hours == -128 || minutes == -128 {
        None
    } else {
        Some((-hours, -minutes))
    }
}

/// The value of a text of optional sign and decimal digits, if it is one.
pub open spec fn parsed_int(s: Seq<char>) -> Option<int> {
    let body = unsigned_part(s);
    if body.len() == 0 || !all_digits(body) {
        None
    } else if s.len() > 0 && s[0] == '-' {
        Some(-digits_value(body))
    } else {
        Some(digits_value(body))
    }
}

/// Relies on `i128::from_str`: an optional `+` or `-`, then one or more
/// ASCII digits, whose value must fit an `i128`.
#[verifier::external_body]
fn parse_i128(s: &str) -> (r: Option<i128>)
    ensures
        r matches Some(v) ==> parsed_int(s@) == Some(v as int),
        r is None ==> (parsed_int(s@) matches Some(v) ==> !(i128::MIN <= v <= i128::MAX)),
{
    s.parse::<i128>().ok()
}

/// What a timestamp conversion starts from.
#[derive(Clone, Copy, Debug, PartialEq, Eq, Structural)]
pub enum TimestampMode {
    Now,
    FromUnix,
    FromIso,
}

/// The mode of a conversion request that names none.
pub fn default_mode() -> (r: TimestampMode)
    ensures
        r == TimestampMode::Now,
{
    TimestampMode::Now
}

/// The unit a unix timestamp is given in.
#[derive(Clone, Copy, Debug, PartialEq, Eq, Structural)]
pub enum TimestampUnit {
    Seconds,
    Milliseconds,
}

/// The input of a conversion, trimmed; none when absent or blank.
pub open spec fn given_input(input: Option<&str>) -> Option<Seq<char>> {
    match input {
        Some(s) => if trimmed(s@).len() > 0 {
            Some(trimmed(s@))
        } else {
            None
        },
        None => None,
    }
}

/// The trimmed input of a conversion; a missing or blank one is a bad request.
pub fn non_blank_input(input: Option<&str>) -> (r: Result<&str, ApiError>)
    ensures
        match given_input(input) {
            Some(t) => r matches Ok(v) && v@ == t,
            None => r matches Err(ApiError::BadRequest(m)) && m@ == "missing input"@,
        },
{
    match input {
        Some(s) => {
            let t = trim_text(s);
            if t.is_empty() {
                Err(ApiError::BadRequest(String::from_str("missing input")))
            } else {
                Ok(t)
            }
        },
        None => Err(ApiError::BadRequest(String::from_str("missing input"))),
    }
}

/// Quotient and remainder of integer division rounded toward zero.
pub open spec fn tdiv(x: int, d: int) -> int {
    if x >= 0 {
        x / d
    } else {
        -((-x) / d)
    }
}

pub open spec fn trem(x: int, d: int) -> int {
    if x >= 0 {
        x % d
    } else {
        -((-x) % d)
    }
}

/// Whole seconds (cut to `i64`) and extra nanoseconds of a raw timestamp.
pub open spec fn unix_split(raw: i128, unit: TimestampUnit) -> (i64, i64) {
    match unit {
        TimestampUnit::Seconds => (raw as i64, 0i64),
        TimestampUnit::Milliseconds => (
            tdiv(raw as int, 1000) as i64,
            (trem(raw as int, 1000) * 1_000_000) as i64,
        ),
    }
}

pub fn split_unix(raw: i128, unit: TimestampUnit) -> (r: (i64, i64))
    ensures
        r == unix_split(raw, unit),
{
    match unit {
        TimestampUnit::Seconds => (raw as i64, 0),
        TimestampUnit::Milliseconds => {
            if raw >= 0 {
                ((raw / 1000) as i64, ((raw % 1000) as i64) * 1_000_000)
            } else {
                let a: u128 = (-(raw + 1)) as u128 + 1;
                let q: i128 = -((a / 1000) as i128);
                let m: i64 = -((a % 1000) as i64);
                (q as i64, m * 1_000_000)
            }
        },
    }
}

/// Reads a unix timestamp: the whole seconds and extra nanoseconds of the
/// trimmed input in the given unit. A missing input and one that is not an
/// `i128` are bad requests.
pub fn unix_instant(input: Option<&str>, unit: TimestampUnit) -> (r: Result<(i64, i64), ApiError>)
    ensures
        given_input(input) is None ==> (r matches Err(ApiError::BadRequest(m)) && m@
            == "missing input"@),
        given_input(input) matches Some(t) ==> match parsed_int(t) {
            Some(v) => if i128::MIN <= v <= i128::MAX {
                r == Ok::<(i64, i64), ApiError>(unix_split(v as i128, unit))
            } else {
                r matches Err(ApiError::BadRequest(m)) && m@ == "invalid unix timestamp"@
            },
            None => r matches Err(ApiError::BadRequest(m)) && m@ == "invalid unix timestamp"@,
        },
{
    let value = non_blank_input(input)?;
    match parse_i128(value) {
        Some(raw) => Ok(split_unix(raw, unit)),
        None => Err(ApiError::BadRequest(String::from_str("invalid unix timestamp"))),
    }
}

pub open spec fn contains_char(s: Seq<char>, c: char) -> bool {
    exists|i: int| 0 <= i < s.len() && s[i] == c
}

pub open spec fn dash_after_t(s: Seq<char>) -> bool {
    exists|k: int, i: int| 0 <= k < i < s.len() && s[k] == 'T' && s[i] == '-'
}

/// Whether a date-time text carries its own offset, and is read as RFC 3339:
/// it has a `T`, and a `Z`, a `+`, or a `-` after its first `T`.
pub open spec fn has_explicit_offset_spec(v: Seq<char>) -> bool {
    contains_char(v, 'T') && (contains_char(v, 'Z') || contains_char(v, '+') || dash_after_t(v))
}

pub fn has_explicit_offset(value: &str) -> (r: bool)
    ensures
        r == has_explicit_offset_spec(value@),
{
    let n = value.unicode_len();
    let mut seen_t = false;
    let mut seen_z = false;
    let mut seen_plus = false;
    let mut dash = false;
    let mut it = value.chars();
    let ghost mut i: int = 0;
    loop
        invariant
            0 <= i <= n,
            n == value@.len(),
            it.remaining() == value@.subrange(i, n as int),
            seen_t == contains_char(value@.subrange(0, i), 'T'),
            seen_z == contains_char(value@.subrange(0, i), 'Z'),
            seen_plus == contains_char(value@.subrange(0, i), '+'),
            dash == dash_after_t(value@.subrange(0, i)),
        ensures
            i == n,
            seen_t == contains_char(value@.subrange(0, i), 'T'),
            seen_z == contains_char(value@.subrange(0, i), 'Z'),
            seen_plus == contains_char(value@.subrange(0, i), '+'),
            dash == dash_after_t(value@.subrange(0, i)),
        decreases n - i,
    {
        match it.next() {
            Some(c) => {
                let ghost pre = value@.subrange(0, i);
                let ghost post = value@.subrange(0, i + 1);
                proof {
                    assert(post =~= pre.push(c));
                    assert(contains_char(pre, 'T') ==> contains_char(post, 'T')) by {
                        if contains_char(pre, 'T') {
                            let w = choose|w: int| 0 <= w < pre.len() && pre[w] == 'T';
                            assert(post[w] == 'T');
                        }
                    }
                    assert(contains_char(pre, 'Z') ==> contains_char(post, 'Z')) by {
                        if contains_char(pre, 'Z') {
                            let w = choose|w: int| 0 <= w < pre.len() && pre[w] == 'Z';
                            assert(post[w] == 'Z');
                        }
                    }
                    assert(contains_char(pre, '+') ==> contains_char(post, '+')) by {
                        if contains_char(pre, '+') {
                            let w = choose|w: int| 0 <= w < pre.len() && pre[w] == '+';
                            assert(post[w] == '+');
                        }
                    }
                    assert(dash_after_t(pre) ==> dash_after_t(post)) by {
                        if dash_after_t(pre) {
                            let (k, w) = choose|k: int, w: int|
                                0 <= k < w < pre.len() && pre[k] == 'T' && pre[w] == '-';
                            assert(post[k] == 'T' && post[w] == '-');
                        }
                    }
                    assert(post[i] == c);
                }
                if c == '-' && seen_t {
                    proof {
                        let w = choose|w: int| 0 <= w < pre.len() && pre[w] == 'T';
                        assert(post[w] == 'T');
                    }
                    dash = true;
                }
                if c == 'T' {
                    seen_t = true;
                }
                if c == 'Z' {
                    seen_z = true;
                }
                if c == '+' {
                    seen_plus = true;
                }
                proof {
                    if !contains_char(pre, 'T') && c != 'T' {
                        assert forall|w: int| 0 <= w < post.len() implies post[w] != 'T' by {
                            if w < pre.len() {
                                assert(post[w] == pre[w]);
                            }
                        }
                    }
                    if !contains_char(pre, 'Z') && c != 'Z' {
                        assert forall|w: int| 0 <= w < post.len() implies post[w] != 'Z' by {
                            if w < pre.len() {
                                assert(post[w] == pre[w]);
                            }
                        }
                    }
                    if !contains_char(pre, '+') && c != '+' {
                        assert forall|w: int| 0 <= w < post.len() implies post[w] != '+' by {
                            if w < pre.len() {
                                assert(post[w] == pre[w]);
                            }
                        }
                    }
                    if !dash_after_t(pre) && !(c == '-' && contains_char(pre, 'T')) {
                        assert forall|k: int, w: int|
                            0 <= k < w < post.len() && post[k] == 'T' implies post[w] != '-' by {
                            if w < pre.len() {
                                assert(post[w] == pre[w] && post[k] == pre[k]);
                            } else {
                                assert(pre[k] == 'T');
                            }
                        }
                    }
                    i = i + 1;
                }
            },
            None => {
                break;
            },
        }
    }
    assert(value@.subrange(0, i) =~= value@);
    seen_t && (seen_z || seen_plus || dash)
}

} // verus!
