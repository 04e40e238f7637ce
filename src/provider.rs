use vstd::prelude::*;
use crate::error::ProviderError;
use crate::fingerprint::push_char;
use crate::lang::Lang;

verus! {

broadcast use vstd::string::group_string_axioms;

/// The system instruction sent with every translation.
pub const SYSTEM_PROMPT: &'static str = "You are a translation engine. Preserve formatting, code blocks and placeholders. Only output the translated text.";

/// The backends a gateway can be configured with.
#[derive(Clone, Copy, Debug, PartialEq, Eq, Structural)]
pub enum ProviderKind {
    Deepseek,
}

impl ProviderKind {
    pub open spec fn name_spec(self) -> Seq<char> {
        match self {
            ProviderKind::Deepseek => "deepseek"@,
        }
    }

    /// The name a backend is selected by, reported in answers and part of every cache key.
    pub fn name(&self) -> (r: &'static str)
        ensures
            r@ == self.name_spec(),
    {
        "deepseek"
    }

    /// The backend a configured name selects, if any.
    pub fn from_name(s: &str) -> (r: Option<ProviderKind>)
        ensures
            r matches Some(k) ==> s@ == k.name_spec(),
            r is None ==> s@ != ProviderKind::Deepseek.name_spec(),
    {
        let d = ProviderKind::Deepseek;
        if crate::text::same_text(s, d.name()) {
            Some(d)
        } else {
            None
        }
    }
}

/// The tag of an optional source language; `auto` when it is unknown.
pub open spec fn source_tag(source: Option<Lang>) -> Seq<char> {
    match source {
        Some(l) => l.tag(),
        None => "auto"@,
    }
}

/// The user message: the source tag, the target tag and the raw text.
pub open spec fn user_prompt_spec(text: Seq<char>, source: Option<Lang>, target: Lang) -> Seq<
    char,
> {
    "Source: "@ + source_tag(source) + "\nTarget: "@ + target.tag() + "\nText:\n"@ + text
}

pub fn user_prompt(text: &str, source: Option<Lang>, target: Lang) -> (r: String)
    ensures
        r@ == user_prompt_spec(text@, source, target),
{
    let mut out = String::from_str("Source: ");
    match source {
        Some(l) => out.append(l.as_str()),
        None => out.append("auto"),
    }
    out.append("\nTarget: ");
    out.append(target.as_str());
    out.append("\nText:\n");
    out.append(text);
    out
}

pub open spec fn strip_trailing_slashes(s: Seq<char>) -> Seq<char>
    decreases s.len(),
{
    if s.len() > 0 && s.last() == '/' {
        strip_trailing_slashes(s.drop_last())
    } else {
        s
    }
}

/// The chat-completion endpoint under a base URL, with the base's trailing
/// slashes dropped.
pub fn completions_url(base: &str) -> (r: String)
    ensures
        r@ == strip_trailing_slashes(base@) + "/v1/chat/completions"@,
{
    let mut i: usize = base.unicode_len();
    assert(base@.subrange(0, i as int) =~= base@);
    while i > 0 && base.get_char(i - 1) == '/'
        invariant
            i <= base@.len(),
            strip_trailing_slashes(base@) == strip_trailing_slashes(base@.subrange(0, i as int)),
        decreases i,
    {
        assert(base@.subrange(0, i as int).drop_last() =~= base@.subrange(0, i - 1));
        i = i - 1;
    }
    assert(i == 0 || base@.subrange(0, i as int).last() == base@[i - 1]);
    let mut out = String::from_str(base.substring_char(0, i));
    out.append("/v1/chat/completions");
    out
}

/// The decimal digits of a number, without leading zeros.
pub open spec fn decimal(n: nat) -> Seq<char>
    decreases n,
{
    if n < 10 {
        seq![(n + 48) as u8 as char]
    } else {
        decimal(n / 10).push(((n % 10) + 48) as u8 as char)
    }
}

pub(crate) fn push_decimal(out: &mut String, n: u64)
    ensures
        final(out)@ == old(out)@ + decimal(n as nat),
    decreases n,
{
    if n >= 10 {
        push_decimal(out, n / 10);
    }
    push_char(out, ((n % 10) as u8 + 48) as char);
    proof {
        if n >= 10 {
            assert(((n % 10) as nat + 48) as u8 == ((n % 10) as u8 + 48) as u8);
        }
    }
}

/// Whether an HTTP status is a success (2xx).
pub open spec fn is_success(status: u16) -> bool {
    200 <= status <= 299
}

/// The diagnostic text of a failed status: `status=<code> <reason> body=<body>`.
pub open spec fn status_message(status: u16, reason: Seq<char>, body: Seq<char>) -> Seq<char> {
    "status="@ + decimal(status as nat) + " "@ + reason + " body="@ + body
}

pub fn is_success_status(status: u16) -> (r: bool)
    ensures
        r == is_success(status),
{
    200 <= status && status <= 299
}

/// The transport error of an answer with a non-success status: it carries
/// the status, its reason phrase and the body.
pub fn status_error(status: u16, reason: &str, body: &str) -> (r: ProviderError)
    ensures
        r matches ProviderError::Http(m) && m@ == status_message(status, reason@, body@),
{
    let mut m = String::from_str("status=");
    push_decimal(&mut m, status as u64);
    m.append(" ");
    m.append(reason);
    m.append(" body=");
    m.append(body);
    ProviderError::Http(m)
}

/// Takes the first completion of a decoded answer; an answer with none is a
/// bad response.
pub fn first_choice(choices: Vec<String>) -> (r: Result<String, ProviderError>)
    ensures
        choices@.len() > 0 <==> r is Ok,
        r matches Ok(s) ==> s@ == choices@[0]@,
        r matches Err(e) ==> e matches ProviderError::BadResponse(m) && m@ == "empty choices"@,
{
    let mut choices = choices;
    if choices.len() == 0 {
        return Err(ProviderError::BadResponse(String::from_str("empty choices")));
    }
    let first = choices.swap_remove(0);
    Ok(first)
}

} // verus!
