use vstd::prelude::*;
use crate::cache::{put_entries, TtlCache};
use crate::error::{ApiError, ProviderError};
use crate::fingerprint::{cache_key, fingerprint};
use crate::lang::{detect_lang, detected, Lang};
use crate::text::{all_white_space, lemma_trimmed_empty, trim_text, trimmed};

verus! {

broadcast use vstd::string::group_string_axioms;

/// A translation request: the text, and optional explicit source and target languages.
#[derive(Debug)]
pub struct TranslateRequest {
    pub text: String,
    pub source_lang: Option<Lang>,
    pub target_lang: Option<Lang>,
}

#[derive(Debug)]
pub struct TranslateResult {
    pub detected_lang: Lang,
    pub target_lang: Lang,
    pub translation: String,
    pub provider: String,
    /// Whether the translation came from the cache rather than the backend.
    pub cached: bool,
}

/// A cache miss: what the backend is to be asked, and the key its answer is stored under.
#[derive(Debug)]
pub struct PendingTranslation {
    pub text: String,
    pub detected: Lang,
    pub target: Lang,
    pub key: String,
}

/// What the gateway does next with a request.
#[derive(Debug)]
pub enum GatewayStep {
    /// The request is answered.
    Done(TranslateResult),
    /// The backend has to be called; its outcome is handed to `finish`.
    CallProvider(PendingTranslation),
}

/// The source language of a request: the explicit one, else the detected one.
pub open spec fn source_of(req_text: Seq<char>, source: Option<Lang>) -> Lang {
    match source {
        Some(l) => l,
        None => detected(trimmed(req_text)),
    }
}

/// The target language: the explicit one, else the other language.
pub open spec fn target_of(src: Lang, target: Option<Lang>) -> Lang {
    match target {
        Some(l) => l,
        None => src.other(),
    }
}

/// The cache key of a request served by `provider`.
pub open spec fn request_key(provider: Seq<char>, req: TranslateRequest) -> Seq<char> {
    let src = source_of(req.text@, req.source_lang);
    fingerprint(provider, src.tag(), target_of(src, req.target_lang).tag(), trimmed(req.text@))
}

/// The cached translation a request is answered with at `now`, if any.
pub open spec fn cached_answer(
    cache: TtlCache,
    provider: Seq<char>,
    req: TranslateRequest,
    now: u64,
) -> Option<Seq<char>> {
    cache.lookup(request_key(provider, req), now)
}

pub open spec fn is_empty_text_error(e: ApiError) -> bool {
    e matches ApiError::BadRequest(m) && m@ == "empty text"@
}

pub open spec fn is_translation_failed_error(e: ApiError) -> bool {
    e matches ApiError::Internal(m) && m@ == "translation failed"@
}

/// First half of serving a request: trims the text, rejects a blank one,
/// resolves the languages, derives the key and consults the cache.
pub fn begin(cache: &TtlCache, provider: &str, req: &TranslateRequest, now: u64) -> (r: Result<
    GatewayStep,
    ApiError,
>)
    ensures
        all_white_space(req.text@) <==> r is Err,
        r matches Err(e) ==> is_empty_text_error(e),
        !all_white_space(req.text@) ==> {
            let src = source_of(req.text@, req.source_lang);
            let dst = target_of(src, req.target_lang);
            match cached_answer(*cache, provider@, *req, now) {
                Some(v) => r matches Ok(GatewayStep::Done(res)) && res.cached
                    && res.translation@ == v && res.detected_lang == src && res.target_lang == dst
                    && res.provider@ == provider@,
                None => r matches Ok(GatewayStep::CallProvider(p)) && p.text@ == trimmed(
                    req.text@,
                ) && p.detected == src && p.target == dst && p.key@ == request_key(
                    provider@,
                    *req,
                ),
            }
        },
{
    let text = trim_text(req.text.as_str());
    proof {
        lemma_trimmed_empty(req.text@);
    }
    if text.is_empty() {
        return Err(ApiError::BadRequest(String::from_str("empty text")));
    }
    let src = match req.source_lang {
        Some(l) => l,
        None => detect_lang(text),
    };
    let dst = match req.target_lang {
        Some(l) => l,
        None => src.opposite(),
    };
    let key = cache_key(provider, src.as_str(), dst.as_str(), text);
    match cache.get(key.as_str(), now) {
        Some(v) => Ok(
            GatewayStep::Done(
                TranslateResult {
                    detected_lang: src,
                    target_lang: dst,
                    translation: v,
                    provider: String::from_str(provider),
                    cached: true,
                },
            ),
        ),
        None => Ok(
            GatewayStep::CallProvider(
                PendingTranslation {
                    text: String::from_str(text),
                    detected: src,
                    target: dst,
                    key,
                },
            ),
        ),
    }
}

/// Second half, after a cache miss: stores a translation the backend gave
/// and returns it; a backend failure becomes a generic internal error and
/// leaves the cache as it was.
pub fn finish(
    cache: &mut TtlCache,
    provider: &str,
    pending: PendingTranslation,
    outcome: Result<String, ProviderError>,
    now: u64,
) -> (r: Result<TranslateResult, ApiError>)
    ensures
        final(cache).ttl() == old(cache).ttl(),
        final(cache).capacity() == old(cache).capacity(),
        match outcome {
            Ok(s) => {
                &&& r matches Ok(res) && !res.cached && res.translation@ == s@ && res.detected_lang
                    == pending.detected && res.target_lang == pending.target && res.provider@
                    == provider@
                &&& final(cache)@ == put_entries(
                    old(cache)@,
                    pending.key@,
                    s@,
                    old(cache).ttl(),
                    old(cache).capacity(),
                    now,
                )
            },
            Err(_) => {
                &&& r matches Err(e) && is_translation_failed_error(e)
                &&& final(cache)@ == old(cache)@
            },
        },
{
    match outcome {
        Ok(s) => {
            let value = s.clone();
            assert(value@ == s@);
            cache.put(pending.key, value, now);
            Ok(
                TranslateResult {
                    detected_lang: pending.detected,
                    target_lang: pending.target,
                    translation: s,
                    provider: String::from_str(provider),
                    cached: false,
                },
            )
        },
        Err(_) => Err(ApiError::Internal(String::from_str("translation failed"))),
    }
}

/// A repeated request is served from the cache: once `finish` has stored the
/// backend's translation `s` for a request at `now`, the same request to the
/// same provider at any `t` before the time to live has passed is answered
/// with `s` from the cache, without calling the backend.
pub proof fn lemma_repeat_request_hits_cache(
    before: TtlCache,
    after: TtlCache,
    provider: Seq<char>,
    req: TranslateRequest,
    s: Seq<char>,
    now: u64,
    t: u64,
)
    requires
        before.capacity() > 0,
        after.ttl() == before.ttl(),
        after@ == put_entries(
            before@,
            request_key(provider, req),
            s,
            before.ttl(),
            before.capacity(),
            now,
        ),
        (t as int) < now as int + before.ttl() as int,
    ensures
        cached_answer(after, provider, req, t) == Some(s),
{
    crate::cache::lemma_put_then_lookup(before, request_key(provider, req), s, now, t);
}

} // verus!
