use magicbox::cache::TtlCache;
use magicbox::error::{ApiError, ProviderError};
use magicbox::fingerprint::cache_key;
use magicbox::gateway::{begin, finish, GatewayStep, PendingTranslation, TranslateRequest, TranslateResult};
use magicbox::lang::Lang;

const PROVIDER: &str = "deepseek";

fn request(text: &str, source: Option<Lang>, target: Option<Lang>) -> TranslateRequest {
    TranslateRequest { text: text.to_string(), source_lang: source, target_lang: target }
}

/// A backend double: answers with a fixed reply and counts its calls.
struct CountingBackend {
    calls: usize,
    reply: Result<String, String>,
}

impl CountingBackend {
    fn translate(&mut self, _p: &PendingTranslation) -> Result<String, ProviderError> {
        self.calls += 1;
        match &self.reply {
            Ok(s) => Ok(s.clone()),
            Err(m) => Err(ProviderError::Http(m.clone())),
        }
    }
}

fn serve(
    cache: &mut TtlCache,
    backend: &mut CountingBackend,
    req: &TranslateRequest,
    now: u64,
) -> Result<TranslateResult, ApiError> {
    match begin(cache, PROVIDER, req, now)? {
        GatewayStep::Done(r) => Ok(r),
        GatewayStep::CallProvider(p) => {
            let outcome = backend.translate(&p);
            finish(cache, PROVIDER, p, outcome, now)
        }
    }
}

#[test]
fn first_request_calls_backend() {
    let mut cache = TtlCache::new(300, 100);
    let mut backend = CountingBackend { calls: 0, reply: Ok("你好".to_string()) };
    let r = serve(&mut cache, &mut backend, &request("hello", None, None), 1000).unwrap();
    assert_eq!(r.detected_lang, Lang::En);
    assert_eq!(r.target_lang, Lang::Zh);
    assert_eq!(r.translation, "你好");
    assert_eq!(r.provider, "deepseek");
    assert!(!r.cached);
    assert_eq!(backend.calls, 1);
}

#[test]
fn repeated_request_is_cached() {
    let mut cache = TtlCache::new(300, 100);
    let mut backend = CountingBackend { calls: 0, reply: Ok("你好".to_string()) };
    let req = request("hello", None, None);
    let first = serve(&mut cache, &mut backend, &req, 1000).unwrap();
    let second = serve(&mut cache, &mut backend, &req, 1001).unwrap();
    assert!(!first.cached);
    assert!(second.cached);
    assert_eq!(second.translation, first.translation);
    assert_eq!(second.detected_lang, Lang::En);
    assert_eq!(second.target_lang, Lang::Zh);
    assert_eq!(backend.calls, 1);
}

#[test]
fn repeat_after_ttl_calls_backend_again() {
    let mut cache = TtlCache::new(300, 100);
    let mut backend = CountingBackend { calls: 0, reply: Ok("你好".to_string()) };
    let req = request("hello", None, None);
    serve(&mut cache, &mut backend, &req, 1000).unwrap();
    let late = serve(&mut cache, &mut backend, &req, 1300).unwrap();
    assert!(!late.cached);
    assert_eq!(backend.calls, 2);
}

#[test]
fn chinese_text_with_explicit_target() {
    let mut cache = TtlCache::new(300, 100);
    let mut backend = CountingBackend { calls: 0, reply: Ok("hello".to_string()) };
    let r = serve(&mut cache, &mut backend, &request("你好", None, Some(Lang::En)), 5).unwrap();
    assert_eq!(r.detected_lang, Lang::Zh);
    assert_eq!(r.target_lang, Lang::En);
    assert_eq!(r.translation, "hello");
}

#[test]
fn explicit_source_is_trusted() {
    let cache = TtlCache::new(300, 100);
    match begin(&cache, PROVIDER, &request("hello", Some(Lang::Zh), None), 0) {
        Ok(GatewayStep::CallProvider(p)) => {
            assert_eq!(p.detected, Lang::Zh);
            assert_eq!(p.target, Lang::En);
        }
        _ => panic!("expected a backend call"),
    }
}

#[test]
fn backend_failure_is_internal_and_not_cached() {
    let mut cache = TtlCache::new(300, 100);
    let mut backend = CountingBackend { calls: 0, reply: Err("status=502".to_string()) };
    let req = request("hello", None, None);
    match serve(&mut cache, &mut backend, &req, 10) {
        Err(ApiError::Internal(m)) => assert_eq!(m, "translation failed"),
        _ => panic!("expected an internal error"),
    }
    let key = cache_key("deepseek", "en", "zh", "hello");
    assert!(cache.get(&key, 10).is_none());
    assert_eq!(cache.len(), 0);
    match begin(&cache, PROVIDER, &req, 11) {
        Ok(GatewayStep::CallProvider(_)) => {}
        _ => panic!("expected a backend call"),
    }
}

#[test]
fn blank_text_is_rejected() {
    let mut cache = TtlCache::new(300, 100);
    for text in ["", "   ", "\t\n ", "\u{3000}"] {
        let mut backend = CountingBackend { calls: 0, reply: Ok("x".to_string()) };
        match serve(&mut cache, &mut backend, &request(text, None, None), 0) {
            Err(ApiError::BadRequest(m)) => assert_eq!(m, "empty text"),
            _ => panic!("expected a bad request"),
        }
        assert_eq!(backend.calls, 0);
    }
}

#[test]
fn text_is_trimmed_before_use() {
    let cache = TtlCache::new(300, 100);
    match begin(&cache, PROVIDER, &request("  hello \n", None, None), 0) {
        Ok(GatewayStep::CallProvider(p)) => {
            assert_eq!(p.text, "hello");
            assert_eq!(p.key, cache_key("deepseek", "en", "zh", "hello"));
            assert_eq!(p.key, "08a392d2c951c82681dc323e84d217c4");
        }
        _ => panic!("expected a backend call"),
    }
}

#[test]
fn api_error_fields() {
    let e = ApiError::BadRequest("empty text".to_string());
    assert_eq!(e.status(), 400);
    assert_eq!(e.code(), "BadRequest");
    assert_eq!(e.message(), "empty text");
    let e = ApiError::Internal("translation failed".to_string());
    assert_eq!(e.status(), 500);
    assert_eq!(e.code(), "Internal");
    let e = ApiError::NotFound("route not found".to_string());
    assert_eq!(e.status(), 404);
    assert_eq!(e.code(), "NotFound");
    assert_eq!(e.message(), "route not found");
}
