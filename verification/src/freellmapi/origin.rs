//! The origin of a FreeLLMAPI server, and the addresses under it.
use vstd::prelude::*;

use crate::text;

verus! {

/// Where a FreeLLMAPI server listens unless it is configured otherwise.
pub const FREELLMAPI_DEFAULT_BASE_URL: &'static str = "http://127.0.0.1:3001";

/// The origin that a base URL stands for: without whitespace around it, without slashes at its
/// end, and without the version segment there.
pub open spec fn origin_of(url: Seq<char>) -> Seq<char> {
    let base = text::without_trailing(text::trimmed(url), '/');
    if "/v1"@.is_suffix_of(base) {
        text::without_trailing(base.take(base.len() - "/v1"@.len()), '/')
    } else {
        base
    }
}

/// The origin that a configured base URL stands for, or that of the default one.
pub open spec fn configured_origin(configured: Option<Seq<char>>) -> Seq<char> {
    match configured {
        Some(url) => origin_of(url),
        None => origin_of(FREELLMAPI_DEFAULT_BASE_URL@),
    }
}

/// The origin that a base URL stands for.
pub fn strip_v1_suffix(url: &str) -> (origin: String)
    ensures
        origin@ == origin_of(url@),
{
    let base = text::trim_trailing(text::trim(url), '/');
    match text::strip_end(base, "/v1") {
        Some(stripped) => String::from_str(text::trim_trailing(stripped, '/')),
        None => String::from_str(base),
    }
}

/// The origin that a configured base URL stands for, or that of the default one.
pub fn freellmapi_origin(configured: Option<&str>) -> (origin: String)
    ensures
        origin@ == configured_origin(
            match configured {
                Some(url) => Some(url@),
                None => None,
            },
        ),
{
    match configured {
        Some(url) => strip_v1_suffix(url),
        None => strip_v1_suffix(FREELLMAPI_DEFAULT_BASE_URL),
    }
}

/// Where a server tells of its health.
pub fn health_url(origin: &str) -> (url: String)
    ensures
        url@ == origin@ + "/api/health"@,
{
    let mut url = String::from_str(origin);
    url.append("/api/health");
    url
}

/// Where a server hands out its API key.
pub fn api_key_url(origin: &str) -> (url: String)
    ensures
        url@ == origin@ + "/api/settings/api-key"@,
{
    let mut url = String::from_str(origin);
    url.append("/api/settings/api-key");
    url
}

/// A text with no whitespace at its start and no slash at its end.
pub open spec fn is_bare(origin: Seq<char>) -> bool {
    origin.len() > 0 ==> !text::is_white(origin[0]) && origin.last() != '/'
}

/// A run of slashes.
pub open spec fn is_slashes(s: Seq<char>) -> bool {
    forall|i: int| 0 <= i < s.len() ==> s[i] == '/'
}

proof fn lemma_without_trailing_slashes(s: Seq<char>, slashes: Seq<char>)
    requires
        is_slashes(slashes),
    ensures
        text::without_trailing(s + slashes, '/') == text::without_trailing(s, '/'),
    decreases slashes.len(),
{
    if slashes.len() == 0 {
        assert(s + slashes =~= s);
    } else {
        assert((s + slashes).drop_last() =~= s + slashes.drop_last());
        lemma_without_trailing_slashes(s, slashes.drop_last());
    }
}

/// An origin never ends with a slash.
pub proof fn law_origin_ends_without_slash(url: Seq<char>)
    ensures
        origin_of(url).len() > 0 ==> origin_of(url).last() != '/',
{
    let base = text::without_trailing(text::trimmed(url), '/');
    text::lemma_without_trailing(text::trimmed(url), '/');
    text::lemma_without_trailing(base.take(base.len() - "/v1"@.len()), '/');
}

/// The version segment at the end of a base URL is dropped, with the slashes before and after it
/// and the whitespace around it all.
pub proof fn law_version_segment_is_dropped(
    before: Seq<char>,
    origin: Seq<char>,
    inner: Seq<char>,
    outer: Seq<char>,
    after: Seq<char>,
)
    requires
        text::is_blank(before),
        is_bare(origin),
        is_slashes(inner),
        is_slashes(outer),
        text::is_blank(after),
    ensures
        origin_of(before + origin + inner + "/v1"@ + outer + after) == origin,
{
    reveal_strlit("/v1");
    let base = origin + inner;
    let versioned = base + "/v1"@;
    let core = versioned + outer;
    assert(before + origin + inner + "/v1"@ + outer + after =~= before + core + after);
    text::law_trimming(before, core, after);
    lemma_without_trailing_slashes(versioned, outer);
    assert(text::without_trailing(versioned, '/') == versioned);
    assert("/v1"@ =~= versioned.subrange(base.len() as int, versioned.len() as int));
    assert(versioned.take(versioned.len() - "/v1"@.len()) =~= base);
    lemma_without_trailing_slashes(origin, inner);
    assert(text::without_trailing(origin, '/') == origin);
}

/// An origin without a version segment stays as it is, but for slashes after it and whitespace
/// around it.
pub proof fn law_plain_origin_is_kept(
    before: Seq<char>,
    origin: Seq<char>,
    slashes: Seq<char>,
    after: Seq<char>,
)
    requires
        text::is_blank(before),
        is_bare(origin),
        is_slashes(slashes),
        text::is_blank(after),
        origin.len() > 0 && slashes.len() == 0 ==> !text::is_white(origin.last()),
        !"/v1"@.is_suffix_of(origin),
    ensures
        origin_of(before + origin + slashes + after) == origin,
{
    let core = origin + slashes;
    assert(before + origin + slashes + after =~= before + core + after);
    text::law_trimming(before, core, after);
    lemma_without_trailing_slashes(origin, slashes);
    assert(text::without_trailing(origin, '/') == origin);
}

/// Without a configured base URL, a server is reached where FreeLLMAPI listens by itself; with one,
/// at the origin of that URL.
pub proof fn law_configured_origin(url: Seq<char>)
    ensures
        configured_origin(None) == "http://127.0.0.1:3001"@,
        configured_origin(Some(url)) == origin_of(url),
{
    reveal_strlit("http://127.0.0.1:3001");
    reveal_strlit("/v1");
    let own = "http://127.0.0.1:3001"@;
    let none = Seq::<char>::empty();
    if "/v1"@.is_suffix_of(own) {
        assert(own.subrange(own.len() - "/v1"@.len(), own.len() as int)[0] == '/');
    }
    law_plain_origin_is_kept(none, own, none, none);
    assert(none + own + none + none =~= own);
}

} // verus!
