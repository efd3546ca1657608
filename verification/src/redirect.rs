use vstd::prelude::*;

use crate::Settings;
use crate::error::{Error, ErrorKind, RequestMethod};
use crate::listing::{UrlParts, UrlView, resolve_of, resolve_href};

verus! {

// The redirect-following request executor, as a state machine: the transport
// work — actually sending the request — lives outside; what is here is the
// decision taken on each response, and the laws that the loop built on those
// decisions exhausts a non-negative bound after exactly `max + 1` requests
// and never reports the bound exhausted when it is negative.

/// A terminal success: the request is answered here.
pub open spec fn is_success_status(status: u16) -> bool {
    200 <= status < 300
}

/// A redirection: the answer lives at the URL the `Location` header names.
pub open spec fn is_redirect_status(status: u16) -> bool {
    300 <= status < 400
}

/// Whether a further redirect may be followed after `count` of them: always
/// when the bound is negative, else only while `count` is below it.
pub open spec fn redirect_allowed(max: i64, count: int) -> bool {
    max < 0 || count < max as int
}

/// What one response tells the crawl: the status line and the three headers
/// it ever reads.
pub struct ResponseHead {
    pub status: u16,
    pub location: Option<String>,
    pub content_type: Option<String>,
    pub content_length: Option<String>,
}

/// The decision taken on one response while following redirects.
pub enum RedirectStep {
    /// A redirect: request the target next, with the new count.
    Follow(UrlParts, u64),
    /// A success: this URL answered, its response is final.
    Done(UrlParts),
    /// A terminal failure.
    Failed(Error),
}

/// Whether `e` carries exactly the context of the request at `url` with
/// `method`.
pub open spec fn error_at(e: Error, url: Seq<char>, method: RequestMethod) -> bool {
    e.trail@.len() == 1 && e.trail@[0].url@ == url && e.trail@[0].method == method
}

/// Decides what one response to `method url` means, `count` redirects into
/// the request: success keeps the URL, a redirect is followed through
/// `Location` while the bound allows, anything else fails with the
/// corresponding kind, annotated with the URL and method in play.
pub fn redirect_decide(
    settings: &Settings,
    method: RequestMethod,
    url: UrlParts,
    count: u64,
    resp: &ResponseHead,
) -> (r: RedirectStep)
    requires
        count < u64::MAX,
    ensures
        is_success_status(resp.status) ==> (r matches RedirectStep::Done(u) && u == url),
        (is_redirect_status(resp.status) && !redirect_allowed(settings.max_redirections, count as int))
            ==> (r matches RedirectStep::Failed(e) && e.kind matches ErrorKind::TooManyRedirections(n)
            && n == count + 1 && error_at(e, url@.serialized, method)),
        (is_redirect_status(resp.status) && redirect_allowed(settings.max_redirections, count as int)
            && resp.location is None) ==> (r matches RedirectStep::Failed(e)
            && e.kind is MissingLocation && error_at(e, url@.serialized, method)),
        (is_redirect_status(resp.status) && redirect_allowed(settings.max_redirections, count as int)
            && resp.location is Some && resolve_of(url@.serialized, resp.location.unwrap()@)
            is None) ==> (r matches RedirectStep::Failed(e) && e.kind is InvalidRedirectTarget
            && error_at(e, url@.serialized, method)),
        (is_redirect_status(resp.status) && redirect_allowed(settings.max_redirections, count as int)
            && resp.location is Some && resolve_of(url@.serialized, resp.location.unwrap()@)
            is Some) ==> (r matches RedirectStep::Follow(u, c) && u@ == resolve_of(
            url@.serialized,
            resp.location.unwrap()@,
        ).unwrap() && c == count + 1),
        (!is_success_status(resp.status) && !is_redirect_status(resp.status)) ==> (
        r matches RedirectStep::Failed(e) && e.kind matches ErrorKind::UnexpectedStatus(s) && s
            == resp.status && error_at(e, url@.serialized, method)),
{
    let status = resp.status;
    if 200 <= status && status < 300 {
        return RedirectStep::Done(url);
    }
    if !(300 <= status && status < 400) {
        return RedirectStep::Failed(
            Error::at(ErrorKind::UnexpectedStatus(status), url.serialized.clone(), method),
        );
    }
    let max = settings.max_redirections;
    let allowed = max < 0 || count < (max as u64);
    if !allowed {
        return RedirectStep::Failed(
            Error::at(
                ErrorKind::TooManyRedirections(count + 1),
                url.serialized.clone(),
                method,
            ),
        );
    }
    match &resp.location {
        None => RedirectStep::Failed(
            Error::at(ErrorKind::MissingLocation, url.serialized.clone(), method),
        ),
        Some(loc) => {
            match resolve_href(url.serialized.as_str(), loc.as_str()) {
                None => RedirectStep::Failed(
                    Error::at(ErrorKind::InvalidRedirectTarget, url.serialized.clone(), method),
                ),
                Some(target) => RedirectStep::Follow(target, count + 1),
            }
        },
    }
}

// ---------------------------------------------------------------------------
// The loop, as a model, and its laws
// ---------------------------------------------------------------------------

/// How a whole redirect-following request ends.
pub ghost enum FollowOutcome {
    /// Terminal success at this URL.
    Arrived(UrlView),
    /// The redirect bound was exhausted; carries the number of redirects seen.
    TooMany(int),
    /// A redirect without a usable `Location` header.
    NoLocation,
    /// A `Location` header that did not resolve.
    BadTarget,
    /// A terminal status that is neither success nor redirection.
    BadStatus(u16),
    /// The response sequence ran out before the request ended.
    OutOfResponses,
}

/// The request loop over a fixed response sequence: how many responses it
/// consumes — one request each — and how it ends.  Each step is the decision
/// of `redirect_decide`.
pub open spec fn follow_model(max: i64, url: UrlView, count: int, resps: Seq<ResponseHead>) -> (
    int,
    FollowOutcome,
)
    decreases resps.len(),
{
    if resps.len() == 0 {
        (0, FollowOutcome::OutOfResponses)
    } else {
        let head = resps[0];
        if is_success_status(head.status) {
            (1, FollowOutcome::Arrived(url))
        } else if is_redirect_status(head.status) {
            if !redirect_allowed(max, count) {
                (1, FollowOutcome::TooMany(count + 1))
            } else {
                match head.location {
                    None => (1, FollowOutcome::NoLocation),
                    Some(loc) => match resolve_of(url.serialized, loc@) {
                        None => (1, FollowOutcome::BadTarget),
                        Some(next) => {
                            let rest = follow_model(max, next, count + 1, resps.drop_first());
                            (rest.0 + 1, rest.1)
                        },
                    },
                }
            }
        } else {
            (1, FollowOutcome::BadStatus(head.status))
        }
    }
}

/// Whether the first `n` responses each carry a `Location` that resolves
/// against the URL reached so far: the redirect chain is well-formed for `n`
/// hops from `url`.
pub open spec fn chain_ok(url: UrlView, resps: Seq<ResponseHead>, n: int) -> bool
    decreases n,
{
    n <= 0 || (resps.len() > 0 && match resps[0].location {
        None => false,
        Some(loc) => match resolve_of(url.serialized, loc@) {
            None => false,
            Some(next) => chain_ok(next, resps.drop_first(), n - 1),
        },
    })
}

proof fn lemma_follow_exhausts_bound_from(
    max: i64,
    url: UrlView,
    count: int,
    resps: Seq<ResponseHead>,
)
    requires
        max >= 0,
        0 <= count <= max,
        resps.len() > max - count,
        forall|i: int| 0 <= i <= max - count ==> is_redirect_status(resps[i].status),
        chain_ok(url, resps, max - count),
    ensures
        follow_model(max, url, count, resps) == (max - count + 1, FollowOutcome::TooMany(max + 1)),
    decreases max - count,
{
    assert(is_redirect_status(resps[0].status));
    if count == max {
        assert(!redirect_allowed(max, count));
    } else {
        let loc = resps[0].location.unwrap();
        let next = resolve_of(url.serialized, loc@).unwrap();
        let rest = resps.drop_first();
        assert forall|i: int| 0 <= i <= max - (count + 1) implies is_redirect_status(
            rest[i].status,
        ) by {
            assert(rest[i] == resps[i + 1]);
        }
        lemma_follow_exhausts_bound_from(max, next, count + 1, rest);
    }
}

/// A server that answers every request with a well-formed redirect makes the
/// request loop fail with the bound exhausted — reporting `max + 1` redirects
/// — after consuming exactly `max + 1` responses, whenever the bound `max` is
/// non-negative.
pub proof fn lemma_redirect_loop_hits_bound(max: i64, url: UrlView, resps: Seq<ResponseHead>)
    requires
        max >= 0,
        resps.len() > max as int,
        forall|i: int| 0 <= i <= max as int ==> is_redirect_status(resps[i].status),
        chain_ok(url, resps, max as int),
    ensures
        follow_model(max, url, 0, resps) == (max + 1, FollowOutcome::TooMany(max + 1)),
{
    lemma_follow_exhausts_bound_from(max, url, 0, resps);
}

/// The URL reached after following `k` hops of the redirect chain; where the
/// chain is not well-formed this falls back to the starting URL, so it is
/// meaningful under `chain_ok`.
pub open spec fn chain_end(url: UrlView, resps: Seq<ResponseHead>, k: int) -> UrlView
    decreases k,
{
    if k <= 0 || resps.len() == 0 {
        url
    } else {
        match resps[0].location {
            None => url,
            Some(loc) => match resolve_of(url.serialized, loc@) {
                None => url,
                Some(next) => chain_end(next, resps.drop_first(), k - 1),
            },
        }
    }
}

/// A request that meets `k` well-formed redirects, each still allowed by the
/// bound, and then a success, arrives at the chain's end — consuming exactly
/// `k + 1` responses.  With a negative bound this holds for any `k`.
pub proof fn lemma_follow_arrives(
    max: i64,
    url: UrlView,
    count: int,
    k: int,
    resps: Seq<ResponseHead>,
)
    requires
        0 <= k < resps.len(),
        forall|i: int| 0 <= i < k ==> is_redirect_status(resps[i].status),
        is_success_status(resps[k].status),
        chain_ok(url, resps, k),
        max < 0 || count + k <= max as int,
    ensures
        follow_model(max, url, count, resps) == (k + 1, FollowOutcome::Arrived(
            chain_end(url, resps, k),
        )),
    decreases k,
{
    if k == 0 {
        assert(is_success_status(resps[0].status));
    } else {
        assert(is_redirect_status(resps[0].status));
        assert(!is_success_status(resps[0].status));
        assert(redirect_allowed(max, count));
        let loc = resps[0].location.unwrap();
        let next = resolve_of(url.serialized, loc@).unwrap();
        let rest = resps.drop_first();
        assert forall|i: int| 0 <= i < k - 1 implies is_redirect_status(rest[i].status) by {
            assert(rest[i] == resps[i + 1]);
        }
        assert(rest[k - 1] == resps[k]);
        lemma_follow_arrives(max, next, count + 1, k - 1, rest);
    }
}

/// With a negative bound the request loop never reports the bound exhausted,
/// however many redirects it follows.
pub proof fn lemma_unbounded_never_too_many(
    max: i64,
    url: UrlView,
    count: int,
    resps: Seq<ResponseHead>,
)
    requires
        max < 0,
    ensures
        !(follow_model(max, url, count, resps).1 matches FollowOutcome::TooMany(_)),
    decreases resps.len(),
{
    if resps.len() > 0 {
        let head = resps[0];
        if is_redirect_status(head.status) && !is_success_status(head.status) {
            match head.location {
                None => {},
                Some(loc) => match resolve_of(url.serialized, loc@) {
                    None => {},
                    Some(next) => {
                        lemma_unbounded_never_too_many(max, next, count + 1, resps.drop_first());
                    },
                },
            }
        }
    }
}

} // verus!
