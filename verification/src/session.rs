//! The plan of a fetch and the state machine that walks it.
//!
//! Cache servers come first, in the order given, each asked for the content
//! by algorithm and digest. The direct sources follow in a random order.

use vstd::prelude::*;
use vstd::seq_lib::seq_to_set_is_finite;
use vstd::set_lib::lemma_subset_equality;
use rand::seq::SliceRandom;
use crate::algo::{canonical, is_supported_name, normalize_algo, supported_name};
use crate::error::Error;
use crate::hasher::kind_of_name;
use crate::sfv::{encode_source_urls, encoded_list, views};
use crate::stream::HashVerifier;
use crate::text::chars_of;

verus! {

/// What one attempt is: the URL to request and the headers to send with it.
pub struct AttemptView {
    pub url: Seq<char>,
    pub headers: Seq<(Seq<char>, Seq<char>)>,
}

/// What a session is: the fixed plan, how far it has been walked, and how
/// the fetch stands.
pub struct SessionView {
    pub plan: Seq<AttemptView>,
    pub cursor: nat,
    pub algo: Seq<char>,
    pub hash: Seq<char>,
    pub done: bool,
    pub success: bool,
}

/// The views of a list of header pairs.
pub open spec fn header_views(headers: Seq<(String, String)>) -> Seq<(Seq<char>, Seq<char>)> {
    Seq::new(headers.len(), |i: int| (headers[i].0@, headers[i].1@))
}

/// The views of a list of attempts.
pub open spec fn attempt_views(attempts: Seq<FetchAttempt>) -> Seq<AttemptView> {
    Seq::new(attempts.len(), |i: int| attempts[i]@)
}

/// A base URL without its trailing slashes.
pub open spec fn trimmed_base(base: Seq<char>) -> Seq<char>
    decreases base.len(),
{
    if base.len() > 0 && base.last() == '/' {
        trimmed_base(base.drop_last())
    } else {
        base
    }
}

/// The URL under which a cache server offers the content.
pub open spec fn server_url(base: Seq<char>, algo: Seq<char>, hash: Seq<char>) -> Seq<char> {
    trimmed_base(base) + "/api/fetchurl/"@ + algo + "/"@ + hash
}

/// The headers of a request to a cache server: the direct sources in one
/// header, if there are any.
pub open spec fn source_headers(sources: Seq<Seq<char>>) -> Seq<(Seq<char>, Seq<char>)> {
    if sources.len() > 0 {
        seq![("X-Source-Urls"@, encoded_list(sources))]
    } else {
        Seq::empty()
    }
}

/// The attempts at the cache servers, in the order of `servers`.
pub open spec fn server_plan(
    servers: Seq<Seq<char>>,
    algo: Seq<char>,
    hash: Seq<char>,
    sources: Seq<Seq<char>>,
) -> Seq<AttemptView> {
    Seq::new(
        servers.len(),
        |i: int|
            AttemptView {
                url: server_url(servers[i], algo, hash),
                headers: source_headers(sources),
            },
    )
}

/// The attempts at the direct sources, taken in the given order.
pub open spec fn direct_plan(sources: Seq<Seq<char>>, order: Seq<usize>) -> Seq<AttemptView> {
    Seq::new(
        order.len(),
        |i: int| AttemptView { url: sources[order[i] as int], headers: Seq::empty() },
    )
}

/// `order` names each of the positions below `n` exactly once.
pub open spec fn is_arrangement(order: Seq<usize>, n: nat) -> bool {
    &&& order.len() == n <= usize::MAX
    &&& forall|i: int| 0 <= i < order.len() ==> order[i] < n
    &&& order.no_duplicates()
}

/// The positions below `n`, in rising order.
pub open spec fn rising(n: nat) -> Seq<usize> {
    Seq::new(n, |i: int| i as usize)
}

/// Whether an attempt of `plan` at position `from` or later requests `url`.
pub open spec fn targets_from(plan: Seq<AttemptView>, from: int, url: Seq<char>) -> bool {
    exists|i: int| from <= i < plan.len() && (#[trigger] plan[i]).url == url
}

/// A session as it is made: the whole plan ahead, nothing decided.
pub open spec fn fresh_session(
    algo: Seq<char>,
    hash: Seq<char>,
    sources: Seq<Seq<char>>,
    servers: Seq<Seq<char>>,
    order: Seq<usize>,
) -> SessionView {
    SessionView {
        plan: server_plan(servers, canonical(algo), hash, sources) + direct_plan(sources, order),
        cursor: 0,
        algo: canonical(algo),
        hash,
        done: false,
        success: false,
    }
}

/// The attempt that a session offers next, if any.
pub open spec fn offered(s: SessionView) -> Option<AttemptView> {
    if s.done || s.cursor >= s.plan.len() {
        None
    } else {
        Some(s.plan[s.cursor as int])
    }
}

/// The session after it was asked for its next attempt.
pub open spec fn after_offer(s: SessionView) -> SessionView {
    if offered(s) is None {
        s
    } else {
        SessionView { cursor: s.cursor + 1, ..s }
    }
}

/// The session after it was asked `k` times for its next attempt.
pub open spec fn after_offers(s: SessionView, k: nat) -> SessionView
    decreases k,
{
    if k == 0 {
        s
    } else {
        after_offer(after_offers(s, (k - 1) as nat))
    }
}

/// The session after a report of success.
pub open spec fn after_success(s: SessionView) -> SessionView {
    SessionView { done: true, success: true, ..s }
}

/// The session after a report of a partial write.
pub open spec fn after_partial(s: SessionView) -> SessionView {
    SessionView { done: true, ..s }
}

/// What holds of every session: the cursor is within the plan, success
/// comes only with the end, and the algorithm is a supported one.
pub open spec fn valid_session(s: SessionView) -> bool {
    &&& s.cursor <= s.plan.len()
    &&& s.success ==> s.done
    &&& supported_name(s.algo)
}

/// A single fetch attempt: the URL to request and the headers to set.
#[derive(Debug)]
pub struct FetchAttempt {
    url: String,
    headers: Vec<(String, String)>,
}

impl View for FetchAttempt {
    type V = AttemptView;

    closed spec fn view(&self) -> AttemptView {
        AttemptView { url: self.url@, headers: header_views(self.headers@) }
    }
}

impl Clone for FetchAttempt {
    fn clone(&self) -> (r: Self)
        ensures
            r@ == self@,
    {
        let mut headers: Vec<(String, String)> = Vec::new();
        let mut i: usize = 0;
        while i < self.headers.len()
            invariant
                i <= self.headers.len(),
                headers.len() == i,
                forall|j: int|
                    0 <= j < i ==> headers@[j].0@ == self.headers@[j].0@ && headers@[j].1@
                        == self.headers@[j].1@,
            decreases self.headers.len() - i,
        {
            let name = self.headers[i].0.clone();
            let value = self.headers[i].1.clone();
            headers.push((name, value));
            i += 1;
        }
        proof {
            assert(header_views(headers@) =~= header_views(self.headers@));
        }
        FetchAttempt { url: self.url.clone(), headers }
    }
}

impl FetchAttempt {
    /// The URL to make a GET request to.
    pub fn url(&self) -> (r: &str)
        ensures
            r@ == self@.url,
    {
        self.url.as_str()
    }

    /// The headers to send with the request.
    pub fn headers(&self) -> (r: &[(String, String)])
        ensures
            header_views(r@) == self@.headers,
    {
        self.headers.as_slice()
    }
}

/// `SliceRandom::shuffle` of `rand`, with the generator of `rand::thread_rng`:
/// exchanges items of the vector in place, so that the same items are there
/// afterwards, each as often as before. Nothing is said of their order.
#[verifier::external_body]
fn shuffle_in_place(v: &mut Vec<usize>)
    ensures
        final(v)@.to_multiset() == old(v)@.to_multiset(),
{
    v.shuffle(&mut rand::thread_rng());
}

proof fn lemma_rising_is_distinct(n: nat)
    requires
        n <= usize::MAX,
    ensures
        rising(n).no_duplicates(),
{
    let id = rising(n);
    assert forall|i: int, j: int| 0 <= i < id.len() && 0 <= j < id.len() && i != j implies id[i]
        != id[j] by {
        assert(id[i] == i as usize && id[j] == j as usize);
    }
}

proof fn lemma_rearranged(order: Seq<usize>, n: nat)
    requires
        n <= usize::MAX,
        order.to_multiset() == rising(n).to_multiset(),
    ensures
        is_arrangement(order, n),
{
    let id = rising(n);
    order.to_multiset_ensures();
    id.to_multiset_ensures();
    lemma_rising_is_distinct(n);
    id.lemma_multiset_has_no_duplicates();
    assert forall|i: int| 0 <= i < order.len() implies order[i] < n by {
        assert(order.contains(order[i]));
        assert(id.to_multiset().count(order[i]) > 0);
        assert(id.contains(order[i]));
        let j = choose|j: int| 0 <= j < id.len() && id[j] == order[i];
        assert(id[j] == j as usize);
    }
    order.lemma_multiset_has_no_duplicates_conv();
}

/// An arrangement of the positions below `n` leaves none of them out.
pub proof fn lemma_arrangement_covers(order: Seq<usize>, n: nat)
    requires
        is_arrangement(order, n),
    ensures
        forall|k: usize| k < n ==> #[trigger] order.contains(k),
{
    let id = rising(n);
    lemma_rising_is_distinct(n);
    order.unique_seq_to_set();
    id.unique_seq_to_set();
    seq_to_set_is_finite(order);
    seq_to_set_is_finite(id);
    assert(order.to_set().subset_of(id.to_set())) by {
        assert forall|x: usize| order.to_set().contains(x) implies id.to_set().contains(x) by {
            assert(order.contains(x));
            assert(id[x as int] == x);
            assert(id.contains(x));
        }
    }
    lemma_subset_equality(order.to_set(), id.to_set());
    assert forall|k: usize| k < n implies #[trigger] order.contains(k) by {
        assert(id[k as int] == k);
        assert(id.contains(k));
        assert(id.to_set().contains(k));
        assert(order.to_set().contains(k));
    }
}

/// Whether `order` names each of the positions below `n` exactly once.
pub fn is_arrangement_of(order: &[usize], n: usize) -> (ok: bool)
    ensures
        ok == is_arrangement(order@, n as nat),
{
    if order.len() != n {
        return false;
    }
    let mut seen: Vec<bool> = Vec::new();
    let mut k: usize = 0;
    while k < n
        invariant
            k <= n,
            seen.len() == k,
            forall|j: int| 0 <= j < k ==> !seen@[j],
        decreases n - k,
    {
        seen.push(false);
        k += 1;
    }
    let mut i: usize = 0;
    while i < n
        invariant
            i <= n,
            order@.len() == n,
            seen.len() == n,
            forall|j: int| 0 <= j < i ==> order@[j] < n,
            forall|j: int| 0 <= j < i ==> seen@[order@[j] as int],
            forall|p: int| 0 <= p < n && seen@[p] ==> exists|j: int| 0 <= j < i && order@[j] == p,
            forall|a: int, b: int| 0 <= a < i && 0 <= b < i && a != b ==> order@[a] != order@[b],
        decreases n - i,
    {
        let p = order[i];
        if p >= n {
            return false;
        }
        if seen[p] {
            proof {
                let j = choose|j: int| 0 <= j < i && order@[j] == p;
                assert(order@[j] == order@[i as int] && j != i);
            }
            return false;
        }
        seen.set(p, true);
        i += 1;
    }
    true
}

/// The positions below `n` in a random order.
pub fn shuffled_order(n: usize) -> (order: Vec<usize>)
    ensures
        is_arrangement(order@, n as nat),
{
    let mut order: Vec<usize> = Vec::new();
    let mut i: usize = 0;
    while i < n
        invariant
            i <= n,
            order@ == rising(i as nat),
        decreases n - i,
    {
        order.push(i);
        proof {
            assert(order@ =~= rising((i + 1) as nat));
        }
        i += 1;
    }
    shuffle_in_place(&mut order);
    proof {
        lemma_rearranged(order@, n as nat);
    }
    order
}

/// The attempt at one cache server.
fn server_attempt(base: &str, algo: &str, hash: &str, header: &Option<String>) -> (a: FetchAttempt)
    ensures
        a@.url == server_url(base@, algo@, hash@),
        a@.headers == match header {
            Some(value) => seq![("X-Source-Urls"@, value@)],
            None => Seq::empty(),
        },
{
    let chars = chars_of(base);
    let mut end: usize = chars.len();
    proof {
        assert(chars@.take(end as int) =~= chars@);
    }
    while end > 0 && chars[end - 1] == '/'
        invariant
            end <= chars.len(),
            trimmed_base(chars@.take(end as int)) == trimmed_base(chars@),
        decreases end,
    {
        proof {
            assert(chars@.take(end as int).drop_last() =~= chars@.take(end - 1));
        }
        end -= 1;
    }
    let mut url = String::new();
    let mut i: usize = 0;
    while i < end
        invariant
            i <= end <= chars.len(),
            url@ == chars@.take(i as int),
        decreases end - i,
    {
        url.push(chars[i]);
        proof {
            assert(url@ =~= chars@.take(i + 1));
        }
        i += 1;
    }
    url.append("/api/fetchurl/");
    url.append(algo);
    url.append("/");
    url.append(hash);
    let mut headers: Vec<(String, String)> = Vec::new();
    match header {
        Some(value) => {
            headers.push((String::from_str("X-Source-Urls"), value.clone()));
            proof {
                assert(header_views(headers@) =~= seq![("X-Source-Urls"@, value@)]);
            }
        },
        None => {
            proof {
                assert(header_views(headers@) =~= Seq::empty());
            }
        },
    }
    FetchAttempt { url, headers }
}

/// Drives one fetch: holds the plan, hands out one attempt at a time, and
/// stops when the caller reports success or a partial write.
pub struct FetchSession {
    attempts: Vec<FetchAttempt>,
    current: usize,
    algo: String,
    hash: String,
    done: bool,
    success: bool,
}

impl View for FetchSession {
    type V = SessionView;

    closed spec fn view(&self) -> SessionView {
        SessionView {
            plan: attempt_views(self.attempts@),
            cursor: self.current as nat,
            algo: self.algo@,
            hash: self.hash@,
            done: self.done,
            success: self.success,
        }
    }
}

impl FetchSession {
    /// Plans a fetch with the direct sources in the order that `order` gives:
    /// the source at position `order[0]` first. Fails, with the canonical
    /// name, exactly when the algorithm is not supported.
    pub fn with_order(
        algo: &str,
        hash: &str,
        source_urls: &[String],
        servers: &[String],
        order: &[usize],
    ) -> (r: Result<FetchSession, Error>)
        requires
            is_arrangement(order@, source_urls@.len()),
        ensures
            match r {
                Ok(s) => supported_name(canonical(algo@)) && valid_session(s@) && s@
                    == fresh_session(
                    algo@,
                    hash@,
                    views(source_urls@),
                    views(servers@),
                    order@,
                ),
                Err(Error::UnsupportedAlgorithm(name)) => !supported_name(canonical(algo@))
                    && name@ == canonical(algo@),
                Err(_) => false,
            },
    {
        let algo = normalize_algo(algo);
        if !is_supported_name(&algo) {
            return Err(Error::UnsupportedAlgorithm(algo));
        }
        let source_header = if source_urls.len() > 0 {
            Some(encode_source_urls(source_urls))
        } else {
            None
        };
        let ghost sources = views(source_urls@);
        let ghost servers_v = views(servers@);
        let ghost servers_part = server_plan(servers_v, algo@, hash@, sources);
        let ghost direct_part = direct_plan(sources, order@);
        let mut attempts: Vec<FetchAttempt> = Vec::new();
        let mut i: usize = 0;
        while i < servers.len()
            invariant
                i <= servers.len(),
                sources == views(source_urls@),
                servers_v == views(servers@),
                servers_part == server_plan(servers_v, algo@, hash@, sources),
                match source_header {
                    Some(value) => sources.len() > 0 && value@ == encoded_list(sources),
                    None => sources.len() == 0,
                },
                attempts.len() == i,
                forall|j: int| 0 <= j < i ==> attempts@[j]@ == servers_part[j],
            decreases servers.len() - i,
        {
            let attempt = server_attempt(
                servers[i].as_str(),
                algo.as_str(),
                hash,
                &source_header,
            );
            proof {
                assert(attempt@.headers =~= source_headers(sources));
                assert(attempt@ == servers_part[i as int]);
            }
            attempts.push(attempt);
            i += 1;
        }
        let mut k: usize = 0;
        while k < order.len()
            invariant
                k <= order.len(),
                is_arrangement(order@, source_urls@.len()),
                sources == views(source_urls@),
                direct_part == direct_plan(sources, order@),
                servers_part.len() == servers@.len(),
                attempts.len() == servers@.len() + k,
                forall|j: int| 0 <= j < servers@.len() ==> attempts@[j]@ == servers_part[j],
                forall|j: int| 0 <= j < k ==> attempts@[servers@.len() + j]@ == direct_part[j],
            decreases order.len() - k,
        {
            let url = source_urls[order[k]].clone();
            let attempt = FetchAttempt { url, headers: Vec::new() };
            proof {
                assert(attempt@.headers =~= Seq::empty());
                assert(attempt@ == direct_part[k as int]);
            }
            attempts.push(attempt);
            k += 1;
        }
        proof {
            assert(attempt_views(attempts@) =~= servers_part + direct_part);
        }
        Ok(
            FetchSession {
                attempts,
                current: 0,
                algo,
                hash: String::from_str(hash),
                done: false,
                success: false,
            },
        )
    }

    /// Plans a fetch: the cache servers in the order given, then the direct
    /// sources in a random order. Fails, with the canonical name, exactly
    /// when the algorithm is not supported.
    pub fn new(algo: &str, hash: &str, source_urls: &[String], servers: &[String]) -> (r: Result<
        FetchSession,
        Error,
    >)
        ensures
            match r {
                Ok(s) => supported_name(canonical(algo@)) && valid_session(s@) && exists|
                    order: Seq<usize>,
                |
                    is_arrangement(order, source_urls@.len()) && s@ == #[trigger] fresh_session(
                        algo@,
                        hash@,
                        views(source_urls@),
                        views(servers@),
                        order,
                    ),
                Err(Error::UnsupportedAlgorithm(name)) => !supported_name(canonical(algo@))
                    && name@ == canonical(algo@),
                Err(_) => false,
            },
    {
        let order = shuffled_order(source_urls.len());
        Self::with_order(algo, hash, source_urls, servers, order.as_slice())
    }

    /// The next attempt to try, or nothing once the plan is used up or the
    /// session has ended.
    pub fn next_attempt(&mut self) -> (r: Option<FetchAttempt>)
        ensures
            final(self)@ == after_offer(old(self)@),
            valid_session(old(self)@) ==> valid_session(final(self)@),
            match r {
                Some(a) => offered(old(self)@) == Some(a@),
                None => offered(old(self)@) is None,
            },
    {
        if self.done || self.current >= self.attempts.len() {
            return None;
        }
        let attempt = self.attempts[self.current].clone();
        self.current += 1;
        Some(attempt)
    }

    /// Reports that the current attempt succeeded. Ends the session.
    pub fn report_success(&mut self)
        ensures
            final(self)@ == after_success(old(self)@),
            valid_session(old(self)@) ==> valid_session(final(self)@),
    {
        self.done = true;
        self.success = true;
    }

    /// Reports that bytes had reached the output before the attempt failed.
    /// Ends the session: the output is tainted, so nothing more is offered.
    pub fn report_partial(&mut self)
        ensures
            final(self)@ == after_partial(old(self)@),
            valid_session(old(self)@) ==> valid_session(final(self)@),
    {
        self.done = true;
    }

    /// Whether the session ended with a successful download.
    pub fn succeeded(&self) -> (r: bool)
        ensures
            r == self@.success,
    {
        self.success
    }

    /// A verifier around `writer` for this session's algorithm and expected
    /// digest, with nothing recorded.
    pub fn hash_verifier<W>(&self, writer: W) -> (v: HashVerifier<W>)
        requires
            valid_session(self@),
        ensures
            v.well_formed(),
            Some(v.kind()) == kind_of_name(self@.algo),
            v.recorded() == Seq::<u8>::empty(),
            v.expected() == self@.hash,
            v.sink() == writer,
    {
        HashVerifier::new(self.algo.as_str(), self.hash.as_str(), writer)
    }
}

/// Every step keeps a session valid: the cursor stays within the plan, and
/// success is never recorded without the end.
pub proof fn lemma_steps_keep_valid(s: SessionView)
    requires
        valid_session(s),
    ensures
        valid_session(after_offer(s)),
        valid_session(after_success(s)),
        valid_session(after_partial(s)),
{
}

/// Once a session has ended it offers nothing, and asking changes nothing.
pub proof fn lemma_ended_offers_nothing(s: SessionView)
    requires
        s.done,
    ensures
        offered(s) is None,
        after_offer(s) == s,
        after_offer(s).done,
{
}

/// After a report of success the session has succeeded and offers nothing,
/// however much of the plan is left.
pub proof fn lemma_success_is_terminal(s: SessionView)
    ensures
        after_success(s).success,
        offered(after_success(s)) is None,
        after_offer(after_success(s)) == after_success(s),
{
}

/// After a report of a partial write, a session that had not succeeded
/// before has not succeeded and offers nothing, however much of the plan is
/// left.
pub proof fn lemma_partial_is_terminal(s: SessionView)
    requires
        !s.success,
    ensures
        !after_partial(s).success,
        offered(after_partial(s)) is None,
        after_offer(after_partial(s)) == after_partial(s),
{
}

/// The plan of a fresh session: first one attempt for each cache server, in
/// the order given, at that server's URL for the content and with the
/// source header; then the direct sources, without headers, in the order
/// chosen, so that every source has its attempt.
pub proof fn lemma_plan_order(
    algo: Seq<char>,
    hash: Seq<char>,
    sources: Seq<Seq<char>>,
    servers: Seq<Seq<char>>,
    order: Seq<usize>,
)
    requires
        is_arrangement(order, sources.len()),
    ensures
        ({
            let s = fresh_session(algo, hash, sources, servers, order);
            &&& s.plan.len() == servers.len() + sources.len()
            &&& forall|i: int|
                0 <= i < servers.len() ==> (#[trigger] s.plan[i]).url == server_url(
                    servers[i],
                    canonical(algo),
                    hash,
                ) && s.plan[i].headers == source_headers(sources)
            &&& forall|i: int|
                0 <= i < sources.len() ==> (#[trigger] s.plan[servers.len() + i]).url
                    == sources[order[i] as int] && s.plan[servers.len() + i].headers.len() == 0
            &&& forall|k: int|
                0 <= k < sources.len() ==> targets_from(
                    s.plan,
                    servers.len() as int,
                    #[trigger] sources[k],
                )
        }),
{
    let s = fresh_session(algo, hash, sources, servers, order);
    assert forall|k: int| 0 <= k < sources.len() implies targets_from(
        s.plan,
        servers.len() as int,
        #[trigger] sources[k],
    ) by {
        lemma_arrangement_covers(order, sources.len());
        assert(order.contains(k as usize));
        let i = choose|i: int| 0 <= i < order.len() && order[i] == k as usize;
        assert(s.plan[servers.len() + i].url == sources[k]);
    }
}

/// A session that has not ended and is only asked for attempts offers the
/// entries of its plan one after the other, and nothing once they are used up.
pub proof fn lemma_offers_walk_plan(s: SessionView, k: nat)
    requires
        !s.done,
        s.cursor == 0,
    ensures
        after_offers(s, k) == (SessionView {
            cursor: if k <= s.plan.len() {
                k
            } else {
                s.plan.len()
            },
            ..s
        }),
        offered(after_offers(s, k)) == if k < s.plan.len() {
            Some(s.plan[k as int])
        } else {
            None
        },
    decreases k,
{
    if k > 0 {
        lemma_offers_walk_plan(s, (k - 1) as nat);
    }
}

} // verus!
