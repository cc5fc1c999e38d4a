//! The cache of Auth0 access tokens, one entry per profile, and the
//! decisions around fetching a new token.
use vstd::prelude::*;
use crate::config::{Auth0Config, ProfileView};
use crate::named::{NamedMap, entries_map, unique_names};

verus! {

/// Nanoseconds in a second.
pub const NANOS_PER_SEC: u128 = 1_000_000_000;

/// A cached token is handed out only while it has more than this many
/// nanoseconds (one minute) left.
pub const FRESHNESS_MARGIN: u128 = 60_000_000_000;

/// The latest expiry a token can have: `u64::MAX` seconds, in nanoseconds.
pub const LATEST_EXPIRY: u128 = 18_446_744_073_709_551_615_000_000_000;

/// A token and the instant, in nanoseconds on the monotonic clock, at which it expires.
#[derive(Debug)]
pub struct CachedToken {
    pub access_token: String,
    pub expires_at: u128,
}

/// What a cache entry holds.
pub struct TokenView {
    pub access_token: Seq<char>,
    pub expires_at: u128,
}

impl View for CachedToken {
    type V = TokenView;

    open spec fn view(&self) -> TokenView {
        TokenView { access_token: self.access_token@, expires_at: self.expires_at }
    }
}

/// A token expiring at `expires_at` can still be used at `now`.
pub open spec fn is_fresh(expires_at: u128, now: u128) -> bool {
    now + FRESHNESS_MARGIN < expires_at
}

/// Whole seconds left at `now` before `expires_at`, and 0 once it has passed.
pub open spec fn seconds_left(expires_at: u128, now: u128) -> int {
    if expires_at > now {
        (expires_at - now) as int / NANOS_PER_SEC as int
    } else {
        0
    }
}

/// The expiry of a token granted at `now` for `expires_in` seconds.
pub open spec fn expiry(now: u128, expires_in: u64) -> int {
    now + expires_in * NANOS_PER_SEC
}

/// The token the cache serves for `profile` at `now`: the cached one while it is fresh.
pub open spec fn cache_lookup(cache: Map<Seq<char>, TokenView>, profile: Seq<char>, now: u128) -> Option<
    Seq<char>,
> {
    if cache.contains_key(profile) && is_fresh(cache[profile].expires_at, now) {
        Some(cache[profile].access_token)
    } else {
        None
    }
}

/// Seconds left at `now` on the token cached for `profile`, if one is.
pub open spec fn time_left(cache: Map<Seq<char>, TokenView>, profile: Seq<char>, now: u128) -> Option<
    int,
> {
    if cache.contains_key(profile) {
        Some(seconds_left(cache[profile].expires_at, now))
    } else {
        None
    }
}

/// The cache after invalidating `profile`, or every profile for `None`.
pub open spec fn invalidated(cache: Map<Seq<char>, TokenView>, profile: Option<Seq<char>>) -> Map<
    Seq<char>,
    TokenView,
> {
    match profile {
        Some(p) => cache.remove(p),
        None => Map::empty(),
    }
}

/// The cache after a token is granted to `profile` at `now` for `expires_in` seconds.
pub open spec fn with_grant(
    cache: Map<Seq<char>, TokenView>,
    profile: Seq<char>,
    token: Seq<char>,
    expires_in: u64,
    now: u128,
) -> Map<Seq<char>, TokenView> {
    cache.insert(profile, TokenView { access_token: token, expires_at: expiry(now, expires_in) as u128 })
}

/// The text of an optional profile name.
pub open spec fn name_view(profile: Option<&str>) -> Option<Seq<char>> {
    match profile {
        Some(p) => Some(p@),
        None => None,
    }
}

/// The text of an optional token.
pub open spec fn token_view(token: Option<String>) -> Option<Seq<char>> {
    match token {
        Some(t) => Some(t@),
        None => None,
    }
}

/// An optional count of seconds, as an integer.
pub open spec fn secs_view(secs: Option<u64>) -> Option<int> {
    match secs {
        Some(s) => Some(s as int),
        None => None,
    }
}

/// Whether a token granted at `now` for `expires_in` seconds expires no
/// later than `LATEST_EXPIRY`, the condition for caching it.
pub fn expiry_within_limit(now: u128, expires_in: u64) -> (r: bool)
    ensures
        r == (expiry(now, expires_in) <= LATEST_EXPIRY),
{
    let span = (expires_in as u128) * NANOS_PER_SEC;
    now <= LATEST_EXPIRY && span <= LATEST_EXPIRY - now
}

/// Manages Auth0 client-credentials tokens, one cache entry per named profile.
#[derive(Debug)]
pub struct TokenManager {
    caches: NamedMap<CachedToken>,
}

impl View for TokenManager {
    type V = Map<Seq<char>, TokenView>;

    open spec fn view(&self) -> Map<Seq<char>, TokenView> {
        self.cache_view()
    }
}

impl TokenManager {
    /// The cache: profile name to token.
    pub closed spec fn cache_view(&self) -> Map<Seq<char>, TokenView> {
        self.caches@
    }

    #[verifier::type_invariant]
    closed spec fn expiries_bounded(&self) -> bool {
        forall|k: Seq<char>| #[trigger] self.caches@.contains_key(k) ==> self.caches@[k].expires_at <= LATEST_EXPIRY
    }

    /// A manager with an empty cache.
    pub fn new() -> (m: Self)
        ensures
            m@ == Map::<Seq<char>, TokenView>::empty(),
    {
        TokenManager { caches: NamedMap::new() }
    }

    /// Drops the cached token of `profile`, or of every profile when `profile` is `None`.
    pub fn invalidate(&mut self, profile: Option<&str>)
        ensures
            final(self)@ == invalidated(old(self)@, name_view(profile)),
    {
        proof {
            use_type_invariant(&*self);
        }
        let mut caches = NamedMap::new();
        std::mem::swap(&mut caches, &mut self.caches);
        match profile {
            Some(p) => {
                let key = p.to_string();
                caches.remove(&key);
            },
            None => {
                caches.clear();
            },
        }
        self.caches = caches;
    }

    /// The cached token of `profile` when it is still fresh at `now`.
    pub fn cached_token(&self, profile: &str, now: u128) -> (r: Option<String>)
        ensures
            token_view(r) == cache_lookup(self@, profile@, now),
    {
        let key = profile.to_string();
        match self.caches.get(&key) {
            Some(c) => {
                if c.expires_at > now && c.expires_at - now > FRESHNESS_MARGIN {
                    Some(c.access_token.clone())
                } else {
                    None
                }
            },
            None => None,
        }
    }

    /// Caches `access_token` for `profile`, granted at `now` for `expires_in` seconds.
    pub fn store_token(&mut self, profile: &str, access_token: String, expires_in: u64, now: u128)
        requires
            expiry(now, expires_in) <= LATEST_EXPIRY,
        ensures
            final(self)@ == with_grant(old(self)@, profile@, access_token@, expires_in, now),
    {
        proof {
            use_type_invariant(&*self);
        }
        let expires_at = now + (expires_in as u128) * NANOS_PER_SEC;
        let mut caches = NamedMap::new();
        std::mem::swap(&mut caches, &mut self.caches);
        caches.insert(profile.to_string(), CachedToken { access_token, expires_at });
        self.caches = caches;
    }

    /// Seconds left on the cached token of `profile`, or `None` when none is cached.
    pub fn remaining_secs(&self, profile: &str, now: u128) -> (r: Option<u64>)
        ensures
            secs_view(r) == time_left(self@, profile@, now),
    {
        proof {
            use_type_invariant(self);
        }
        let key = profile.to_string();
        match self.caches.get(&key) {
            Some(c) => Some(secs_left(c.expires_at, now)),
            None => None,
        }
    }

    /// Seconds left on every cached token, by profile name.
    pub fn all_status(&self, now: u128) -> (r: Vec<(String, u64)>)
        ensures
            unique_names(r@),
            entries_map(r@) == self@.map_values(|t: TokenView| seconds_left(t.expires_at, now) as u64),
    {
        proof {
            use_type_invariant(self);
        }
        let entries = self.caches.entries();
        let mut out: Vec<(String, u64)> = Vec::new();
        let mut i: usize = 0;
        while i < entries.len()
            invariant
                i <= entries@.len(),
                out@.len() == i,
                unique_names(entries@),
                self.caches@ == entries_map(entries@),
                forall|k: Seq<char>| #[trigger] self.caches@.contains_key(k) ==> self.caches@[k].expires_at <= LATEST_EXPIRY,
                forall|j: int| 0 <= j < i ==> #[trigger] out@[j].0@ == entries@[j].0@ && out@[j].1 == (seconds_left(entries@[j].1.expires_at, now) as u64),
            decreases entries@.len() - i,
        {
            let name = entries[i].0.clone();
            let expires_at = entries[i].1.expires_at;
            proof {
                crate::named::lemma_entry_in_map(entries@, i as int);
            }
            out.push((name, secs_left(expires_at, now)));
            i = i + 1;
        }
        proof {
            let f = |t: TokenView| seconds_left(t.expires_at, now) as u64;
            assert forall|j: int| 0 <= j < entries@.len() implies #[trigger] crate::named::name_at(out@, j) == crate::named::name_at(entries@, j) by {
                assert(out@[j].0@ == entries@[j].0@);
            }
            assert forall|j: int| 0 <= j < entries@.len() implies #[trigger] out@[j].1@ == f(entries@[j].1@) by {
                assert(out@[j].0@ == entries@[j].0@);
            }
            crate::named::lemma_same_names_map(entries@, out@, f);
        }
        out
    }
}

/// The client-credentials request to send for a profile.
#[derive(Debug)]
pub struct TokenRequest {
    /// `https://{domain}/oauth/token`.
    pub url: String,
    /// The form fields, in order.
    pub form: Vec<(String, String)>,
}

/// Why no token could be had.
#[derive(Debug)]
pub enum TokenError {
    /// No profile of that name is configured.
    ProfileNotFound(String),
    /// Auth0 answered with a status other than success; `body` is its text.
    Rejected { profile: String, body: String },
    /// The request could not be sent or its answer not read; the message says why.
    Transport(String),
}

/// What the token endpoint answered.
#[derive(Debug)]
pub enum TokenReply {
    /// A success status and a token valid for `expires_in` seconds.
    Granted { access_token: String, expires_in: u64 },
    /// A status other than success, with the body's text.
    Rejected { body: String },
    /// No usable answer: the message of the failure.
    Failed { message: String },
}

/// The token endpoint of an Auth0 domain.
pub open spec fn token_url(domain: Seq<char>) -> Seq<char> {
    "https://"@ + domain + "/oauth/token"@
}

/// The form of a client-credentials grant for a profile.
pub open spec fn token_form(p: ProfileView) -> Seq<(Seq<char>, Seq<char>)> {
    seq![
        ("grant_type"@, "client_credentials"@),
        ("client_id"@, p.client_id),
        ("client_secret"@, p.client_secret),
        ("audience"@, p.audience),
    ]
}

/// The text of a list of string pairs.
pub open spec fn pairs_view(v: Seq<(String, String)>) -> Seq<(Seq<char>, Seq<char>)> {
    v.map_values(|p: (String, String)| (p.0@, p.1@))
}

/// The message of a token error.
pub open spec fn token_error_message(e: TokenError) -> Seq<char> {
    match e {
        TokenError::ProfileNotFound(p) => "Profile `"@ + p@ + "` not found"@,
        TokenError::Rejected { profile, body } => "Auth0 error (profile `"@ + profile@ + "`): "@
            + body@,
        TokenError::Transport(m) => m@,
    }
}

impl TokenError {
    /// The error's message.
    pub fn message(&self) -> (r: String)
        ensures
            r@ == token_error_message(*self),
    {
        match self {
            TokenError::ProfileNotFound(p) => "Profile `".to_string().concat(p.as_str()).concat(
                "` not found",
            ),
            TokenError::Rejected { profile, body } => "Auth0 error (profile `".to_string().concat(
                profile.as_str(),
            ).concat("`): ").concat(body.as_str()),
            TokenError::Transport(m) => m.clone(),
        }
    }
}

/// The request that fetches a token for `profile`, or `ProfileNotFound`
/// when no such profile is configured.
pub fn token_request(profiles: &NamedMap<Auth0Config>, profile: &str) -> (r: Result<
    TokenRequest,
    TokenError,
>)
    ensures
        r is Ok <==> profiles@.contains_key(profile@),
        r matches Ok(req) ==> req.url@ == token_url(profiles@[profile@].domain) && pairs_view(
            req.form@,
        ) == token_form(profiles@[profile@]),
        r matches Err(e) ==> e matches TokenError::ProfileNotFound(n) && n@ == profile@,
{
    let key = profile.to_string();
    match profiles.get(&key) {
        None => Err(TokenError::ProfileNotFound(key)),
        Some(a) => {
            let url = "https://".to_string().concat(a.domain.as_str()).concat("/oauth/token");
            let mut form: Vec<(String, String)> = Vec::new();
            form.push(("grant_type".to_string(), "client_credentials".to_string()));
            form.push(("client_id".to_string(), a.client_id.clone()));
            form.push(("client_secret".to_string(), a.client_secret.clone()));
            form.push(("audience".to_string(), a.audience.clone()));
            assert(pairs_view(form@) =~= token_form(profiles@[profile@]));
            Ok(TokenRequest { url, form })
        },
    }
}

impl TokenManager {
    /// Settles a fetch for `profile` begun at `now`: a granted token is cached
    /// and returned; otherwise the cache stays as it is and the error says why.
    pub fn finish_fetch(&mut self, profile: &str, now: u128, reply: TokenReply) -> (r: Result<
        String,
        TokenError,
    >)
        requires
            reply matches TokenReply::Granted { expires_in, .. } ==> expiry(now, expires_in)
                <= LATEST_EXPIRY,
        ensures
            fetch_settled(old(self)@, final(self)@, profile@, now, reply, r),
    {
        match reply {
            TokenReply::Granted { access_token, expires_in } => {
                let token = access_token.clone();
                self.store_token(profile, access_token, expires_in, now);
                Ok(token)
            },
            TokenReply::Rejected { body } => Err(
                TokenError::Rejected { profile: profile.to_string(), body },
            ),
            TokenReply::Failed { message } => Err(TokenError::Transport(message)),
        }
    }
}

/// How a fetch for `profile` begun at `now` settles: a granted token is
/// cached and returned; otherwise the cache stays as it is and the error says why.
pub open spec fn fetch_settled(
    before: Map<Seq<char>, TokenView>,
    after: Map<Seq<char>, TokenView>,
    profile: Seq<char>,
    now: u128,
    reply: TokenReply,
    r: Result<String, TokenError>,
) -> bool {
    match reply {
        TokenReply::Granted { access_token, expires_in } => {
            &&& after == with_grant(before, profile, access_token@, expires_in, now)
            &&& r matches Ok(t) && t@ == access_token@
        },
        TokenReply::Rejected { body } => {
            &&& after == before
            &&& r matches Err(TokenError::Rejected { profile: p, body: b }) && p@ == profile && b@
                == body@
        },
        TokenReply::Failed { message } => {
            &&& after == before
            &&& r matches Err(TokenError::Transport(m)) && m@ == message@
        },
    }
}

/// What has just happened while getting a token for a profile.
pub enum TokenEvent<'a> {
    /// A token was asked for.
    Asked,
    /// The configured profiles were loaded.
    ProfilesLoaded(&'a NamedMap<Auth0Config>),
    /// The token endpoint answered.
    Answered(TokenReply),
}

/// What to do next while getting a token.
#[derive(Debug)]
pub enum TokenAction {
    /// Hand this out: the token, or why there is none.
    Done(Result<String, TokenError>),
    /// Load the configured profiles.
    LoadProfiles,
    /// Send this request to the token endpoint.
    Send(TokenRequest),
}

impl TokenManager {
    /// One step of getting a token for `profile` at `now`: a fresh cached
    /// token is served; otherwise the profiles are loaded, the
    /// client-credentials request is built (or the profile is missing), and
    /// the answer is settled into the cache.
    pub fn get_token(&mut self, profile: &str, now: u128, event: TokenEvent) -> (r: TokenAction)
        requires
            event matches TokenEvent::Answered(TokenReply::Granted { expires_in, .. }) ==> expiry(
                now,
                expires_in,
            ) <= LATEST_EXPIRY,
        ensures
            match event {
                TokenEvent::Asked => {
                    &&& final(self)@ == old(self)@
                    &&& match cache_lookup(old(self)@, profile@, now) {
                        Some(t) => r matches TokenAction::Done(Ok(s)) && s@ == t,
                        None => r is LoadProfiles,
                    }
                },
                TokenEvent::ProfilesLoaded(profiles) => {
                    &&& final(self)@ == old(self)@
                    &&& profiles@.contains_key(profile@) ==> (r matches TokenAction::Send(req)
                        && req.url@ == token_url(profiles@[profile@].domain) && pairs_view(req.form@)
                        == token_form(profiles@[profile@]))
                    &&& !profiles@.contains_key(profile@) ==> (r matches TokenAction::Done(
                        Err(TokenError::ProfileNotFound(n)),
                    ) && n@ == profile@)
                },
                TokenEvent::Answered(reply) => r matches TokenAction::Done(res) && fetch_settled(
                    old(self)@,
                    final(self)@,
                    profile@,
                    now,
                    reply,
                    res,
                ),
            },
    {
        match event {
            TokenEvent::Asked => match self.cached_token(profile, now) {
                Some(t) => TokenAction::Done(Ok(t)),
                None => TokenAction::LoadProfiles,
            },
            TokenEvent::ProfilesLoaded(profiles) => match token_request(profiles, profile) {
                Ok(req) => TokenAction::Send(req),
                Err(e) => TokenAction::Done(Err(e)),
            },
            TokenEvent::Answered(reply) => TokenAction::Done(self.finish_fetch(profile, now, reply)),
        }
    }
}

/// Whole seconds from `now` to `expires_at`, 0 once it has passed.
fn secs_left(expires_at: u128, now: u128) -> (r: u64)
    requires
        expires_at <= LATEST_EXPIRY,
    ensures
        r == seconds_left(expires_at, now),
{
    if expires_at > now {
        let secs = (expires_at - now) / NANOS_PER_SEC;
        assert(secs <= u64::MAX) by (nonlinear_arith)
            requires
                secs == (expires_at - now) as int / NANOS_PER_SEC as int,
                expires_at - now <= LATEST_EXPIRY,
                NANOS_PER_SEC == 1_000_000_000,
                LATEST_EXPIRY == 18_446_744_073_709_551_615_000_000_000,
        ;
        secs as u64
    } else {
        0
    }
}

} // verus!
