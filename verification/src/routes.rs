//! What the HTTP handlers decide: profile edits, saved requests, token
//! refresh replies, request planning for the proxy and vault decryption.
use vstd::prelude::*;
use crate::config::{AppConfig, Auth0Config, ProfileView, SavedEntry, entry_named};
use crate::named::{NamedMap, entries_map, name_at, unique_names};
use crate::text::{cleaned_ciphertext, clean_ciphertext, trim, trim_text};
use crate::token::{TokenError, TokenManager, seconds_left, token_error_message};

verus! {

/// `400 Bad Request`.
pub const BAD_REQUEST: u16 = 400;

/// `404 Not Found`.
pub const NOT_FOUND: u16 = 404;

/// `422 Unprocessable Entity`.
pub const UNPROCESSABLE_ENTITY: u16 = 422;

/// `500 Internal Server Error`.
pub const INTERNAL_SERVER_ERROR: u16 = 500;

/// `502 Bad Gateway`.
pub const BAD_GATEWAY: u16 = 502;

/// An error answer: its HTTP status and the text of its `detail` field.
#[derive(Debug)]
pub struct ApiError {
    pub status: u16,
    pub detail: String,
}

// ---------------------------------------------------------------------------
// Profiles
// ---------------------------------------------------------------------------

/// A profile as it is listed, with its secret masked.
#[derive(Debug)]
pub struct MaskedProfile {
    pub domain: String,
    pub client_id: String,
    pub client_secret: String,
    pub audience: String,
}

/// The text of a listed profile.
pub struct MaskedView {
    pub domain: Seq<char>,
    pub client_id: Seq<char>,
    pub client_secret: Seq<char>,
    pub audience: Seq<char>,
}

impl View for MaskedProfile {
    type V = MaskedView;

    open spec fn view(&self) -> MaskedView {
        MaskedView {
            domain: self.domain@,
            client_id: self.client_id@,
            client_secret: self.client_secret@,
            audience: self.audience@,
        }
    }
}

/// A secret as it is shown: empty stays empty, anything else is eight asterisks.
pub open spec fn masked_secret(secret: Seq<char>) -> Seq<char> {
    if secret.len() == 0 {
        Seq::<char>::empty()
    } else {
        "********"@
    }
}

/// A profile as it is listed: the note left out, the secret masked.
pub open spec fn masked(p: ProfileView) -> MaskedView {
    MaskedView {
        domain: p.domain,
        client_id: p.client_id,
        client_secret: masked_secret(p.client_secret),
        audience: p.audience,
    }
}

/// The secret as it is shown.
pub fn mask_secret(secret: &String) -> (r: String)
    ensures
        r@ == masked_secret(secret@),
{
    if secret.as_str().is_empty() {
        String::new()
    } else {
        "********".to_string()
    }
}

/// Every configured profile, by name, with secrets masked.
pub fn get_profiles<J>(cfg: &AppConfig<J>) -> (r: Vec<(String, MaskedProfile)>)
    ensures
        unique_names(r@),
        entries_map(r@) == cfg.profiles@.map_values(|p: ProfileView| masked(p)),
{
    let entries = cfg.profiles.entries();
    let mut out: Vec<(String, MaskedProfile)> = Vec::new();
    let mut i: usize = 0;
    while i < entries.len()
        invariant
            i <= entries@.len(),
            out@.len() == i,
            unique_names(entries@),
            forall|j: int| 0 <= j < i ==> #[trigger] name_at(out@, j) == name_at(entries@, j),
            forall|j: int| 0 <= j < i ==> #[trigger] out@[j].1@ == masked(entries@[j].1@),
        decreases entries@.len() - i,
    {
        let a = &entries[i].1;
        let shown = MaskedProfile {
            domain: a.domain.clone(),
            client_id: a.client_id.clone(),
            client_secret: mask_secret(&a.client_secret),
            audience: a.audience.clone(),
        };
        let ghost prev = out@;
        let nm = entries[i].0.clone();
        assert(nm@ == name_at(entries@, i as int));
        let ghost nm_ghost = nm;
        out.push((nm, shown));
        assert forall|j: int| 0 <= j <= i implies #[trigger] name_at(out@, j) == name_at(entries@, j) by {
            if j < i {
                assert(out@[j] == prev[j]);
                assert(name_at(prev, j) == name_at(entries@, j));
            } else {
                assert(out@[j].0 == nm_ghost);
            }
        }
        i = i + 1;
    }
    proof {
        crate::named::lemma_same_names_map(entries@, out@, |p: ProfileView| masked(p));
    }
    out
}

/// The profiles after `name` is created or replaced with `payload`.
pub open spec fn upserted(profiles: Map<Seq<char>, ProfileView>, name: Seq<char>, payload: ProfileView) -> Map<
    Seq<char>,
    ProfileView,
> {
    profiles.insert(name, payload)
}

/// The profiles after `name` is deleted.
pub open spec fn deleted(profiles: Map<Seq<char>, ProfileView>, name: Seq<char>) -> Map<Seq<char>, ProfileView> {
    profiles.remove(name)
}

/// Creates or replaces the profile `name`.
pub fn upsert_profile<J>(cfg: &mut AppConfig<J>, name: String, payload: Auth0Config)
    ensures
        final(cfg).profiles@ == upserted(old(cfg).profiles@, name@, payload@),
        final(cfg).saved_requests == old(cfg).saved_requests,
        final(cfg).vault_password == old(cfg).vault_password,
{
    cfg.profiles.insert(name, payload);
}

/// The detail of a delete for a profile that does not exist.
pub open spec fn profile_missing_detail(name: Seq<char>) -> Seq<char> {
    "Profile '"@ + name + "' not found"@
}

/// Removes the profile `name`; `404` when there is none.
pub fn delete_profile<J>(cfg: &mut AppConfig<J>, name: &String) -> (r: Result<(), ApiError>)
    ensures
        r is Ok <==> old(cfg).profiles@.contains_key(name@),
        final(cfg).profiles@ == deleted(old(cfg).profiles@, name@),
        final(cfg).saved_requests == old(cfg).saved_requests,
        final(cfg).vault_password == old(cfg).vault_password,
        r matches Err(e) ==> e.status == NOT_FOUND && e.detail@ == profile_missing_detail(name@),
{
    match cfg.profiles.remove(name) {
        Some(_) => Ok(()),
        None => Err(
            ApiError {
                status: NOT_FOUND,
                detail: "Profile '".to_string().concat(name.as_str()).concat("' not found"),
            },
        ),
    }
}

// ---------------------------------------------------------------------------
// Saved requests
// ---------------------------------------------------------------------------

/// The stored requests that do not carry the name `name`, in order.
pub open spec fn without_name<J>(entries: Seq<SavedEntry<J>>, name: Seq<char>) -> Seq<SavedEntry<J>> {
    entries.filter(|e: SavedEntry<J>| !entry_named(e, name))
}

/// Whether a stored request carries the name `name`.
fn is_named<J>(entry: &SavedEntry<J>, name: &String) -> (r: bool)
    ensures
        r == entry_named(*entry, name@),
{
    match &entry.name {
        Some(n) => *n == *name,
        None => false,
    }
}

/// `entries` without those named `name`.
fn drop_named<J>(entries: Vec<SavedEntry<J>>, name: &String) -> (r: Vec<SavedEntry<J>>)
    ensures
        r@ == without_name(entries@, name@),
{
    let ghost all = entries@;
    let mut out: Vec<SavedEntry<J>> = Vec::new();
    let mut rest = entries;
    let mut taken: Vec<SavedEntry<J>> = Vec::new();
    // Reverse, so that popping yields the entries from the first on.
    while rest.len() > 0
        invariant
            taken@.len() + rest@.len() == all.len(),
            forall|j: int| 0 <= j < rest@.len() ==> #[trigger] rest@[j] == all[j],
            forall|j: int| 0 <= j < taken@.len() ==> #[trigger] taken@[j] == all[all.len() - 1 - j],
        decreases rest@.len(),
    {
        let e = rest.pop().unwrap();
        taken.push(e);
    }
    proof {
        reveal(Seq::filter);
        assert(all.take(0) =~= Seq::<SavedEntry<J>>::empty());
    }
    while taken.len() > 0
        invariant
            taken@.len() <= all.len(),
            forall|j: int| 0 <= j < taken@.len() ==> #[trigger] taken@[j] == all[all.len() - 1 - j],
            out@ == without_name(all.take(all.len() - taken@.len()), name@),
        decreases taken@.len(),
    {
        let ghost done = all.len() - taken@.len();
        let e = taken.pop().unwrap();
        assert(e == all[done]);
        assert(all.take(done + 1).drop_last() =~= all.take(done));
        proof {
            reveal(Seq::filter);
        }
        if !is_named(&e, name) {
            out.push(e);
        }
    }
    assert(all.take(all.len() as int) =~= all);
    out
}

/// Saves a request under `name`: earlier requests of that name go, the new
/// one comes last.
pub fn post_saved<J>(cfg: &mut AppConfig<J>, name: String, entry: J)
    ensures
        final(cfg).saved_requests@ == without_name(old(cfg).saved_requests@, name@).push(
            (SavedEntry { name: Some(name), value: entry }),
        ),
        final(cfg).profiles@ == old(cfg).profiles@,
        final(cfg).vault_password == old(cfg).vault_password,
{
    let mut saved: Vec<SavedEntry<J>> = Vec::new();
    std::mem::swap(&mut saved, &mut cfg.saved_requests);
    let mut kept = drop_named(saved, &name);
    kept.push(SavedEntry { name: Some(name), value: entry });
    cfg.saved_requests = kept;
}

/// Deletes every saved request named `name`.
pub fn delete_saved<J>(cfg: &mut AppConfig<J>, name: &String)
    ensures
        final(cfg).saved_requests@ == without_name(old(cfg).saved_requests@, name@),
        final(cfg).profiles@ == old(cfg).profiles@,
        final(cfg).vault_password == old(cfg).vault_password,
{
    let mut saved: Vec<SavedEntry<J>> = Vec::new();
    std::mem::swap(&mut saved, &mut cfg.saved_requests);
    cfg.saved_requests = drop_named(saved, name);
}

// ---------------------------------------------------------------------------
// Token refresh
// ---------------------------------------------------------------------------

/// The profile name that stands for every profile in a refresh.
pub open spec fn all_profiles() -> Seq<char> {
    "_all"@
}

/// Starts a refresh: drops the cached token of `profile`, or of every profile
/// for `"_all"`, and says whether it was `"_all"` (then nothing is fetched).
pub fn token_refresh_start(tokens: &mut TokenManager, profile: &String) -> (all: bool)
    ensures
        all == (profile@ == all_profiles()),
        all ==> final(tokens)@ == Map::<Seq<char>, crate::token::TokenView>::empty(),
        !all ==> final(tokens)@ == old(tokens)@.remove(profile@),
{
    let all_name = "_all".to_string();
    if *profile == all_name {
        tokens.invalidate(None);
        true
    } else {
        tokens.invalidate(Some(profile.as_str()));
        false
    }
}

/// The answer to a refresh of `profile` once its fetch is settled: the
/// seconds left on the new token (0 when none is cached), or `502` with the
/// fetch's error message.
pub fn token_refresh_reply(tokens: &TokenManager, profile: &str, now: u128, fetched: Result<
    String,
    TokenError,
>) -> (r: Result<u64, ApiError>)
    ensures
        fetched is Ok ==> (r matches Ok(secs) && secs == (if tokens@.contains_key(profile@) {
            seconds_left(tokens@[profile@].expires_at, now)
        } else {
            0
        })),
        fetched matches Err(e) ==> (r matches Err(a) && a.status == BAD_GATEWAY && a.detail@
            == token_error_message(e)),
{
    match fetched {
        Ok(_) => match tokens.remaining_secs(profile, now) {
            Some(secs) => Ok(secs),
            None => Ok(0),
        },
        Err(e) => Err(token_failure(&e)),
    }
}

/// A token that could not be had, as an answer: `502` with the error's message.
pub fn token_failure(e: &TokenError) -> (r: ApiError)
    ensures
        r.status == BAD_GATEWAY,
        r.detail@ == token_error_message(*e),
{
    ApiError { status: BAD_GATEWAY, detail: e.message() }
}

// ---------------------------------------------------------------------------
// Proxied calls
// ---------------------------------------------------------------------------

/// The HTTP methods the proxy sends.
#[derive(Debug, Clone, Copy, PartialEq, Eq)]
pub enum HttpMethod {
    Get,
    Post,
    Put,
    Patch,
    Delete,
}

/// The method an upper-cased name stands for.
pub open spec fn method_for(upper: Seq<char>) -> Option<HttpMethod> {
    if upper == "GET"@ {
        Some(HttpMethod::Get)
    } else if upper == "POST"@ {
        Some(HttpMethod::Post)
    } else if upper == "PUT"@ {
        Some(HttpMethod::Put)
    } else if upper == "PATCH"@ {
        Some(HttpMethod::Patch)
    } else if upper == "DELETE"@ {
        Some(HttpMethod::Delete)
    } else {
        None
    }
}

/// The detail of an answer to an unknown method.
pub open spec fn unknown_method_detail(upper: Seq<char>) -> Seq<char> {
    "Unknown method: "@ + upper
}

/// What `str::to_uppercase` gives for a text (Unicode upper-case mapping).
pub uninterp spec fn uppercase(s: Seq<char>) -> Seq<char>;

/// Calls std's `str::to_uppercase`. Claimed: the result is `uppercase` of the
/// argument, a function of the argument's characters alone.
#[verifier::external_body]
fn to_uppercase(s: &str) -> (r: String)
    ensures
        r@ == uppercase(s@),
{
    s.to_uppercase()
}

/// The method named by an upper-cased name; `400` for any other name.
pub fn method_from_upper(upper: String) -> (r: Result<HttpMethod, ApiError>)
    ensures
        method_for(upper@) matches Some(m) ==> r == Ok::<HttpMethod, ApiError>(m),
        method_for(upper@) is None ==> (r matches Err(e) && e.status == BAD_REQUEST && e.detail@
            == unknown_method_detail(upper@)),
{
    if upper == "GET".to_string() {
        Ok(HttpMethod::Get)
    } else if upper == "POST".to_string() {
        Ok(HttpMethod::Post)
    } else if upper == "PUT".to_string() {
        Ok(HttpMethod::Put)
    } else if upper == "PATCH".to_string() {
        Ok(HttpMethod::Patch)
    } else if upper == "DELETE".to_string() {
        Ok(HttpMethod::Delete)
    } else {
        Err(
            ApiError {
                status: BAD_REQUEST,
                detail: "Unknown method: ".to_string().concat(upper.as_str()),
            },
        )
    }
}

/// The method of a proxied call, named in any case; `400` for an unknown one.
pub fn parse_method(method: &str) -> (r: Result<HttpMethod, ApiError>)
    ensures
        method_for(uppercase(method@)) matches Some(m) ==> r == Ok::<HttpMethod, ApiError>(m),
        method_for(uppercase(method@)) is None ==> (r matches Err(e) && e.status == BAD_REQUEST
            && e.detail@ == unknown_method_detail(uppercase(method@))),
{
    method_from_upper(to_uppercase(method))
}

/// The value of the `Authorization` header for a bearer token.
pub open spec fn bearer(token: Seq<char>) -> Seq<char> {
    "Bearer "@ + token
}

/// The text of a list of string pairs.
pub open spec fn header_view(v: Seq<(String, String)>) -> Seq<(Seq<char>, Seq<char>)> {
    v.map_values(|p: (String, String)| (p.0@, p.1@))
}

/// The headers of a proxied call: the caller's, in order, then the bearer
/// token of the chosen profile, if any.
pub fn request_headers(user: Vec<(String, String)>, token: Option<String>) -> (r: Vec<(String, String)>)
    ensures
        header_view(r@) == header_view(user@) + match token {
            Some(t) => seq![("Authorization"@, bearer(t@))],
            None => Seq::<(Seq<char>, Seq<char>)>::empty(),
        },
{
    let mut out = user;
    let ghost before = out@;
    match token {
        Some(t) => {
            let value = "Bearer ".to_string().concat(t.as_str());
            out.push(("Authorization".to_string(), value));
            assert(header_view(out@) =~= header_view(before) + seq![("Authorization"@, bearer(t@))]);
        },
        None => {
            assert(header_view(out@) =~= header_view(before) + Seq::<(Seq<char>, Seq<char>)>::empty());
        },
    }
    out
}

/// A byte that a header value may show as text (`HeaderValue::to_str`).
pub open spec fn is_visible_ascii(b: u8) -> bool {
    (32 <= b && b < 127) || b == 9
}

/// Every byte is visible ASCII.
pub open spec fn visible_text(bytes: Seq<u8>) -> bool {
    forall|i: int| 0 <= i < bytes.len() ==> #[trigger] is_visible_ascii(bytes[i])
}

/// The characters of ASCII bytes.
pub open spec fn ascii_chars(bytes: Seq<u8>) -> Seq<char> {
    bytes.map_values(|b: u8| b as char)
}

/// Every byte is ASCII.
pub open spec fn all_ascii(bytes: Seq<u8>) -> bool {
    forall|i: int| 0 <= i < bytes.len() ==> #[trigger] bytes[i] < 128
}

/// The response headers as the proxy reports them: each header whose value
/// is visible ASCII, by name, a later value of a name replacing an earlier one.
pub open spec fn text_headers(raw: Seq<(String, Vec<u8>)>) -> Map<Seq<char>, Seq<char>>
    decreases raw.len(),
{
    if raw.len() == 0 {
        Map::empty()
    } else {
        let m = text_headers(raw.drop_last());
        let (name, value) = raw.last();
        if visible_text(value@) {
            m.insert(name@, ascii_chars(value@))
        } else {
            m
        }
    }
}

/// Calls std's `String::from_utf8`. Claimed: bytes that are all ASCII are
/// valid UTF-8 and give the string of the same characters; of other bytes
/// nothing is said.
#[verifier::external_body]
fn string_from_utf8(bytes: Vec<u8>) -> (r: Option<String>)
    ensures
        r is Some || !all_ascii(bytes@),
        r matches Some(s) ==> (all_ascii(bytes@) ==> s@ == ascii_chars(bytes@)),
{
    String::from_utf8(bytes).ok()
}

/// Whether every byte is visible ASCII.
fn is_visible_text(bytes: &Vec<u8>) -> (r: bool)
    ensures
        r == visible_text(bytes@),
{
    let mut i: usize = 0;
    while i < bytes.len()
        invariant
            i <= bytes@.len(),
            forall|j: int| 0 <= j < i ==> #[trigger] is_visible_ascii(bytes@[j]),
        decreases bytes@.len() - i,
    {
        let b = bytes[i];
        if !((32 <= b && b < 127) || b == 9) {
            assert(!is_visible_ascii(bytes@[i as int]));
            return false;
        }
        i = i + 1;
    }
    true
}

/// The response headers that can be shown as text, by name (a later value
/// of a name replaces an earlier one).
pub fn collect_text_headers(raw: Vec<(String, Vec<u8>)>) -> (r: Vec<(String, String)>)
    ensures
        unique_names(r@),
        entries_map(r@) == text_headers(raw@),
{
    let mut headers: NamedMap<String> = NamedMap::new();
    let mut i: usize = 0;
    while i < raw.len()
        invariant
            i <= raw@.len(),
            headers@ == text_headers(raw@.take(i as int)),
        decreases raw@.len() - i,
    {
        assert(raw@.take(i + 1).drop_last() =~= raw@.take(i as int));
        if is_visible_text(&raw[i].1) {
            let bytes = raw[i].1.clone();
            assert(bytes@ =~= raw@[i as int].1@);
            assert(all_ascii(bytes@)) by {
                assert forall|j: int| 0 <= j < bytes@.len() implies #[trigger] bytes@[j] < 128 by {
                    assert(is_visible_ascii(bytes@[j]));
                }
            }
            match string_from_utf8(bytes) {
                Some(text) => {
                    let name = raw[i].0.clone();
                    headers.insert(name, text);
                },
                None => {},
            }
        }
        i = i + 1;
    }
    assert(raw@.take(raw@.len() as int) =~= raw@);
    headers.into_entries()
}

// ---------------------------------------------------------------------------
// Vault
// ---------------------------------------------------------------------------

/// The new vault password.
#[derive(Debug)]
pub struct VaultPasswordPayload {
    pub password: String,
}

/// The pasted vault ciphertext to decrypt.
#[derive(Debug)]
pub struct VaultDecryptPayload {
    pub ciphertext: String,
}

/// What `ansible-vault` is run on: the password and the cleaned ciphertext.
#[derive(Debug)]
pub struct VaultJob {
    pub password: String,
    pub ciphertext: String,
}

/// Whether a vault password is configured.
pub fn vault_status<J>(cfg: &AppConfig<J>) -> (r: bool)
    ensures
        r == cfg.vault_password is Some,
{
    cfg.vault_password.is_some()
}

/// Sets the vault password.
pub fn save_vault_password<J>(cfg: &mut AppConfig<J>, payload: VaultPasswordPayload)
    ensures
        final(cfg).vault_password == Some(payload.password),
        final(cfg).profiles@ == old(cfg).profiles@,
        final(cfg).saved_requests == old(cfg).saved_requests,
{
    cfg.vault_password = Some(payload.password);
}

/// The detail of a decryption asked for without a vault password.
pub open spec fn vault_missing_detail() -> Seq<char> {
    "Vault password not configured"@
}

/// What to run `ansible-vault` on; `400` when no vault password is configured.
pub fn vault_decrypt<J>(cfg: &AppConfig<J>, payload: &VaultDecryptPayload) -> (r: Result<VaultJob, ApiError>)
    ensures
        r is Ok <==> cfg.vault_password is Some,
        r matches Ok(job) ==> job.password@ == cfg.vault_password->0@ && job.ciphertext@
            == cleaned_ciphertext(payload.ciphertext@),
        r matches Err(e) ==> e.status == BAD_REQUEST && e.detail@ == vault_missing_detail(),
{
    match &cfg.vault_password {
        None => Err(
            ApiError { status: BAD_REQUEST, detail: "Vault password not configured".to_string() },
        ),
        Some(password) => Ok(
            VaultJob {
                password: password.clone(),
                ciphertext: clean_ciphertext(payload.ciphertext.as_str()),
            },
        ),
    }
}

/// The answer to a finished `ansible-vault` run: the trimmed output on
/// success, else `422` with the trimmed error output.
pub fn vault_decrypt_result(success: bool, stdout: &str, stderr: &str) -> (r: Result<String, ApiError>)
    ensures
        success ==> (r matches Ok(text) && text@ == trim(stdout@)),
        !success ==> (r matches Err(e) && e.status == UNPROCESSABLE_ENTITY && e.detail@ == trim(
            stderr@,
        )),
{
    if success {
        Ok(trim_text(stdout))
    } else {
        Err(ApiError { status: UNPROCESSABLE_ENTITY, detail: trim_text(stderr) })
    }
}

} // verus!
