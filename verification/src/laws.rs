//! Properties that hold across the library's operations.
use vstd::prelude::*;
use crate::config::{ProfileView, SavedEntry, entry_named};
use crate::named::lookup;
use crate::routes::{
    HttpMethod, ascii_chars, deleted, masked_secret, method_for, text_headers, upserted,
    visible_text, without_name,
};
use crate::token::{
    LATEST_EXPIRY, NANOS_PER_SEC, TokenError, TokenReply, TokenView, cache_lookup,
    expiry, fetch_settled, invalidated, time_left, with_grant,
};

verus! {

/// After a token is granted to a profile (`finish_fetch`, or `get_token`
/// on the endpoint's answer), asking for it (`cached_token`, or `get_token`
/// when asked) serves it exactly while more than a minute of its lifetime is left.
pub proof fn law_granted_token_is_served(
    cache: Map<Seq<char>, TokenView>,
    profile: Seq<char>,
    token: Seq<char>,
    expires_in: u64,
    granted: u128,
    now: u128,
)
    requires
        expiry(granted, expires_in) <= LATEST_EXPIRY,
    ensures
        cache_lookup(with_grant(cache, profile, token, expires_in, granted), profile, now) == (if now
            + 60_000_000_000 < granted + expires_in * 1_000_000_000 {
            Some(token)
        } else {
            None
        }),
{
}

/// After `invalidate(Some(profile))` the profile has no cached token
/// (`remaining_secs` gives `None` and a token is fetched anew), while every
/// other profile keeps what it had; after `invalidate(None)` no profile has one.
pub proof fn law_invalidate(cache: Map<Seq<char>, TokenView>, profile: Seq<char>, other: Seq<char>, now: u128)
    ensures
        time_left(invalidated(cache, Some(profile)), profile, now) is None,
        cache_lookup(invalidated(cache, Some(profile)), profile, now) is None,
        other != profile ==> time_left(invalidated(cache, Some(profile)), other, now) == time_left(
            cache,
            other,
            now,
        ),
        other != profile ==> cache_lookup(invalidated(cache, Some(profile)), other, now)
            == cache_lookup(cache, other, now),
        time_left(invalidated(cache, None), other, now) is None,
        cache_lookup(invalidated(cache, None), other, now) is None,
{
}

/// Right after a token is granted, `remaining_secs` reports the seconds it was granted for.
pub proof fn law_fresh_grant_reports_its_lifetime(
    cache: Map<Seq<char>, TokenView>,
    profile: Seq<char>,
    token: Seq<char>,
    now: u128,
    expires_in: u64,
)
    requires
        expiry(now, expires_in) <= LATEST_EXPIRY,
    ensures
        time_left(with_grant(cache, profile, token, expires_in, now), profile, now) == Some(
            expires_in as int,
        ),
{
    let span = expires_in * NANOS_PER_SEC;
    assert(span / (NANOS_PER_SEC as int) == expires_in as int) by (nonlinear_arith)
        requires
            span == expires_in * NANOS_PER_SEC,
            NANOS_PER_SEC == 1_000_000_000,
    ;
    if expires_in == 0 {
        assert(expiry(now, expires_in) == now);
    }
}

/// A token the cache serves has at least 60 whole seconds left.
pub proof fn law_served_token_has_a_minute(cache: Map<Seq<char>, TokenView>, profile: Seq<char>, now: u128)
    ensures
        cache_lookup(cache, profile, now) is Some ==> (time_left(cache, profile, now) matches Some(s)
            && s >= 60),
{
    if cache_lookup(cache, profile, now) is Some {
        let span = (cache[profile].expires_at - now) as int;
        assert(span / 1_000_000_000 >= 60) by (nonlinear_arith)
            requires
                span > 60_000_000_000,
        ;
    }
}

/// `remaining_secs` reports the whole seconds left before the cached token
/// expires: `s` seconds when between `s` and `s + 1` seconds remain, and 0
/// once the expiry has passed.
pub proof fn law_remaining_counts_whole_seconds(
    cache: Map<Seq<char>, TokenView>,
    profile: Seq<char>,
    now: u128,
)
    ensures
        time_left(cache, profile, now) is Some <==> cache.contains_key(profile),
        time_left(cache, profile, now) matches Some(s) ==> if cache[profile].expires_at > now {
            s * 1_000_000_000 <= cache[profile].expires_at - now < (s + 1) * 1_000_000_000
        } else {
            s == 0
        },
{
    if cache.contains_key(profile) && cache[profile].expires_at > now {
        let d = (cache[profile].expires_at - now) as int;
        let s = d / 1_000_000_000;
        assert(s * 1_000_000_000 <= d < (s + 1) * 1_000_000_000) by (nonlinear_arith)
            requires
                s == d / 1_000_000_000,
                d > 0,
        ;
    }
}

/// The seconds `remaining_secs` reports never grow as time passes.
pub proof fn law_seconds_left_never_grow(
    cache: Map<Seq<char>, TokenView>,
    profile: Seq<char>,
    earlier: u128,
    later: u128,
)
    requires
        earlier <= later,
    ensures
        time_left(cache, profile, later) matches Some(l) ==> (time_left(cache, profile, earlier)
            matches Some(e) && l <= e),
{
    if cache.contains_key(profile) {
        let expires_at = cache[profile].expires_at;
        if expires_at > later {
            let a = (expires_at - later) as int;
            let b = (expires_at - earlier) as int;
            assert(a / 1_000_000_000 <= b / 1_000_000_000) by (nonlinear_arith)
                requires
                    0 <= a <= b,
            ;
        } else if expires_at > earlier {
            let b = (expires_at - earlier) as int;
            assert(b / 1_000_000_000 >= 0) by (nonlinear_arith)
                requires
                    b >= 0,
            ;
        }
    }
}

/// A profile written by `upsert_profile` reads back through `NamedMap::get`
/// as written, and every other profile reads as before.
pub proof fn law_profile_reads_back(
    profiles: Map<Seq<char>, ProfileView>,
    name: Seq<char>,
    payload: ProfileView,
    other: Seq<char>,
)
    ensures
        lookup(upserted(profiles, name, payload), name) == Some(payload),
        other != name ==> lookup(upserted(profiles, name, payload), other) == lookup(profiles, other),
{
}

/// After `delete_profile` the profile reads as absent through `NamedMap::get`,
/// every other profile reads as before, and deleting right after an upsert
/// leaves the profiles as deleting alone would.
pub proof fn law_profile_delete(
    profiles: Map<Seq<char>, ProfileView>,
    name: Seq<char>,
    payload: ProfileView,
    other: Seq<char>,
)
    ensures
        lookup(deleted(profiles, name), name) is None,
        other != name ==> lookup(deleted(profiles, name), other) == lookup(profiles, other),
        deleted(upserted(profiles, name, payload), name) == deleted(profiles, name),
{
    assert(deleted(upserted(profiles, name, payload), name) =~= deleted(profiles, name));
}

/// The saved requests that carry the name `name`.
pub open spec fn named_entries<J>(entries: Seq<SavedEntry<J>>, name: Seq<char>) -> Seq<SavedEntry<J>> {
    entries.filter(|e: SavedEntry<J>| entry_named(e, name))
}

/// No request that is left after removing a name carries that name.
proof fn lemma_without_name_has_none<J>(entries: Seq<SavedEntry<J>>, name: Seq<char>)
    ensures
        named_entries(without_name(entries, name), name).len() == 0,
    decreases entries.len(),
{
    reveal(Seq::filter);
    if entries.len() > 0 {
        lemma_without_name_has_none(entries.drop_last(), name);
        let rest = without_name(entries.drop_last(), name);
        if !entry_named(entries.last(), name) {
            assert(rest.push(entries.last()).drop_last() =~= rest);
        }
    }
}

/// After a request is saved under a name, exactly one saved request carries
/// that name, and it is the last one.
pub proof fn law_saved_name_is_unique<J>(entries: Seq<SavedEntry<J>>, name: String, value: J)
    ensures
        ({
            let after = without_name(entries, name@).push(SavedEntry { name: Some(name), value });
            &&& named_entries(after, name@).len() == 1
            &&& after.last() == (SavedEntry { name: Some(name), value })
        }),
{
    let kept = without_name(entries, name@);
    let new_entry = SavedEntry { name: Some(name), value };
    lemma_without_name_has_none(entries, name@);
    reveal(Seq::filter);
    assert(kept.push(new_entry).drop_last() =~= kept);
}

/// No two saved requests carry the same name.
pub open spec fn names_distinct<J>(entries: Seq<SavedEntry<J>>) -> bool {
    forall|i: int, j: int|
        0 <= i < entries.len() && 0 <= j < entries.len() && i != j && (#[trigger] entries[i]).name is Some
            ==> !entry_named(#[trigger] entries[j], entries[i].name->0@)
}

/// Removing the requests of a name keeps the other names distinct.
proof fn lemma_without_name_keeps_distinct<J>(entries: Seq<SavedEntry<J>>, name: Seq<char>)
    requires
        names_distinct(entries),
    ensures
        names_distinct(without_name(entries, name)),
    decreases entries.len(),
{
    reveal(Seq::filter);
    if entries.len() > 0 {
        let init = entries.drop_last();
        let last = entries.last();
        assert forall|i: int, j: int|
            0 <= i < init.len() && 0 <= j < init.len() && i != j && (#[trigger] init[i]).name is Some
                implies !entry_named(#[trigger] init[j], init[i].name->0@) by {
            assert(init[i] == entries[i] && init[j] == entries[j]);
        }
        lemma_without_name_keeps_distinct(init, name);
        let rest = without_name(init, name);
        if !entry_named(last, name) {
            let after = rest.push(last);
            assert(without_name(entries, name) == after);
            assert forall|i: int, j: int|
                0 <= i < after.len() && 0 <= j < after.len() && i != j && (#[trigger] after[i]).name is Some
                    implies !entry_named(#[trigger] after[j], after[i].name->0@) by {
                let n = rest.len() as int;
                if i < n && j < n {
                    assert(after[i] == rest[i] && after[j] == rest[j]);
                } else {
                    let k = if i < n { i } else { j };
                    assert(after[k] == rest[k]);
                    assert(rest.contains(rest[k]));
                    init.lemma_filter_contains_rev(|e: SavedEntry<J>| !entry_named(e, name), rest[k]);
                    let m = choose|m: int| 0 <= m < init.len() && init[m] == rest[k];
                    assert(entries[m] == rest[k]);
                    assert(entries[entries.len() - 1] == last);
                    assert(after[n] == last);
                }
            }
        }
    }
}

/// After a request is saved under a name, saved requests whose names were
/// distinct still have distinct names.
pub proof fn law_saved_names_stay_distinct<J>(entries: Seq<SavedEntry<J>>, name: String, value: J)
    requires
        names_distinct(entries),
    ensures
        names_distinct(without_name(entries, name@).push(SavedEntry { name: Some(name), value })),
{
    let kept = without_name(entries, name@);
    let new_entry = SavedEntry { name: Some(name), value };
    let after = kept.push(new_entry);
    lemma_without_name_keeps_distinct(entries, name@);
    assert forall|i: int, j: int|
        0 <= i < after.len() && 0 <= j < after.len() && i != j && (#[trigger] after[i]).name is Some
            implies !entry_named(#[trigger] after[j], after[i].name->0@) by {
        let n = kept.len() as int;
        if i < n && j < n {
            assert(after[i] == kept[i] && after[j] == kept[j]);
        } else {
            let k = if i < n { i } else { j };
            assert(after[k] == kept[k]);
            entries.lemma_filter_pred(|e: SavedEntry<J>| !entry_named(e, name@), k);
            assert(!entry_named(kept[k], name@));
            assert(after[n] == new_entry);
        }
    }
}

/// After the requests of a name are deleted, none carries that name.
pub proof fn law_deleted_name_is_gone<J>(entries: Seq<SavedEntry<J>>, name: Seq<char>)
    ensures
        named_entries(without_name(entries, name), name).len() == 0,
{
    lemma_without_name_has_none(entries, name);
}

/// A secret is shown empty exactly when it is empty, and otherwise as eight asterisks.
pub proof fn law_mask_shows_only_emptiness(secret: Seq<char>)
    ensures
        (masked_secret(secret).len() == 0) <==> (secret.len() == 0),
        secret.len() > 0 ==> masked_secret(secret) == "********"@,
{
    reveal_strlit("********");
}

/// In the reported response headers a later text value of a name replaces
/// an earlier one, and a value that is not visible ASCII changes nothing.
pub proof fn law_later_header_wins(raw: Seq<(String, Vec<u8>)>, name: String, value: Vec<u8>)
    ensures
        visible_text(value@) ==> text_headers(raw.push((name, value))) == text_headers(raw).insert(
            name@,
            ascii_chars(value@),
        ),
        !visible_text(value@) ==> text_headers(raw.push((name, value))) == text_headers(raw),
{
    assert(raw.push((name, value)).drop_last() =~= raw);
}

/// A granted token always replaces whatever the profile had cached: settling
/// a grant of `access_token` for `expires_in` seconds at `now` (`finish_fetch`,
/// or `get_token` on the endpoint's answer) returns that token and caches it
/// for the profile to expire `expires_in` seconds after `now`, leaving every
/// other profile as it was, whatever the cache held before.
pub proof fn law_grant_replaces_cached_token(
    before: Map<Seq<char>, TokenView>,
    after: Map<Seq<char>, TokenView>,
    profile: Seq<char>,
    now: u128,
    access_token: String,
    expires_in: u64,
    r: Result<String, TokenError>,
)
    requires
        now + expires_in * 1_000_000_000 <= LATEST_EXPIRY,
        fetch_settled(before, after, profile, now, TokenReply::Granted { access_token, expires_in }, r),
    ensures
        r matches Ok(t) && t@ == access_token@,
        after.contains_key(profile),
        after[profile].access_token == access_token@,
        after[profile].expires_at == now + expires_in * 1_000_000_000,
        forall|q: Seq<char>|
            q != profile ==> (#[trigger] after.contains_key(q) == before.contains_key(q)
                && (before.contains_key(q) ==> after[q] == before[q])),
{
}

/// A response header whose bytes are all tabs or in `0x20..=0x7E` (spaces
/// included) is reported with exactly its text, replacing an earlier value of
/// its name; one with any other byte leaves the report as it was.
pub proof fn law_text_header_reported(raw: Seq<(String, Vec<u8>)>, name: String, value: Vec<u8>)
    ensures
        (forall|i: int|
            0 <= i < value@.len() ==> #[trigger] value@[i] == 9 || (0x20 <= value@[i] && value@[i]
                <= 0x7e)) ==> ({
            let report = text_headers(raw.push((name, value)));
            &&& report.contains_key(name@)
            &&& report[name@].len() == value@.len()
            &&& forall|i: int| 0 <= i < value@.len() ==> #[trigger] report[name@][i] as u32
                == value@[i] as u32
            &&& forall|q: Seq<char>| q != name@ ==> #[trigger] report.contains_key(q)
                == text_headers(raw).contains_key(q)
        }),
        (exists|i: int|
            0 <= i < value@.len() && !(#[trigger] value@[i] == 9 || (0x20 <= value@[i]
                && value@[i] <= 0x7e))) ==> text_headers(raw.push((name, value))) == text_headers(
            raw,
        ),
{
    assert(raw.push((name, value)).drop_last() =~= raw);
    if exists|i: int|
        0 <= i < value@.len() && !(#[trigger] value@[i] == 9 || (0x20 <= value@[i] && value@[i]
            <= 0x7e)) {
        let i = choose|i: int|
            0 <= i < value@.len() && !(#[trigger] value@[i] == 9 || (0x20 <= value@[i]
                && value@[i] <= 0x7e));
        assert(!crate::routes::is_visible_ascii(value@[i]));
    }
}

/// Saving or deleting requests under `name` keeps, in order, exactly the
/// requests without a name or whose name differs from `name` character for
/// character (`post_saved` then appends the new one).
pub proof fn law_saved_name_matches_exactly<J>(entries: Seq<SavedEntry<J>>, name: Seq<char>)
    ensures
        without_name(entries, name) == entries.filter(
            |e: SavedEntry<J>|
                match e.name {
                    Some(n) => n@ != name,
                    None => true,
                },
        ),
{
    let p1 = |e: SavedEntry<J>| !entry_named(e, name);
    let p2 = |e: SavedEntry<J>|
        match e.name {
            Some(n) => n@ != name,
            None => true,
        };
    assert(p1 =~= p2);
}

/// The proxy accepts exactly the upper-cased names GET, POST, PUT, PATCH and
/// DELETE, each for its own method; every other name is refused.
pub proof fn law_methods_accepted(upper: Seq<char>)
    ensures
        (method_for(upper) == Some(HttpMethod::Get)) <==> (upper == "GET"@),
        (method_for(upper) == Some(HttpMethod::Post)) <==> (upper == "POST"@),
        (method_for(upper) == Some(HttpMethod::Put)) <==> (upper == "PUT"@),
        (method_for(upper) == Some(HttpMethod::Patch)) <==> (upper == "PATCH"@),
        (method_for(upper) == Some(HttpMethod::Delete)) <==> (upper == "DELETE"@),
        (method_for(upper) is None) <==> (upper != "GET"@ && upper != "POST"@ && upper != "PUT"@
            && upper != "PATCH"@ && upper != "DELETE"@),
{
    reveal_strlit("GET");
    reveal_strlit("POST");
    reveal_strlit("PUT");
    reveal_strlit("PATCH");
    reveal_strlit("DELETE");
    let g = "GET"@;
    let po = "POST"@;
    let pu = "PUT"@;
    let pa = "PATCH"@;
    let d = "DELETE"@;
    assert(g.len() == 3 && po.len() == 4 && pu.len() == 3 && pa.len() == 5 && d.len() == 6);
    assert(g[0] == 'G' && pu[0] == 'P' && po[1] == 'O' && pa[1] == 'A');
    assert(g != po && g != pu && g != pa && g != d);
    assert(po != pu && po != pa && po != d);
    assert(pu != pa && pu != d);
    assert(pa != d);
}

} // verus!
