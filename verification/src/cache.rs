//! What the cache keeps about genres, and when a cached entry has expired.

use vstd::prelude::*;

verus! {

/// Seconds a cached track stays valid: 90 days.
pub const TTL_TRACK_SECS: i64 = 7_776_000;

/// Seconds a cached genre stays valid: 180 days.
pub const TTL_GENRE_SECS: i64 = 15_552_000;

/// What the cache keeps about a genre.
#[derive(Debug, Clone)]
pub struct CachedGenre {
    pub parent_genre: Option<String>,
    pub origin_decade: Option<String>,
    pub confirmed: bool,
    pub mb_tag: Option<String>,
}

/// An entry cached at `cached_at` is still valid at `now` when no more than
/// `ttl` seconds have passed.
pub fn is_fresh(now: i64, cached_at: i64, ttl: i64) -> (b: bool)
    requires
        i64::MIN <= now - cached_at <= i64::MAX,
    ensures
        b == (now - cached_at <= ttl),
{
    !(now - cached_at > ttl)
}

/// A cached track is valid for 90 days.
pub fn track_is_fresh(now: i64, cached_at: i64) -> (b: bool)
    requires
        i64::MIN <= now - cached_at <= i64::MAX,
    ensures
        b == (now - cached_at <= TTL_TRACK_SECS),
{
    is_fresh(now, cached_at, TTL_TRACK_SECS)
}

/// A cached genre is valid for 180 days.
pub fn genre_is_fresh(now: i64, cached_at: i64) -> (b: bool)
    requires
        i64::MIN <= now - cached_at <= i64::MAX,
    ensures
        b == (now - cached_at <= TTL_GENRE_SECS),
{
    is_fresh(now, cached_at, TTL_GENRE_SECS)
}

} // verus!
