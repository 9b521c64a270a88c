//! The cache that keeps the specifications read from the catalogs, and the
//! files found in error, between two refreshes.
use vstd::prelude::*;
use vstd::string::*;
use crate::app::dao::catalog::spec::SpecItem;
use crate::app::dao::catalog::SpecInError;

verus! {

/// A `quick_cache::sync::Cache` of specification lists keyed by strings. The
/// declaration of the cache type itself is refused (its default hasher holds
/// a type of a crate that this one does not name), so it stands in a private
/// field here.
#[verifier::external_body]
pub struct SpecsCache {
    inner: quick_cache::sync::Cache<String, Vec<SpecItem>>,
}

/// A `quick_cache::sync::Cache` of lists of files in error keyed by strings,
/// held as `SpecsCache` holds its cache.
#[verifier::external_body]
pub struct ErrorsCache {
    inner: quick_cache::sync::Cache<String, Vec<SpecInError>>,
}

/// The entries that a specifications cache holds (those not evicted), by key.
pub uninterp spec fn specs_cache_contents(c: SpecsCache) -> Map<Seq<char>, Seq<SpecItem>>;

/// The entries that an errors cache holds (those not evicted), by key.
pub uninterp spec fn errors_cache_contents(c: ErrorsCache) -> Map<Seq<char>, Seq<SpecInError>>;

/// The weight capacity that a specifications cache was made with (each
/// entry weighs 1).
pub uninterp spec fn specs_cache_capacity(c: SpecsCache) -> nat;

/// The weight capacity that an errors cache was made with.
pub uninterp spec fn errors_cache_capacity(c: ErrorsCache) -> nat;

/// `quick_cache::sync::Cache::new`: an empty cache for about `capacity` items.
#[verifier::external_body]
fn specs_cache_new(capacity: usize) -> (r: SpecsCache)
    ensures
        specs_cache_capacity(r) == capacity as nat,
        specs_cache_contents(r).dom() =~= Set::empty(),
{
    SpecsCache { inner: quick_cache::sync::Cache::new(capacity) }
}

/// `quick_cache::sync::Cache::get`: a clone of the value held under `key`
/// (the derived `Clone`, which copies every field), or `None` when the cache
/// holds nothing under `key`.
#[verifier::external_body]
fn specs_cache_get(c: &SpecsCache, key: &str) -> (r: Option<Vec<SpecItem>>)
    ensures
        match r {
            Some(v) => specs_cache_contents(*c).contains_key(key@) && v@ == specs_cache_contents(*c)[key@],
            None => !specs_cache_contents(*c).contains_key(key@),
        },
{
    c.inner.get(key)
}

/// `quick_cache::sync::Cache::insert` of a clone of `value` (the derived
/// `Clone`) under `key`. The cache may evict other entries; it changes no
/// value that it keeps, and keeps no key it did not hold but `key`. A unit
/// entry fits a cache of capacity 1 or more, so when the cache holds no
/// other key the new entry is kept (a new key is admitted after the
/// eviction, a held one is replaced in place). Whether it is kept next to
/// other keys is left unsaid.
#[verifier::external_body]
fn specs_cache_insert(c: &mut SpecsCache, key: String, value: &Vec<SpecItem>)
    requires
        specs_cache_capacity(*old(c)) >= 1,
    ensures
        specs_cache_capacity(*final(c)) == specs_cache_capacity(*old(c)),
        (forall|k: Seq<char>| #[trigger] specs_cache_contents(*old(c)).contains_key(k) ==> k == key@) ==> specs_cache_contents(
            *final(c),
        ).contains_key(key@) && specs_cache_contents(*final(c))[key@] == value@,
        forall|k: Seq<char>| #[trigger] specs_cache_contents(*final(c)).contains_key(k) ==> if k == key@ {
            specs_cache_contents(*final(c))[k] == value@
        } else {
            specs_cache_contents(*old(c)).contains_key(k) && specs_cache_contents(*final(c))[k] == specs_cache_contents(*old(c))[k]
        },
{
    c.inner.insert(key, value.clone())
}

/// `quick_cache::sync::Cache::remove`: drops the entry held under `key`, if
/// any; the other entries stay.
#[verifier::external_body]
fn specs_cache_remove(c: &mut SpecsCache, key: &str)
    ensures
        specs_cache_capacity(*final(c)) == specs_cache_capacity(*old(c)),
        specs_cache_contents(*final(c)) == specs_cache_contents(*old(c)).remove(key@),
{
    let _ = c.inner.remove(key);
}

/// `quick_cache::sync::Cache::new`, for an errors cache.
#[verifier::external_body]
fn errors_cache_new(capacity: usize) -> (r: ErrorsCache)
    ensures
        errors_cache_capacity(r) == capacity as nat,
        errors_cache_contents(r).dom() =~= Set::empty(),
{
    ErrorsCache { inner: quick_cache::sync::Cache::new(capacity) }
}

/// `quick_cache::sync::Cache::get`, for an errors cache.
#[verifier::external_body]
fn errors_cache_get(c: &ErrorsCache, key: &str) -> (r: Option<Vec<SpecInError>>)
    ensures
        match r {
            Some(v) => errors_cache_contents(*c).contains_key(key@) && v@ == errors_cache_contents(*c)[key@],
            None => !errors_cache_contents(*c).contains_key(key@),
        },
{
    c.inner.get(key)
}

/// `quick_cache::sync::Cache::insert` of a clone of `value`, for an errors
/// cache, with what `specs_cache_insert` states.
#[verifier::external_body]
fn errors_cache_insert(c: &mut ErrorsCache, key: String, value: &Vec<SpecInError>)
    requires
        errors_cache_capacity(*old(c)) >= 1,
    ensures
        errors_cache_capacity(*final(c)) == errors_cache_capacity(*old(c)),
        (forall|k: Seq<char>| #[trigger] errors_cache_contents(*old(c)).contains_key(k) ==> k == key@) ==> errors_cache_contents(
            *final(c),
        ).contains_key(key@) && errors_cache_contents(*final(c))[key@] == value@,
        forall|k: Seq<char>| #[trigger] errors_cache_contents(*final(c)).contains_key(k) ==> if k == key@ {
            errors_cache_contents(*final(c))[k] == value@
        } else {
            errors_cache_contents(*old(c)).contains_key(k) && errors_cache_contents(*final(c))[k] == errors_cache_contents(*old(c))[k]
        },
{
    c.inner.insert(key, value.clone())
}

/// `quick_cache::sync::Cache::remove`, for an errors cache.
#[verifier::external_body]
fn errors_cache_remove(c: &mut ErrorsCache, key: &str)
    ensures
        errors_cache_capacity(*final(c)) == errors_cache_capacity(*old(c)),
        errors_cache_contents(*final(c)) == errors_cache_contents(*old(c)).remove(key@),
{
    let _ = c.inner.remove(key);
}

/// The key under which the whole set of specifications is cached.
pub const ALL_KEY: &'static str = "all";

/// What a map holds under a key, if anything.
pub open spec fn held<V>(m: Map<Seq<char>, V>, key: Seq<char>) -> Option<V> {
    if m.contains_key(key) {
        Some(m[key])
    } else {
        None
    }
}

/// The specifications read from all the catalogs, and the files in error.
pub struct CatalogCache {
    pub cache: SpecsCache,
    pub errors: ErrorsCache,
}

impl CatalogCache {
    /// The specifications that the cache holds, if any.
    pub open spec fn specs_held(&self) -> Option<Seq<SpecItem>> {
        held(specs_cache_contents(self.cache), ALL_KEY@)
    }

    /// The files in error that the cache holds, if any.
    pub open spec fn errors_held(&self) -> Option<Seq<SpecInError>> {
        held(errors_cache_contents(self.errors), ALL_KEY@)
    }

    /// Both parts can hold an entry, and hold nothing but under `ALL_KEY`.
    pub open spec fn well_formed(&self) -> bool {
        &&& specs_cache_capacity(self.cache) >= 1
        &&& errors_cache_capacity(self.errors) >= 1
        &&& forall|k: Seq<char>| #[trigger] specs_cache_contents(self.cache).contains_key(k) ==> k == ALL_KEY@
        &&& forall|k: Seq<char>| #[trigger] errors_cache_contents(self.errors).contains_key(k) ==> k == ALL_KEY@
    }

    /// An empty cache, each part made for two entries.
    pub fn new() -> (r: CatalogCache)
        ensures
            r.well_formed(),
            r.specs_held() is None,
            r.errors_held() is None,
    {
        CatalogCache { cache: specs_cache_new(2), errors: errors_cache_new(2) }
    }

    /// Forgets the specifications and the errors, so that the next listing
    /// reads the catalogs again.
    pub fn invalidate_all(&mut self)
        requires
            old(self).well_formed(),
        ensures
            final(self).well_formed(),
            final(self).specs_held() is None,
            final(self).errors_held() is None,
    {
        specs_cache_remove(&mut self.cache, ALL_KEY);
        errors_cache_remove(&mut self.errors, ALL_KEY);
    }

    /// The cached specifications, if any.
    pub fn cached_specs(&self) -> (r: Option<Vec<SpecItem>>)
        ensures
            match r {
                Some(v) => self.specs_held() == Some(v@),
                None => self.specs_held() is None,
            },
    {
        specs_cache_get(&self.cache, ALL_KEY)
    }

    /// The cached files in error, if any.
    pub fn cached_errors(&self) -> (r: Option<Vec<SpecInError>>)
        ensures
            match r {
                Some(v) => self.errors_held() == Some(v@),
                None => self.errors_held() is None,
            },
    {
        errors_cache_get(&self.errors, ALL_KEY)
    }

    /// Stores the specifications and the files in error.
    pub fn store(&mut self, specs: &Vec<SpecItem>, errors: &Vec<SpecInError>)
        requires
            old(self).well_formed(),
        ensures
            final(self).well_formed(),
            final(self).specs_held() == Some(specs@),
            final(self).errors_held() == Some(errors@),
    {
        let key = String::from_str(ALL_KEY);
        specs_cache_insert(&mut self.cache, key, specs);
        let key = String::from_str(ALL_KEY);
        errors_cache_insert(&mut self.errors, key, errors);
    }
}

} // verus!
