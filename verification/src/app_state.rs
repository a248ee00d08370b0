use mini_moka::sync::Cache;
use std::sync::Arc;
use vstd::prelude::*;
use vstd::string::StringExecFns;

verus! {

/// `mini_moka::sync::Cache`: a concurrent cache that evicts by size and by
/// age.
#[verifier::external_type_specification]
#[verifier::external_body]
#[verifier::reject_recursive_types(K)]
#[verifier::reject_recursive_types(V)]
#[verifier::reject_recursive_types(S)]
pub struct ExCache<K, V, S>(Cache<K, V, S>);

/// How many entries a cache holds unless told otherwise.
pub const CACHE_SIZE: u64 = 2;

/// For how many seconds after its insertion an entry stays.
pub const TIME_TO_LIVE_SECONDS: u64 = 3600;

/// For how many seconds after its last use an entry stays.
pub const TIME_TO_IDLE_SECONDS: u64 = 600;

/// The longest time to live or to idle that a cache takes: 1000 years of
/// 365 days, in seconds.
pub const LONGEST_SECONDS: u64 = 31_536_000_000;

/// The key under which a cache holds what belongs to `key` in the version
/// `version`.
pub open spec fn composite_key(key: Seq<char>, version: Seq<char>) -> Seq<char> {
    key + "-"@ + version
}

/// The key under which a cache holds what belongs to `key` in the version
/// `version`.
pub fn cache_key(key: &str, version: &str) -> (composite: String)
    ensures
        composite@ == composite_key(key@, version@),
{
    let mut composite = key.to_owned();
    composite.append("-");
    composite.append(version);
    composite
}

/// `Cache::new`: an empty cache for up to `max_capacity` entries.
#[verifier::external_body]
fn cache_of_capacity<T: Send + Sync + 'static>(max_capacity: u64) -> Cache<String, Arc<T>> {
    Cache::new(max_capacity)
}

/// `Cache::builder` with `max_capacity`, `time_to_live` and `time_to_idle`
/// set: an empty cache with these bounds. mini_moka panics on a time
/// longer than 1000 years.
#[verifier::external_body]
fn cache_with_bounds<T: Send + Sync + 'static>(
    max_capacity: u64,
    time_to_live_seconds: u64,
    time_to_idle_seconds: u64,
) -> Cache<String, Arc<T>>
    requires
        time_to_live_seconds <= LONGEST_SECONDS,
        time_to_idle_seconds <= LONGEST_SECONDS,
{
    Cache::builder().max_capacity(max_capacity).time_to_live(
        std::time::Duration::from_secs(time_to_live_seconds),
    ).time_to_idle(std::time::Duration::from_secs(time_to_idle_seconds)).build()
}

/// `Cache::get`: the value under `key`, if the cache holds one and has not
/// evicted it. Which of the two is for the cache to say.
#[verifier::external_body]
fn cache_get<T: Send + Sync + 'static>(cache: &Cache<String, Arc<T>>, key: &String) -> Option<Arc<T>> {
    cache.get(key)
}

/// `Cache::insert`: puts `value` under `key`, in the place of what was
/// there.
#[verifier::external_body]
fn cache_insert<T: Send + Sync + 'static>(cache: &Cache<String, Arc<T>>, key: String, value: Arc<T>) {
    cache.insert(key, value)
}

/// `Cache::clone`: another handle on the same cache.
#[verifier::external_body]
fn cache_handle<T: Send + Sync + 'static>(cache: &Cache<String, Arc<T>>) -> Cache<String, Arc<T>> {
    cache.clone()
}

/// A cache of shared values under a key and a version. Entries leave by
/// themselves: when the cache is full and, where the cache was made with
/// times, so long after their insertion or after their last use. The
/// cache remembers the bounds that it was made with.
#[verifier::reject_recursive_types(T)]
pub struct QuickCache<T> where T: Send + Sync + 'static {
    data: Cache<String, Arc<T>>,
    capacity: u64,
    time_to_live_seconds: Option<u64>,
    time_to_idle_seconds: Option<u64>,
}

impl<T> Clone for QuickCache<T> where T: Send + Sync + 'static {
    /// Another handle on the same cache.
    fn clone(&self) -> (handle: Self)
        ensures
            handle.max_entries() == self.max_entries(),
            handle.time_to_live() == self.time_to_live(),
            handle.time_to_idle() == self.time_to_idle(),
    {
        Self {
            data: cache_handle(&self.data),
            capacity: self.capacity,
            time_to_live_seconds: self.time_to_live_seconds,
            time_to_idle_seconds: self.time_to_idle_seconds,
        }
    }
}

impl<T> QuickCache<T> where T: Send + Sync + 'static {
    /// For how many entries the cache was made.
    pub closed spec fn max_entries(&self) -> u64 {
        self.capacity
    }

    /// For how many seconds after its insertion an entry stays at most;
    /// `None` where the cache was made without such a time.
    pub closed spec fn time_to_live(&self) -> Option<u64> {
        self.time_to_live_seconds
    }

    /// For how many seconds after its last use an entry stays at most;
    /// `None` where the cache was made without such a time.
    pub closed spec fn time_to_idle(&self) -> Option<u64> {
        self.time_to_idle_seconds
    }

    /// An empty cache for up to `capacity` entries, which stay until room
    /// is needed.
    pub fn new(capacity: u64) -> (cache: Self)
        ensures
            cache.max_entries() == capacity,
            cache.time_to_live() is None,
            cache.time_to_idle() is None,
    {
        Self {
            data: cache_of_capacity(capacity),
            capacity,
            time_to_live_seconds: None,
            time_to_idle_seconds: None,
        }
    }

    /// An empty cache for up to `capacity` entries, each of which stays an
    /// hour at most, and ten minutes after its last use.
    pub fn with_expiry(capacity: u64) -> (cache: Self)
        ensures
            cache.max_entries() == capacity,
            cache.time_to_live() == Some(TIME_TO_LIVE_SECONDS),
            cache.time_to_idle() == Some(TIME_TO_IDLE_SECONDS),
    {
        Self {
            data: cache_with_bounds(capacity, TIME_TO_LIVE_SECONDS, TIME_TO_IDLE_SECONDS),
            capacity,
            time_to_live_seconds: Some(TIME_TO_LIVE_SECONDS),
            time_to_idle_seconds: Some(TIME_TO_IDLE_SECONDS),
        }
    }

    /// For how many entries the cache was made.
    pub fn capacity(&self) -> (capacity: u64)
        ensures
            capacity == self.max_entries(),
    {
        self.capacity
    }

    /// For how many seconds after its insertion an entry stays at most.
    pub fn time_to_live_seconds(&self) -> (seconds: Option<u64>)
        ensures
            seconds == self.time_to_live(),
    {
        self.time_to_live_seconds
    }

    /// For how many seconds after its last use an entry stays at most.
    pub fn time_to_idle_seconds(&self) -> (seconds: Option<u64>)
        ensures
            seconds == self.time_to_idle(),
    {
        self.time_to_idle_seconds
    }

    /// The value that the cache holds for `key` in the version `version`:
    /// it is looked up under `cache_key(key, version)`, and what comes back
    /// is for the cache to say.
    pub fn get_ref(&self, key: &str, version: &str) -> Option<Arc<T>> where T: Clone + Send + Sync + 'static {
        let key = cache_key(key, version);
        cache_get(&self.data, &key)
    }

    /// Puts a shared copy of `value` under `cache_key(key, version)`, in
    /// the place of what was there.
    pub fn insert(&self, key: &str, version: &str, value: &T) where T: Clone + Send + Sync + 'static {
        let key = cache_key(key, version);
        cache_insert(&self.data, key, Arc::new(value.clone()));
    }
}

} // verus!
