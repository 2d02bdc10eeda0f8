use crate::registry::TextMap;
use vstd::prelude::*;
use vstd::string::StringExecFns;

verus! {

/// Which service stands behind an asset domain.
#[derive(Debug, Clone, Copy, PartialEq, Eq, Structural)]
pub enum DomainProvider {
    Pexels,
    Unsplash,
    Cloudinary,
    S3,
    Custom,
    Local,
}

/// A named change that a domain applies to its assets.
pub struct Transformation {
    pub name: String,
    pub parameters: TextMap<String>,
}

#[derive(Debug, Clone, Copy, PartialEq, Eq, Structural)]
pub struct RateLimit {
    pub requests_per_second: u32,
    pub burst_size: u32,
}

#[derive(Debug, Clone, Copy, PartialEq, Eq, Structural)]
pub struct RetryStrategy {
    pub max_retries: u32,
    pub backoff_ms: u64,
    pub exponential_backoff: bool,
}

impl Default for RetryStrategy {
    /// Three retries, a second apart, growing.
    fn default() -> (r: Self)
        ensures
            r == (RetryStrategy { max_retries: 3, backoff_ms: 1000, exponential_backoff: true }),
    {
        Self { max_retries: 3, backoff_ms: 1000, exponential_backoff: true }
    }
}

/// The settings that hold for every domain.
pub struct GlobalSettings {
    pub cache_dir: String,
    pub max_cache_size_mb: u64,
    pub cache_ttl_seconds: u64,
    pub enable_compression: bool,
    pub worker_threads: usize,
    pub server_port: u16,
    pub enable_https: bool,
    pub log_level: String,
}

impl Default for GlobalSettings {
    fn default() -> (r: Self)
        ensures
            r.cache_dir@ == ".bunja_cache"@,
            r.max_cache_size_mb == 1024,
            r.cache_ttl_seconds == 86400,
            !r.enable_compression,
            r.worker_threads == 4,
            r.server_port == 8080,
            !r.enable_https,
            r.log_level@ == "info"@,
    {
        Self {
            cache_dir: ".bunja_cache".to_owned(),
            max_cache_size_mb: 1024,
            cache_ttl_seconds: 86400,
            enable_compression: false,
            worker_threads: 4,
            server_port: 8080,
            enable_https: false,
            log_level: "info".to_owned(),
        }
    }
}

/// One source of assets.
pub struct AssetDomain {
    pub provider: DomainProvider,
    pub base_url: String,
    pub api_key: Option<String>,
    pub headers: TextMap<String>,
    pub transformations: Vec<Transformation>,
    pub fallback_domains: Vec<String>,
    pub rate_limit: Option<RateLimit>,
    pub retry_strategy: RetryStrategy,
}

impl AssetDomain {
    /// A domain of `provider` at `base_url` with nothing else set but the
    /// default way of retrying.
    pub fn plain(provider: DomainProvider, base_url: String, rate_limit: Option<RateLimit>) -> (r:
        Self)
        ensures
            r.provider == provider,
            r.base_url == base_url,
            r.api_key.is_none(),
            r.headers.spec_len() == 0,
            r.transformations@.len() == 0,
            r.fallback_domains@.len() == 0,
            r.rate_limit == rate_limit,
            r.retry_strategy == (RetryStrategy {
                max_retries: 3,
                backoff_ms: 1000,
                exponential_backoff: true,
            }),
    {
        Self {
            provider,
            base_url,
            api_key: None,
            headers: TextMap::new(),
            transformations: Vec::new(),
            fallback_domains: Vec::new(),
            rate_limit,
            retry_strategy: RetryStrategy::default(),
        }
    }
}

/// Why a lock file is not fit for use.
pub enum LockError {
    NoDomains,
    EmptyBaseUrl { name: String },
}

impl LockError {
    /// The message shown for this error.
    pub fn message(&self) -> (r: String)
        ensures
            r@ == (match *self {
                LockError::NoDomains => "No asset domains configured"@,
                LockError::EmptyBaseUrl { name } => "Domain '"@ + name@ + "' has empty base_url"@,
            }),
    {
        match self {
            LockError::NoDomains => String::from_str("No asset domains configured"),
            LockError::EmptyBaseUrl { name } => {
                let mut text = String::from_str("Domain '");
                text.append(name.as_str());
                text.append("' has empty base_url");
                text
            },
        }
    }
}

/// The lock file: the asset domains by name, and the global settings.
pub struct BunjaLock {
    pub version: String,
    pub domains: TextMap<AssetDomain>,
    pub global_settings: GlobalSettings,
}

impl BunjaLock {
    /// The first domain, in the order of the lock file, whose base URL is
    /// empty; the number of domains where there is none.
    pub open spec fn spec_first_empty(&self, from: int) -> int
        decreases self.domains.spec_len() - from,
    {
        if from < 0 || from >= self.domains.spec_len() {
            self.domains.spec_len() as int
        } else if self.domains.spec_entries()[from].value.base_url@.len() == 0 {
            from
        } else {
            self.spec_first_empty(from + 1)
        }
    }

    /// The domain under `name`, where the lock file has one.
    pub fn get_domain(&self, name: &str) -> (r: Option<&AssetDomain>)
        requires
            self.domains.wf(),
        ensures
            match r {
                Some(domain) => self.domains.spec_get(name@) == Some(*domain),
                None => self.domains.spec_get(name@).is_none(),
            },
    {
        self.domains.get(name)
    }

    /// Puts `domain` under `name`, in place of the domain that was there if
    /// there was one.
    pub fn add_domain(&mut self, name: String, domain: AssetDomain)
        requires
            old(self).domains.wf(),
        ensures
            final(self).domains.wf(),
            final(self).version == old(self).version,
            final(self).global_settings == old(self).global_settings,
            forall|k: Seq<char>|
                #[trigger] final(self).domains.spec_get(k) == if k == name@ {
                    Some(domain)
                } else {
                    old(self).domains.spec_get(k)
                },
            final(self).domains.spec_len() == if old(self).domains.spec_has(name@) {
                old(self).domains.spec_len()
            } else {
                old(self).domains.spec_len() + 1
            },
    {
        self.domains.insert(name, domain);
    }

    /// Takes the domain under `name` out and hands it over.
    pub fn remove_domain(&mut self, name: &str) -> (r: Option<AssetDomain>)
        requires
            old(self).domains.wf(),
        ensures
            final(self).domains.wf(),
            final(self).version == old(self).version,
            final(self).global_settings == old(self).global_settings,
            r == old(self).domains.spec_get(name@),
            forall|k: Seq<char>|
                #[trigger] final(self).domains.spec_get(k) == if k == name@ {
                    None
                } else {
                    old(self).domains.spec_get(k)
                },
            final(self).domains.spec_len() == if old(self).domains.spec_has(name@) {
                old(self).domains.spec_len() - 1
            } else {
                old(self).domains.spec_len() as int
            },
    {
        self.domains.remove(name)
    }

    /// Whether the lock file is fit for use: it names at least one domain,
    /// and every domain has a base URL. The error names the first domain
    /// that has none.
    pub fn validate(&self) -> (r: Result<(), LockError>)
        ensures
            match r {
                Ok(_) => self.domains.spec_len() > 0 && self.spec_first_empty(0)
                    == self.domains.spec_len(),
                Err(LockError::NoDomains) => self.domains.spec_len() == 0,
                Err(LockError::EmptyBaseUrl { name }) => self.domains.spec_len() > 0
                    && self.spec_first_empty(0) < self.domains.spec_len() && name@
                    == self.domains.spec_entries()[self.spec_first_empty(0)].key@,
            },
    {
        if self.domains.is_empty() {
            return Err(LockError::NoDomains);
        }
        let mut i: usize = 0;
        while i < self.domains.len()
            invariant
                i <= self.domains.spec_len(),
                self.domains.spec_len() > 0,
                self.spec_first_empty(0) == self.spec_first_empty(i as int),
            decreases self.domains.spec_len() - i,
        {
            if self.domains.value_at(i).base_url.as_str().is_empty() {
                return Err(LockError::EmptyBaseUrl { name: self.domains.key_at(i).clone() });
            }
            i = i + 1;
        }
        Ok(())
    }
}

impl Default for BunjaLock {
    /// The lock file that stands in where none can be read: version 1.0.0,
    /// the domains `pexels` and `unsplash`, and the default settings.
    fn default() -> (r: Self)
        ensures
            r.domains.wf(),
            r.version@ == "1.0.0"@,
            r.global_settings.cache_dir@ == ".bunja_cache"@,
            r.global_settings.max_cache_size_mb == 1024,
            r.global_settings.cache_ttl_seconds == 86400,
            !r.global_settings.enable_compression,
            r.global_settings.worker_threads == 4,
            r.global_settings.server_port == 8080,
            !r.global_settings.enable_https,
            r.global_settings.log_level@ == "info"@,
            r.domains.spec_len() == 2,
            r.domains.spec_get("pexels"@) matches Some(domain) && domain.provider
                == DomainProvider::Pexels && domain.base_url@ == "https://api.pexels.com/v1"@
                && domain.rate_limit == Some(RateLimit { requests_per_second: 20, burst_size: 50 }),
            r.domains.spec_get("unsplash"@) matches Some(domain) && domain.provider
                == DomainProvider::Unsplash && domain.base_url@ == "https://api.unsplash.com"@
                && domain.rate_limit == Some(
                RateLimit { requests_per_second: 50, burst_size: 100 },
            ),
    {
        proof {
            reveal_strlit("pexels");
            reveal_strlit("unsplash");
            assert("pexels"@.len() == 6);
            assert("unsplash"@.len() == 8);
        }
        let mut domains: TextMap<AssetDomain> = TextMap::new();
        domains.insert(
            "pexels".to_owned(),
            AssetDomain::plain(
                DomainProvider::Pexels,
                "https://api.pexels.com/v1".to_owned(),
                Some(RateLimit { requests_per_second: 20, burst_size: 50 }),
            ),
        );
        assert(!domains.spec_has("unsplash"@)) by {
            assert(domains.spec_get("unsplash"@).is_none());
        }
        domains.insert(
            "unsplash".to_owned(),
            AssetDomain::plain(
                DomainProvider::Unsplash,
                "https://api.unsplash.com".to_owned(),
                Some(RateLimit { requests_per_second: 50, burst_size: 100 }),
            ),
        );
        assert("pexels"@ != "unsplash"@) by {
            assert("pexels"@.len() == 6);
            assert("unsplash"@.len() == 8);
        }
        Self { version: "1.0.0".to_owned(), domains, global_settings: GlobalSettings::default() }
    }
}

/// The settings that a run works with: the lock file, where it was read
/// from, and the directory of the cache.
pub struct Settings {
    pub lock: BunjaLock,
    pub lock_file_path: String,
    pub runtime_cache_dir: String,
}

impl Settings {
    /// The settings for a lock file that was read from `lock_file_path`;
    /// the error of `validate` where the lock file is not fit for use.
    pub fn new(lock_file_path: String, lock: BunjaLock) -> (r: Result<Self, LockError>)
        ensures
            match r {
                Ok(settings) => settings.lock == lock && settings.lock_file_path == lock_file_path
                    && settings.runtime_cache_dir == lock.global_settings.cache_dir
                    && lock.domains.spec_len() > 0 && lock.spec_first_empty(0)
                    == lock.domains.spec_len(),
                Err(LockError::NoDomains) => lock.domains.spec_len() == 0,
                Err(LockError::EmptyBaseUrl { .. }) => lock.spec_first_empty(0)
                    < lock.domains.spec_len(),
            },
    {
        match lock.validate() {
            Ok(()) => {},
            Err(e) => { return Err(e); },
        }
        let runtime_cache_dir = lock.global_settings.cache_dir.clone();
        Ok(Self { lock, lock_file_path, runtime_cache_dir })
    }

    /// Where the lock file is looked for when no place is given.
    pub fn default_path() -> (r: String)
        ensures
            r@ == "bunja.lock"@,
    {
        "bunja.lock".to_owned()
    }

    /// Takes over a lock file that was read anew, where it is fit for use:
    /// it names at least one domain, and every domain has a base URL. Where
    /// it is not, the error of `validate` comes back and the settings stay
    /// as they were.
    pub fn reload(&mut self, lock: BunjaLock) -> (r: Result<(), LockError>)
        ensures
            final(self).lock_file_path == old(self).lock_file_path,
            match r {
                Ok(_) => {
                    &&& lock.domains.spec_len() > 0
                    &&& lock.spec_first_empty(0) == lock.domains.spec_len()
                    &&& final(self).lock == lock
                    &&& final(self).runtime_cache_dir == lock.global_settings.cache_dir
                },
                Err(LockError::NoDomains) => {
                    &&& lock.domains.spec_len() == 0
                    &&& *final(self) == *old(self)
                },
                Err(LockError::EmptyBaseUrl { name }) => {
                    &&& lock.domains.spec_len() > 0
                    &&& lock.spec_first_empty(0) < lock.domains.spec_len()
                    &&& name@ == lock.domains.spec_entries()[lock.spec_first_empty(0)].key@
                    &&& *final(self) == *old(self)
                },
            },
    {
        match lock.validate() {
            Ok(()) => {},
            Err(e) => { return Err(e); },
        }
        self.runtime_cache_dir = lock.global_settings.cache_dir.clone();
        self.lock = lock;
        Ok(())
    }
}

} // verus!
