//! Backend-set configuration: the tagged backend kinds, their per-kind
//! defaults, and normalization of the submission strategy against the live
//! backend set.
use vstd::prelude::*;
use std::collections::HashMap;
use crate::errors::ConfigError;
use crate::strategy::{
    DAServerSubmitStrategy, clamped, resolve_threshold, spec_resolved_threshold,
};
use crate::text::{lower_of, lowercase};

verus! {

/// Default maximum segment size of a ledger backend, in bytes.
pub const DEFAULT_CELESTIA_MAX_SEGMENT_SIZE: u64 = 1024 * 1024;

/// Connection settings of a ledger (Celestia) backend.
#[derive(Clone, Debug, PartialEq, Eq)]
pub struct DAServerCelestiaConfig {
    pub namespace: Option<String>,
    pub conn: Option<String>,
    pub auth_token: Option<String>,
    pub max_segment_size: Option<u64>,
}

impl Default for DAServerCelestiaConfig {
    /// All connection fields unset; the segment limit at its per-kind default.
    fn default() -> (c: Self)
        ensures
            c == (DAServerCelestiaConfig {
                namespace: None,
                conn: None,
                auth_token: None,
                max_segment_size: Some(DEFAULT_CELESTIA_MAX_SEGMENT_SIZE),
            }),
    {
        DAServerCelestiaConfig {
            namespace: None,
            conn: None,
            auth_token: None,
            max_segment_size: Some(DEFAULT_CELESTIA_MAX_SEGMENT_SIZE),
        }
    }
}

/// The normalized form of a ledger-backend configuration: an unset segment
/// limit resolves to the per-kind default, a configured zero limit is
/// rejected, and everything set is kept.
pub open spec fn celestia_normalized(c: DAServerCelestiaConfig) -> Result<
    DAServerCelestiaConfig,
    ConfigError,
> {
    if c.max_segment_size == Some(0u64) {
        Err(ConfigError::InvalidSegmentLimit)
    } else if c.max_segment_size is Some {
        Ok(c)
    } else {
        Ok(
            DAServerCelestiaConfig {
                max_segment_size: Some(DEFAULT_CELESTIA_MAX_SEGMENT_SIZE),
                ..c
            },
        )
    }
}

/// Law: normalization is idempotent, and a normalized configuration carries
/// a set, positive segment limit.
pub proof fn lemma_celestia_normalize_idempotent(c: DAServerCelestiaConfig)
    ensures
        celestia_normalized(c) matches Ok(d) ==> {
            &&& celestia_normalized(d) == Ok::<DAServerCelestiaConfig, ConfigError>(d)
            &&& (d.max_segment_size matches Some(v) && v > 0)
        },
{
}

impl DAServerCelestiaConfig {
    /// Normalization: an unset segment limit resolves to the per-kind
    /// default, and a configured zero limit is rejected — no payload can be
    /// segmented under it, fatal at configuration time. Once normalized, the
    /// limit is set and positive.
    pub fn new_with_defaults(self) -> (r: Result<Self, ConfigError>)
        ensures
            r == celestia_normalized(self),
            r matches Ok(c) ==> (c.max_segment_size matches Some(v) && v > 0),
    {
        if let Some(v) = self.max_segment_size {
            if v == 0 {
                return Err(ConfigError::InvalidSegmentLimit);
            }
            Ok(self)
        } else {
            let mut c = self;
            c.max_segment_size = Some(DEFAULT_CELESTIA_MAX_SEGMENT_SIZE);
            Ok(c)
        }
    }
}

/// Storage scheme of an object-store backend.
#[derive(Clone, Copy, Debug, PartialEq, Eq)]
pub enum OpenDAScheme {
    GCS,
    S3,
}

/// The scheme a configuration literal denotes, if any: `gcs` or `s3` in any
/// letter case.
pub open spec fn scheme_of_literal(s: Seq<char>) -> Option<OpenDAScheme> {
    if lower_of(s) == "gcs"@ {
        Some(OpenDAScheme::GCS)
    } else if lower_of(s) == "s3"@ {
        Some(OpenDAScheme::S3)
    } else {
        None
    }
}

impl Default for OpenDAScheme {
    fn default() -> (s: Self)
        ensures
            s == OpenDAScheme::GCS,
    {
        OpenDAScheme::GCS
    }
}

impl OpenDAScheme {
    /// Parse a scheme literal case-insensitively; anything but `gcs` and `s3`
    /// is rejected with the literal.
    pub fn parse(s: &str) -> (r: Result<OpenDAScheme, ConfigError>)
        ensures
            match scheme_of_literal(s@) {
                Some(sc) => r == Ok::<OpenDAScheme, ConfigError>(sc),
                None => (r matches Err(ConfigError::InvalidScheme(lit)) && lit@ == s@),
            },
    {
        let low = lowercase(s);
        let gcs_lit = String::from_str("gcs");
        let s3_lit = String::from_str("s3");
        if low == gcs_lit {
            Ok(OpenDAScheme::GCS)
        } else if low == s3_lit {
            Ok(OpenDAScheme::S3)
        } else {
            Err(ConfigError::InvalidScheme(s.to_owned()))
        }
    }

    /// The scheme's literal name.
    pub fn name(&self) -> (r: String)
        ensures
            *self is GCS ==> r@ == "gcs"@,
            *self is S3 ==> r@ == "s3"@,
    {
        match self {
            OpenDAScheme::GCS => String::from_str("gcs"),
            OpenDAScheme::S3 => String::from_str("s3"),
        }
    }
}

/// Settings of an object-store backend: a scheme plus its string-to-string
/// parameter map.
#[derive(Clone, Debug, PartialEq, Eq)]
pub struct DAServerOpenDAConfig {
    pub scheme: OpenDAScheme,
    pub config: HashMap<String, String>,
    pub max_segment_size: Option<u64>,
}

impl Default for DAServerOpenDAConfig {
    fn default() -> (c: Self)
        ensures
            c.scheme == OpenDAScheme::GCS,
            c.config@ == Map::<String, String>::empty(),
            c.max_segment_size is None,
    {
        DAServerOpenDAConfig {
            scheme: OpenDAScheme::GCS,
            config: HashMap::new(),
            max_segment_size: None,
        }
    }
}

/// One configured backend, tagged by kind.
#[derive(Clone, Debug, PartialEq, Eq)]
pub enum InternalDAServerConfigType {
    Celestia(DAServerCelestiaConfig),
    OpenDA(DAServerOpenDAConfig),
}

/// The segment limit a backend declares, if any.
pub open spec fn spec_max_segment_size(b: InternalDAServerConfigType) -> Option<u64> {
    match b {
        InternalDAServerConfigType::Celestia(c) => c.max_segment_size,
        InternalDAServerConfigType::OpenDA(o) => o.max_segment_size,
    }
}

impl InternalDAServerConfigType {
    /// The segment limit this backend declares, if any: segmentation is
    /// independent per backend, each under its own limit.
    pub fn max_segment_size(&self) -> (r: Option<u64>)
        ensures
            r == spec_max_segment_size(*self),
    {
        match self {
            InternalDAServerConfigType::Celestia(c) => c.max_segment_size,
            InternalDAServerConfigType::OpenDA(o) => o.max_segment_size,
        }
    }
}

/// The backend set of the internal DA server, with its submission strategy.
#[derive(Clone, Debug, PartialEq, Eq)]
pub struct InternalDAServerConfig {
    pub submit_strategy: Option<DAServerSubmitStrategy>,
    pub servers: Vec<InternalDAServerConfigType>,
}

impl Default for InternalDAServerConfig {
    fn default() -> (c: Self)
        ensures
            c.submit_strategy is None,
            c.servers@ == Seq::<InternalDAServerConfigType>::empty(),
    {
        InternalDAServerConfig { submit_strategy: None, servers: Vec::new() }
    }
}

/// The strategy after normalization against `n` backends: an unset strategy
/// defaults to `All`, an explicit number is clamped into `[1, n]`.
pub open spec fn adjusted_strategy(
    st: Option<DAServerSubmitStrategy>,
    n: nat,
) -> DAServerSubmitStrategy {
    match st {
        None => DAServerSubmitStrategy::All,
        Some(DAServerSubmitStrategy::Number(k)) => DAServerSubmitStrategy::Number(
            clamped(k as nat, n) as usize,
        ),
        Some(other) => other,
    }
}

/// Law: normalization is idempotent — adjusting an already-adjusted strategy
/// against the same backend count changes nothing.
pub proof fn lemma_adjust_idempotent(st: Option<DAServerSubmitStrategy>, n: nat)
    ensures
        adjusted_strategy(Some(adjusted_strategy(st, n)), n) == adjusted_strategy(st, n),
{
}

impl InternalDAServerConfig {
    /// Normalize the strategy against the live backend set: default an unset
    /// strategy to `All` and clamp an explicit number into `[1, n]`.
    pub fn adjust_submit_strategy(&mut self)
        ensures
            final(self).servers == old(self).servers,
            final(self).submit_strategy == Some(
                adjusted_strategy(old(self).submit_strategy, old(self).servers@.len()),
            ),
    {
        let n = self.servers.len();
        let adjusted: DAServerSubmitStrategy = match self.submit_strategy {
            None => DAServerSubmitStrategy::All,
            Some(DAServerSubmitStrategy::Number(k)) => {
                let c: usize = if k < 1 {
                    1
                } else if k > n {
                    if n < 1 {
                        1
                    } else {
                        n
                    }
                } else {
                    k
                };
                DAServerSubmitStrategy::Number(c)
            },
            Some(st) => st,
        };
        self.submit_strategy = Some(adjusted);
    }

    /// Resolve the commit threshold of one round: normalize the strategy,
    /// then `All` needs every backend, `Quorum` a majority, `Number(k)` the
    /// clamped count.
    pub fn calculate_submit_threshold(&mut self) -> (t: usize)
        ensures
            final(self).servers == old(self).servers,
            final(self).submit_strategy == Some(
                adjusted_strategy(old(self).submit_strategy, old(self).servers@.len()),
            ),
            t == spec_resolved_threshold(
                adjusted_strategy(old(self).submit_strategy, old(self).servers@.len()),
                old(self).servers@.len(),
            ),
            (old(self).submit_strategy is None || old(self).submit_strategy == Some(
                DAServerSubmitStrategy::All,
            )) ==> t == old(self).servers@.len(),
            old(self).submit_strategy == Some(DAServerSubmitStrategy::Quorum) ==> t == old(
                self,
            ).servers@.len() / 2 + 1,
            forall|k: usize|
                old(self).submit_strategy == Some(DAServerSubmitStrategy::Number(k)) ==> t
                    == clamped(k as nat, old(self).servers@.len()),
    {
        self.adjust_submit_strategy();
        let n = self.servers.len();
        match &self.submit_strategy {
            Some(st) => resolve_threshold(st, n),
            None => n,
        }
    }

    /// A submission round needs at least one backend, and every declared
    /// segment limit must be positive; both are fatal at configuration time.
    pub fn validate(&self) -> (r: Result<(), ConfigError>)
        ensures
            r is Ok <==> (self.servers@.len() >= 1 && forall|i: int|
                0 <= i < self.servers@.len() ==> spec_max_segment_size(#[trigger] self.servers@[i])
                    != Some(0u64)),
            self.servers@.len() == 0 ==> r == Err::<(), ConfigError>(ConfigError::NoBackends),
            self.servers@.len() >= 1 && r is Err ==> r == Err::<(), ConfigError>(
                ConfigError::InvalidSegmentLimit,
            ),
    {
        if self.servers.len() == 0 {
            return Err(ConfigError::NoBackends);
        }
        let n = self.servers.len();
        let mut i: usize = 0;
        while i < n
            invariant
                i <= n == self.servers@.len(),
                forall|j: int|
                    0 <= j < i ==> spec_max_segment_size(#[trigger] self.servers@[j]) != Some(
                        0u64,
                    ),
            decreases n - i,
        {
            if let Some(limit) = self.servers[i].max_segment_size() {
                if limit == 0 {
                    return Err(ConfigError::InvalidSegmentLimit);
                }
            }
            i += 1;
        }
        Ok(())
    }
}

/// Top-level data-availability configuration.
#[derive(Clone, Debug, PartialEq, Eq)]
pub struct DAConfig {
    pub internal_da_server: Option<InternalDAServerConfig>,
}

impl Default for DAConfig {
    fn default() -> (c: Self)
        ensures
            c.internal_da_server is None,
    {
        DAConfig { internal_da_server: None }
    }
}

/// The subset of the node's top-level options that this layer reads.
#[derive(Clone, Debug, PartialEq, Eq)]
pub struct RoochOpt {
    pub da: Option<DAConfig>,
}

impl DAConfig {
    /// Merge with the node's options: an explicit DA configuration there
    /// replaces this one wholesale; otherwise this one is kept.
    pub fn merge_with_opt(&mut self, opt: RoochOpt) -> (r: Result<(), ConfigError>)
        ensures
            r is Ok,
            *final(self) == (match opt.da {
                Some(c) => c,
                None => *old(self),
            }),
    {
        match opt.da {
            Some(c) => {
                *self = c;
            },
            None => {},
        }
        Ok(())
    }
}

} // verus!
