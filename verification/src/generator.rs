use crate::model::{Transfer, TransferModel};
use rand::Rng;
use vstd::prelude::*;
use vstd::string::StringExecFns;

verus! {

/// Rejection of an invalid generator configuration.
#[derive(Debug, PartialEq, Eq)]
pub enum ConfigurationError {
    /// The amount range has min >= max.
    InvalidAmountRange,
    /// The price range has min >= max.
    InvalidPriceRange,
}

/// Bounds for synthesized transfers: amounts drawn from
/// [min_amount, max_amount), prices from [min_price, max_price), and
/// timestamps at most `max_age_secs` before the current time. Amounts and
/// prices are fixed-point, as in `Transfer`; the defaults read in tenths.
#[derive(Debug, Clone, Copy)]
pub struct TransferGenConfig {
    pub min_amount: u32,
    pub max_amount: u32,
    pub min_price: u32,
    pub max_price: u32,
    pub max_age_secs: u64,
}

impl Default for TransferGenConfig {
    /// Amounts from one to a thousand units, prices from a tenth of a unit
    /// to two units — both in tenths — and ages up to thirty days.
    fn default() -> (r: Self)
        ensures
            r.min_amount == 10 && r.max_amount == 10000,
            r.min_price == 1 && r.max_price == 20,
            r.max_age_secs == 86400 * 30,
    {
        Self { min_amount: 10, max_amount: 10000, min_price: 1, max_price: 20, max_age_secs: 86400
            * 30 }
    }
}

/// A source of synthesized transfer sets.
pub trait TransferGenerator {
    /// Produces `count` transfers, or rejects its configuration.
    fn generate(&self, count: usize) -> (r: Result<Vec<Transfer>, ConfigurationError>)
        ensures
            r matches Ok(v) ==> v@.len() == count,
    ;
}

/// Relies on rand's `Rng::gen_range` over `lo..hi`: a value drawn uniformly
/// from [lo, hi). The call panics on an empty range; `lo < hi` rules that
/// out.
#[verifier::external_body]
fn rand_u32_in(lo: u32, hi: u32) -> (r: u32)
    requires
        lo < hi,
    ensures
        lo <= r < hi,
{
    rand::thread_rng().gen_range(lo..hi)
}

/// Relies on rand's `Rng::gen_range` over `lo..hi` for `u64`, as above.
#[verifier::external_body]
fn rand_u64_in(lo: u64, hi: u64) -> (r: u64)
    requires
        lo < hi,
    ensures
        lo <= r < hi,
{
    rand::thread_rng().gen_range(lo..hi)
}

/// Whether `c` is an ASCII alphanumeric character.
pub open spec fn spec_alphanumeric(c: char) -> bool {
    ('0' <= c && c <= '9') || ('a' <= c && c <= 'z') || ('A' <= c && c <= 'Z')
}

/// Relies on rand's `Alphanumeric` distribution: every sampled byte is one
/// of the 62 ASCII alphanumeric characters, one character each.
#[verifier::external_body]
fn rand_alphanumeric(len: usize) -> (r: String)
    ensures
        r@.len() == len,
        forall|i: int| 0 <= i < r@.len() ==> spec_alphanumeric(#[trigger] r@[i]),
{
    rand::thread_rng().sample_iter(&rand::distributions::Alphanumeric).take(len).map(
        char::from,
    ).collect()
}

/// A fresh random address: `0x` followed by ten alphanumeric characters.
fn rand_address() -> (r: String)
    ensures
        r@.len() == 12,
        r@[0] == '0' && r@[1] == 'x',
        forall|i: int| 2 <= i < r@.len() ==> spec_alphanumeric(#[trigger] r@[i]),
{
    let suffix = rand_alphanumeric(10);
    proof {
        reveal_strlit("0x");
    }
    let r = String::from_str("0x").concat(suffix.as_str());
    proof {
        assert forall|i: int| 2 <= i < r@.len() implies spec_alphanumeric(#[trigger] r@[i]) by {
            assert(r@[i] == suffix@[i - 2]);
        }
    }
    r
}

/// Relies on std's `SystemTime`: seconds since the Unix epoch, or zero when
/// the clock stands before it.
#[verifier::external_body]
fn now_unix_secs() -> (r: u64) {
    match std::time::SystemTime::now().duration_since(std::time::UNIX_EPOCH) {
        Ok(d) => d.as_secs(),
        Err(_) => 0,
    }
}

/// What `generate` promises of each synthesized transfer: fields within the
/// configured ranges and both addresses twelve characters — ten
/// alphanumerics behind the `0x` prefix.
pub open spec fn valid_generated(t: TransferModel, c: TransferGenConfig) -> bool {
    &&& c.min_amount <= t.amount < c.max_amount
    &&& c.min_price <= t.usd_price < c.max_price
    &&& t.from.len() == 12 && t.from[0] == '0' && t.from[1] == 'x'
    &&& t.to.len() == 12 && t.to[0] == '0' && t.to[1] == 'x'
    &&& forall|i: int| 2 <= i < t.from.len() ==> spec_alphanumeric(#[trigger] t.from[i])
    &&& forall|i: int| 2 <= i < t.to.len() ==> spec_alphanumeric(#[trigger] t.to[i])
}

/// Whether `t` was stamped inside the age window of length `max_age` ending
/// at time `n`: at `n` itself when the window is empty, else strictly less
/// than `max_age` seconds before `n`.
pub open spec fn ts_in_window(t: TransferModel, n: u64, max_age: u64) -> bool {
    &&& t.ts <= n
    &&& max_age == 0 ==> t.ts == n
    &&& max_age > 0 ==> n - t.ts < max_age
}

/// Whether every transfer of `v` was stamped inside the age window of
/// length `max_age` ending at time `n`.
pub open spec fn all_in_window(v: Seq<Transfer>, n: u64, max_age: u64) -> bool {
    forall|j: int| 0 <= j < v.len() ==> ts_in_window((#[trigger] v[j])@, n, max_age)
}

/// Whether the transfers of `v` were all stamped inside one age window of
/// length `max_age`, wherever it ends.
pub open spec fn windowed(v: Seq<Transfer>, max_age: u64) -> bool {
    exists|n: u64| all_in_window(v, n, max_age)
}

/// Generator drawing every field uniformly from the configured ranges.
pub struct DefaultTransferGenerator {
    pub config: TransferGenConfig,
}

impl Default for DefaultTransferGenerator {
    /// A generator with the default configuration.
    fn default() -> (r: Self)
        ensures
            r.config.min_amount == 10 && r.config.max_amount == 10000,
            r.config.min_price == 1 && r.config.max_price == 20,
            r.config.max_age_secs == 86400 * 30,
    {
        Self { config: TransferGenConfig::default() }
    }
}

impl DefaultTransferGenerator {
    /// Synthesizes `count` transfers within the configured ranges, or
    /// rejects the configuration: a range with min >= max is refused, never
    /// clamped, the amount range checked first. Timestamps lie within the
    /// configured age before the current time, clamped at the epoch; a zero
    /// age window puts every transfer at the current time.
    pub fn generate(&self, count: usize) -> (r: Result<Vec<Transfer>, ConfigurationError>)
        ensures
            r is Err <==> (self.config.min_amount >= self.config.max_amount
                || self.config.min_price >= self.config.max_price),
            r matches Err(e) ==> (e is InvalidAmountRange <==> self.config.min_amount
                >= self.config.max_amount),
            r matches Ok(v) ==> v@.len() == count && (forall|j: int|
                0 <= j < v@.len() ==> valid_generated((#[trigger] v@[j])@, self.config)),
            r matches Ok(v) ==> windowed(v@, self.config.max_age_secs),
    {
        if self.config.min_amount >= self.config.max_amount {
            return Err(ConfigurationError::InvalidAmountRange);
        }
        if self.config.min_price >= self.config.max_price {
            return Err(ConfigurationError::InvalidPriceRange);
        }
        let now = now_unix_secs();
        let mut out: Vec<Transfer> = Vec::new();
        for k in 0..count
            invariant
                out@.len() == k,
                forall|j: int|
                    0 <= j < out@.len() ==> valid_generated((#[trigger] out@[j])@, self.config),
                all_in_window(out@, now, self.config.max_age_secs),
                self.config.min_amount < self.config.max_amount,
                self.config.min_price < self.config.max_price,
        {
            let from = rand_address();
            let to = rand_address();
            let amount = rand_u32_in(self.config.min_amount, self.config.max_amount);
            let usd_price = rand_u32_in(self.config.min_price, self.config.max_price);
            let age = if self.config.max_age_secs == 0 {
                0
            } else {
                rand_u64_in(0, self.config.max_age_secs)
            };
            let ts = if age > now {
                0
            } else {
                now - age
            };
            let ghost before = out@;
            out.push(Transfer { ts, from, to, amount, usd_price });
            proof {
                assert forall|j: int| 0 <= j < out@.len() implies ts_in_window(
                    (#[trigger] out@[j])@,
                    now,
                    self.config.max_age_secs,
                ) by {
                    if j < before.len() {
                        assert(out@[j] == before[j]);
                        assert(ts_in_window(before[j]@, now, self.config.max_age_secs));
                    }
                }
            }
        }
        proof {
            assert(windowed(out@, self.config.max_age_secs)) by {
                assert(all_in_window(out@, now, self.config.max_age_secs));
            }
        }
        Ok(out)
    }
}

impl TransferGenerator for DefaultTransferGenerator {
    fn generate(&self, count: usize) -> (r: Result<Vec<Transfer>, ConfigurationError>)
        ensures
            r is Err <==> (self.config.min_amount >= self.config.max_amount
                || self.config.min_price >= self.config.max_price),
            r matches Err(e) ==> (e is InvalidAmountRange <==> self.config.min_amount
                >= self.config.max_amount),
            r matches Ok(v) ==> (forall|j: int|
                0 <= j < v@.len() ==> valid_generated((#[trigger] v@[j])@, self.config)),
            r matches Ok(v) ==> windowed(v@, self.config.max_age_secs),
    {
        DefaultTransferGenerator::generate(self, count)
    }
}

} // verus!
