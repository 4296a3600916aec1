//! What the proxy is configured with.

use crate::aggregator::FlushPolicy;
use crate::dispatcher::RetryPolicy;
use vstd::prelude::*;
use vstd::string::StringExecFns;

verus! {

/// What the options hold.
pub struct OptView {
    pub token: Seq<char>,
    pub bind: Seq<char>,
    pub influx_endpoint: Seq<char>,
    pub flush_interval_secs: u64,
    pub flush: FlushPolicy,
    pub retry_backoff_secs: u64,
    pub retry: RetryPolicy,
}

/// The proxy's options: the downstream token and address, the address to
/// listen on, and the policies of the two stages.
#[derive(Debug, Clone)]
pub struct Opt {
    token: String,
    bind: String,
    influx_endpoint: String,
    flush_interval_secs: u64,
    flush: FlushPolicy,
    retry_backoff_secs: u64,
    retry: RetryPolicy,
}

impl View for Opt {
    type V = OptView;

    closed spec fn view(&self) -> OptView {
        OptView {
            token: self.token@,
            bind: self.bind@,
            influx_endpoint: self.influx_endpoint@,
            flush_interval_secs: self.flush_interval_secs,
            flush: self.flush,
            retry_backoff_secs: self.retry_backoff_secs,
            retry: self.retry,
        }
    }
}

/// Seconds between two timer flushes, unless configured.
pub const DEFAULT_FLUSH_INTERVAL_SECS: u64 = 1;

/// Gathered records that call for a flush, unless configured.
pub const DEFAULT_FLUSH_THRESHOLD: usize = 300;

/// Seconds to wait before a batch is sent again, unless configured.
pub const DEFAULT_RETRY_BACKOFF_SECS: u64 = 1;

/// Refusals in a row after which a batch is dropped, unless configured.
pub const DEFAULT_MAX_CLIENT_ERRORS: usize = 5;

impl Opt {
    /// Options with the given token and addresses, and the default
    /// policies: a flush every second or at 300 gathered records, a retry
    /// after one second, and a batch dropped at its fifth refusal in a row.
    pub fn new(token: String, bind: String, influx_endpoint: String) -> (out: Opt)
        ensures
            out@ == (OptView {
                token: token@,
                bind: bind@,
                influx_endpoint: influx_endpoint@,
                flush_interval_secs: DEFAULT_FLUSH_INTERVAL_SECS,
                flush: FlushPolicy::TimeOrCount { threshold: DEFAULT_FLUSH_THRESHOLD },
                retry_backoff_secs: DEFAULT_RETRY_BACKOFF_SECS,
                retry: RetryPolicy::Strict { max_client_errors: DEFAULT_MAX_CLIENT_ERRORS },
            }),
    {
        Opt {
            token,
            bind,
            influx_endpoint,
            flush_interval_secs: DEFAULT_FLUSH_INTERVAL_SECS,
            flush: FlushPolicy::TimeOrCount { threshold: DEFAULT_FLUSH_THRESHOLD },
            retry_backoff_secs: DEFAULT_RETRY_BACKOFF_SECS,
            retry: RetryPolicy::Strict { max_client_errors: DEFAULT_MAX_CLIENT_ERRORS },
        }
    }

    /// The same options with another flush interval and policy.
    pub fn with_flush(self, interval_secs: u64, policy: FlushPolicy) -> (out: Opt)
        ensures
            out@ == (OptView { flush_interval_secs: interval_secs, flush: policy, ..self@ }),
    {
        Opt { flush_interval_secs: interval_secs, flush: policy, ..self }
    }

    /// The same options with another retry backoff and policy.
    pub fn with_retry(self, backoff_secs: u64, policy: RetryPolicy) -> (out: Opt)
        ensures
            out@ == (OptView { retry_backoff_secs: backoff_secs, retry: policy, ..self@ }),
    {
        Opt { retry_backoff_secs: backoff_secs, retry: policy, ..self }
    }

    pub fn token(&self) -> (out: &String)
        ensures
            out@ == self@.token,
    {
        &self.token
    }

    pub fn bind(&self) -> (out: &String)
        ensures
            out@ == self@.bind,
    {
        &self.bind
    }

    pub fn influx_endpoint(&self) -> (out: &String)
        ensures
            out@ == self@.influx_endpoint,
    {
        &self.influx_endpoint
    }

    pub fn flush_interval_secs(&self) -> (out: u64)
        ensures
            out == self@.flush_interval_secs,
    {
        self.flush_interval_secs
    }

    pub fn flush_policy(&self) -> (out: FlushPolicy)
        ensures
            out == self@.flush,
    {
        self.flush
    }

    pub fn retry_backoff_secs(&self) -> (out: u64)
        ensures
            out == self@.retry_backoff_secs,
    {
        self.retry_backoff_secs
    }

    pub fn retry_policy(&self) -> (out: RetryPolicy)
        ensures
            out == self@.retry,
    {
        self.retry
    }
}

} // verus!
