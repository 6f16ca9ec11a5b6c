//! The settings that a connection and its statements share.
//!
//! A statement starts from a copy of its connection's settings and may then override each of them.
//! One table routes option keys to settings, for both.

use vstd::prelude::*;

use crate::directed_read::{directed_read_after, DirectedRead, DirectedReadView, ReplicaChoice};
use crate::error::{invalid_argument, not_found, Error, Status};
use crate::keys::{
    OPTION_COMMIT_STATS, OPTION_COMMIT_STATS_MUTATION_COUNT, OPTION_DIRECTED_READ,
    OPTION_MAX_COMMIT_DELAY, OPTION_MAX_TIMESTAMP_PRECISION,
    OPTION_QUERY_OPTIMIZER_STATISTICS_PACKAGE, OPTION_QUERY_OPTIMIZER_VERSION,
    OPTION_READ_STALENESS, OPTION_REQUEST_PRIORITY, OPTION_REQUEST_TAG,
    OPTION_RETRY_BACKOFF_INITIAL_SECONDS, OPTION_RETRY_BACKOFF_MAX_SECONDS,
    OPTION_RETRY_BACKOFF_MULTIPLIER, OPTION_RETRY_MAX_ATTEMPTS, OPTION_RETRY_MAX_ELAPSED_SECONDS,
    OPTION_RPC_TIMEOUT_FETCH, OPTION_RPC_TIMEOUT_QUERY, OPTION_RPC_TIMEOUT_UPDATE,
};
use crate::options::{
    coerces, plain_text, string_option, unless_empty, Double, OptionValue,
};
use crate::query_options::{
    with_optimizer_statistics_package, with_optimizer_version, QueryOptionsConfig,
    QueryOptionsView,
};
use crate::request::{
    spelling, with_commit_stats, with_max_commit_delay, with_priority, with_request_tag,
    RequestConfig, RequestPriority, RequestView,
};
use crate::retry::{
    knobs_of, limits_of, no_retry_settings, with_backoff_initial_seconds, with_backoff_max_seconds,
    with_backoff_multiplier, with_max_attempts, with_max_elapsed_seconds, BackoffKnobs,
    RetryConfig, RetryLimits,
};
use crate::staleness::{staleness_after, ReadStaleness, StalenessView, TimeSpan};
use crate::text::{
    debug_quoted, debug_text, decimal, eq_str, push_signed, signed_decimal, trimmed,
};
use crate::timeouts::{with_fetch, with_query, with_update, RpcTimeouts};

verus! {

// ---------------------------------------------------------------------------------------------
// Timestamp precision
// ---------------------------------------------------------------------------------------------

/// How timestamps are read into Arrow.
#[derive(Debug, Clone, Copy, PartialEq, Eq, Structural)]
pub enum TimestampPrecision {
    /// Nanoseconds; an instant that they cannot hold is an error. The default.
    NanosecondsErrorOnOverflow,
    /// Microseconds, which hold every instant Spanner has.
    Microseconds,
}

pub open spec fn precision_text(p: TimestampPrecision) -> Seq<char> {
    match p {
        TimestampPrecision::NanosecondsErrorOnOverflow => "nanoseconds_error_on_overflow"@,
        TimestampPrecision::Microseconds => "microseconds"@,
    }
}

pub open spec fn bad_precision_message(value: Seq<char>) -> Seq<char> {
    "option "@ + OPTION_MAX_TIMESTAMP_PRECISION@
        + " expects \"nanoseconds_error_on_overflow\" or \"microseconds\", got "@ + debug_text(value)
}

pub open spec fn precision_of(value: OptionValue) -> Result<TimestampPrecision, Seq<char>> {
    match plain_text(value, "option "@ + OPTION_MAX_TIMESTAMP_PRECISION@) {
        Err(m) => Err(m),
        Ok(s) => if s.len() == 0 || s == "nanoseconds_error_on_overflow"@ {
            Ok(TimestampPrecision::NanosecondsErrorOnOverflow)
        } else if s == "microseconds"@ {
            Ok(TimestampPrecision::Microseconds)
        } else {
            Err(bad_precision_message(s))
        },
    }
}

impl TimestampPrecision {
    /// The spelling of the precision as an option.
    pub fn as_str(self) -> (r: &'static str)
        ensures
            r@ == precision_text(self),
    {
        match self {
            TimestampPrecision::NanosecondsErrorOnOverflow => "nanoseconds_error_on_overflow",
            TimestampPrecision::Microseconds => "microseconds",
        }
    }

    /// Reads a precision. The empty string is the default.
    pub fn parse_option(value: OptionValue) -> (r: Result<TimestampPrecision, Error>)
        ensures
            coerces(r, precision_of(value)),
    {
        proof {
            reveal_strlit("nanoseconds_error_on_overflow");
            reveal_strlit("microseconds");
        }
        let mut what = "option ".to_owned();
        what.append(OPTION_MAX_TIMESTAMP_PRECISION);
        match string_option(value, what.as_str()) {
            Ok(s) => if s.as_str().is_empty() || eq_str(
                s.as_str(),
                "nanoseconds_error_on_overflow",
            ) {
                Ok(TimestampPrecision::NanosecondsErrorOnOverflow)
            } else if eq_str(s.as_str(), "microseconds") {
                Ok(TimestampPrecision::Microseconds)
            } else {
                let mut message = "option ".to_owned();
                message.append(OPTION_MAX_TIMESTAMP_PRECISION);
                message.append(
                    " expects \"nanoseconds_error_on_overflow\" or \"microseconds\", got ",
                );
                message.append(debug_quoted(s.as_str()).as_str());
                Err(invalid_argument(message))
            },
            Err(e) => Err(e),
        }
    }
}

/// The spelling of a precision is read back as that precision.
pub proof fn lemma_precision_round_trip(p: TimestampPrecision, s: String)
    requires
        s@ == precision_text(p),
    ensures
        precision_of(OptionValue::Text(s)) == Ok::<TimestampPrecision, Seq<char>>(p),
{
    reveal_strlit("nanoseconds_error_on_overflow");
    reveal_strlit("microseconds");
}

// ---------------------------------------------------------------------------------------------
// The settings
// ---------------------------------------------------------------------------------------------

/// The isolation level of read/write transactions.
#[derive(Debug, Clone, Copy, PartialEq, Eq, Structural)]
pub enum IsolationLevel {
    Unspecified,
    Serializable,
    RepeatableRead,
}

/// The settings of a connection or a statement. The read-only flag is not among them: it is one
/// live flag that a connection and its statements look at together.
#[derive(Debug)]
pub struct SharedConfig {
    pub isolation: IsolationLevel,
    pub read_staleness: ReadStaleness,
    pub request: RequestConfig,
    pub directed_read: DirectedRead,
    pub query_options: QueryOptionsConfig,
    pub timestamp_precision: TimestampPrecision,
    pub timeouts: RpcTimeouts,
    pub retry: RetryConfig,
    /// The mutation count of this object's last commit that was asked for statistics.
    pub commit_stats: Option<i64>,
}

#[verifier::ext_equal]
pub struct ConfigView {
    pub isolation: IsolationLevel,
    pub read_staleness: StalenessView,
    pub request: RequestView,
    pub directed_read: DirectedReadView,
    pub query_options: QueryOptionsView,
    pub timestamp_precision: TimestampPrecision,
    pub timeouts: RpcTimeouts,
    pub retry: RetryConfig,
    pub commit_stats: Option<i64>,
}

impl View for SharedConfig {
    type V = ConfigView;

    open spec fn view(&self) -> ConfigView {
        ConfigView {
            isolation: self.isolation,
            read_staleness: self.read_staleness@,
            request: self.request@,
            directed_read: self.directed_read@,
            query_options: self.query_options@,
            timestamp_precision: self.timestamp_precision,
            timeouts: self.timeouts,
            retry: self.retry,
            commit_stats: self.commit_stats,
        }
    }
}

/// The settings of a new connection.
pub open spec fn default_config() -> ConfigView {
    ConfigView {
        isolation: IsolationLevel::Unspecified,
        read_staleness: StalenessView { raw: None, bound: None },
        request: RequestView {
            priority: None,
            request_tag: None,
            transaction_tag: None,
            max_commit_delay_raw: None,
            max_commit_delay: None,
            commit_stats: false,
        },
        directed_read: DirectedReadView { raw: None, choice: None },
        query_options: QueryOptionsView {
            optimizer_version: None,
            optimizer_statistics_package: None,
        },
        timestamp_precision: TimestampPrecision::NanosecondsErrorOnOverflow,
        timeouts: RpcTimeouts { query: None, update: None, fetch: None },
        retry: no_retry_settings(),
        commit_stats: None,
    }
}

/// What floating point makes of a value: the double that it reads as, and the span that its
/// duration makes.
#[derive(Debug, Clone, Copy, PartialEq, Eq, Structural)]
pub struct Conversions {
    pub number: Option<Double>,
    pub span: Option<TimeSpan>,
}

// ---------------------------------------------------------------------------------------------
// The table
// ---------------------------------------------------------------------------------------------

/// An option that connections and statements share.
#[derive(Debug, Clone, Copy, PartialEq, Eq, Structural)]
pub enum SharedOption {
    ReadStaleness,
    RequestPriority,
    RequestTag,
    DirectedRead,
    MaxCommitDelay,
    CommitStats,
    CommitStatsMutationCount,
    OptimizerVersion,
    OptimizerStatisticsPackage,
    MaxTimestampPrecision,
    RpcTimeoutQuery,
    RpcTimeoutUpdate,
    RpcTimeoutFetch,
    RetryMaxAttempts,
    RetryMaxElapsedSeconds,
    RetryBackoffInitialSeconds,
    RetryBackoffMaxSeconds,
    RetryBackoffMultiplier,
}

/// The key of a shared option.
pub open spec fn key_of(option: SharedOption) -> Seq<char> {
    match option {
        SharedOption::ReadStaleness => OPTION_READ_STALENESS@,
        SharedOption::RequestPriority => OPTION_REQUEST_PRIORITY@,
        SharedOption::RequestTag => OPTION_REQUEST_TAG@,
        SharedOption::DirectedRead => OPTION_DIRECTED_READ@,
        SharedOption::MaxCommitDelay => OPTION_MAX_COMMIT_DELAY@,
        SharedOption::CommitStats => OPTION_COMMIT_STATS@,
        SharedOption::CommitStatsMutationCount => OPTION_COMMIT_STATS_MUTATION_COUNT@,
        SharedOption::OptimizerVersion => OPTION_QUERY_OPTIMIZER_VERSION@,
        SharedOption::OptimizerStatisticsPackage => OPTION_QUERY_OPTIMIZER_STATISTICS_PACKAGE@,
        SharedOption::MaxTimestampPrecision => OPTION_MAX_TIMESTAMP_PRECISION@,
        SharedOption::RpcTimeoutQuery => OPTION_RPC_TIMEOUT_QUERY@,
        SharedOption::RpcTimeoutUpdate => OPTION_RPC_TIMEOUT_UPDATE@,
        SharedOption::RpcTimeoutFetch => OPTION_RPC_TIMEOUT_FETCH@,
        SharedOption::RetryMaxAttempts => OPTION_RETRY_MAX_ATTEMPTS@,
        SharedOption::RetryMaxElapsedSeconds => OPTION_RETRY_MAX_ELAPSED_SECONDS@,
        SharedOption::RetryBackoffInitialSeconds => OPTION_RETRY_BACKOFF_INITIAL_SECONDS@,
        SharedOption::RetryBackoffMaxSeconds => OPTION_RETRY_BACKOFF_MAX_SECONDS@,
        SharedOption::RetryBackoffMultiplier => OPTION_RETRY_BACKOFF_MULTIPLIER@,
    }
}

/// The length of a shared option's key.
spec fn key_length(option: SharedOption) -> nat {
    match option {
        SharedOption::ReadStaleness => 22,
        SharedOption::RequestPriority => 24,
        SharedOption::RequestTag => 19,
        SharedOption::DirectedRead => 21,
        SharedOption::MaxCommitDelay => 24,
        SharedOption::CommitStats => 20,
        SharedOption::CommitStatsMutationCount => 35,
        SharedOption::OptimizerVersion => 31,
        SharedOption::OptimizerStatisticsPackage => 42,
        SharedOption::MaxTimestampPrecision => 31,
        SharedOption::RpcTimeoutQuery => 33,
        SharedOption::RpcTimeoutUpdate => 34,
        SharedOption::RpcTimeoutFetch => 33,
        SharedOption::RetryMaxAttempts => 26,
        SharedOption::RetryMaxElapsedSeconds => 33,
        SharedOption::RetryBackoffInitialSeconds => 37,
        SharedOption::RetryBackoffMaxSeconds => 33,
        SharedOption::RetryBackoffMultiplier => 32,
    }
}

proof fn lemma_key_length(option: SharedOption)
    ensures
        key_of(option).len() == key_length(option),
{
    match option {
        SharedOption::ReadStaleness => {
            reveal_strlit("spanner.read.staleness");
        },
        SharedOption::RequestPriority => {
            reveal_strlit("spanner.request.priority");
        },
        SharedOption::RequestTag => {
            reveal_strlit("spanner.request.tag");
        },
        SharedOption::DirectedRead => {
            reveal_strlit("spanner.directed_read");
        },
        SharedOption::MaxCommitDelay => {
            reveal_strlit("spanner.commit.max_delay");
        },
        SharedOption::CommitStats => {
            reveal_strlit("spanner.commit_stats");
        },
        SharedOption::CommitStatsMutationCount => {
            reveal_strlit("spanner.commit_stats.mutation_count");
        },
        SharedOption::OptimizerVersion => {
            reveal_strlit("spanner.query.optimizer_version");
        },
        SharedOption::OptimizerStatisticsPackage => {
            reveal_strlit("spanner.query.optimizer_statistics_package");
        },
        SharedOption::MaxTimestampPrecision => {
            reveal_strlit("spanner.max_timestamp_precision");
        },
        SharedOption::RpcTimeoutQuery => {
            reveal_strlit("spanner.rpc.timeout_seconds.query");
        },
        SharedOption::RpcTimeoutUpdate => {
            reveal_strlit("spanner.rpc.timeout_seconds.update");
        },
        SharedOption::RpcTimeoutFetch => {
            reveal_strlit("spanner.rpc.timeout_seconds.fetch");
        },
        SharedOption::RetryMaxAttempts => {
            reveal_strlit("spanner.retry.max_attempts");
        },
        SharedOption::RetryMaxElapsedSeconds => {
            reveal_strlit("spanner.retry.max_elapsed_seconds");
        },
        SharedOption::RetryBackoffInitialSeconds => {
            reveal_strlit("spanner.retry.backoff.initial_seconds");
        },
        SharedOption::RetryBackoffMaxSeconds => {
            reveal_strlit("spanner.retry.backoff.max_seconds");
        },
        SharedOption::RetryBackoffMultiplier => {
            reveal_strlit("spanner.retry.backoff.multiplier");
        },
    }
}

/// No two shared options have the same key.
pub proof fn lemma_keys_are_distinct(a: SharedOption, b: SharedOption)
    requires
        key_of(a) == key_of(b),
    ensures
        a == b,
{
    lemma_key_length(a);
    lemma_key_length(b);
    reveal_strlit("spanner.request.priority");
    reveal_strlit("spanner.commit.max_delay");
    assert(OPTION_REQUEST_PRIORITY@[8] != OPTION_MAX_COMMIT_DELAY@[8]);
    reveal_strlit("spanner.query.optimizer_version");
    reveal_strlit("spanner.max_timestamp_precision");
    assert(OPTION_QUERY_OPTIMIZER_VERSION@[8] != OPTION_MAX_TIMESTAMP_PRECISION@[8]);
    reveal_strlit("spanner.rpc.timeout_seconds.query");
    reveal_strlit("spanner.rpc.timeout_seconds.fetch");
    reveal_strlit("spanner.retry.max_elapsed_seconds");
    reveal_strlit("spanner.retry.backoff.max_seconds");
    assert(OPTION_RPC_TIMEOUT_QUERY@[28] != OPTION_RPC_TIMEOUT_FETCH@[28]);
    assert(OPTION_RPC_TIMEOUT_QUERY@[9] != OPTION_RETRY_MAX_ELAPSED_SECONDS@[9]);
    assert(OPTION_RPC_TIMEOUT_QUERY@[9] != OPTION_RETRY_BACKOFF_MAX_SECONDS@[9]);
    assert(OPTION_RPC_TIMEOUT_FETCH@[9] != OPTION_RETRY_MAX_ELAPSED_SECONDS@[9]);
    assert(OPTION_RPC_TIMEOUT_FETCH@[9] != OPTION_RETRY_BACKOFF_MAX_SECONDS@[9]);
    assert(OPTION_RETRY_MAX_ELAPSED_SECONDS@[14] != OPTION_RETRY_BACKOFF_MAX_SECONDS@[14]);
}

/// The shared option that a key names, if it names one.
pub fn shared_option_of(key: &str) -> (r: Option<SharedOption>)
    ensures
        match r {
            Some(option) => key_of(option) == key@,
            None => forall|option: SharedOption| key_of(option) != key@,
        },
{
    if eq_str(key, OPTION_READ_STALENESS) {
        Some(SharedOption::ReadStaleness)
    } else if eq_str(key, OPTION_REQUEST_PRIORITY) {
        Some(SharedOption::RequestPriority)
    } else if eq_str(key, OPTION_REQUEST_TAG) {
        Some(SharedOption::RequestTag)
    } else if eq_str(key, OPTION_DIRECTED_READ) {
        Some(SharedOption::DirectedRead)
    } else if eq_str(key, OPTION_MAX_COMMIT_DELAY) {
        Some(SharedOption::MaxCommitDelay)
    } else if eq_str(key, OPTION_COMMIT_STATS) {
        Some(SharedOption::CommitStats)
    } else if eq_str(key, OPTION_COMMIT_STATS_MUTATION_COUNT) {
        Some(SharedOption::CommitStatsMutationCount)
    } else if eq_str(key, OPTION_QUERY_OPTIMIZER_VERSION) {
        Some(SharedOption::OptimizerVersion)
    } else if eq_str(key, OPTION_QUERY_OPTIMIZER_STATISTICS_PACKAGE) {
        Some(SharedOption::OptimizerStatisticsPackage)
    } else if eq_str(key, OPTION_MAX_TIMESTAMP_PRECISION) {
        Some(SharedOption::MaxTimestampPrecision)
    } else if eq_str(key, OPTION_RPC_TIMEOUT_QUERY) {
        Some(SharedOption::RpcTimeoutQuery)
    } else if eq_str(key, OPTION_RPC_TIMEOUT_UPDATE) {
        Some(SharedOption::RpcTimeoutUpdate)
    } else if eq_str(key, OPTION_RPC_TIMEOUT_FETCH) {
        Some(SharedOption::RpcTimeoutFetch)
    } else if eq_str(key, OPTION_RETRY_MAX_ATTEMPTS) {
        Some(SharedOption::RetryMaxAttempts)
    } else if eq_str(key, OPTION_RETRY_MAX_ELAPSED_SECONDS) {
        Some(SharedOption::RetryMaxElapsedSeconds)
    } else if eq_str(key, OPTION_RETRY_BACKOFF_INITIAL_SECONDS) {
        Some(SharedOption::RetryBackoffInitialSeconds)
    } else if eq_str(key, OPTION_RETRY_BACKOFF_MAX_SECONDS) {
        Some(SharedOption::RetryBackoffMaxSeconds)
    } else if eq_str(key, OPTION_RETRY_BACKOFF_MULTIPLIER) {
        Some(SharedOption::RetryBackoffMultiplier)
    } else {
        None
    }
}

pub open spec fn in_request(before: ConfigView, after: Result<RequestView, Seq<char>>) -> Result<
    ConfigView,
    Seq<char>,
> {
    match after {
        Ok(request) => Ok(ConfigView { request, ..before }),
        Err(m) => Err(m),
    }
}

pub open spec fn in_query_options(
    before: ConfigView,
    after: Result<QueryOptionsView, Seq<char>>,
) -> Result<ConfigView, Seq<char>> {
    match after {
        Ok(query_options) => Ok(ConfigView { query_options, ..before }),
        Err(m) => Err(m),
    }
}

pub open spec fn in_timeouts(before: ConfigView, after: Result<RpcTimeouts, Seq<char>>) -> Result<
    ConfigView,
    Seq<char>,
> {
    match after {
        Ok(timeouts) => Ok(ConfigView { timeouts, ..before }),
        Err(m) => Err(m),
    }
}

pub open spec fn in_retry(before: ConfigView, after: Result<RetryConfig, Seq<char>>) -> Result<
    ConfigView,
    Seq<char>,
> {
    match after {
        Ok(retry) => Ok(ConfigView { retry, ..before }),
        Err(m) => Err(m),
    }
}

/// What setting `option` to `value` makes of `before`. The mutation count is a result and cannot
/// be set: `set_shared_option` does not handle it.
pub open spec fn config_after(
    before: ConfigView,
    option: SharedOption,
    value: OptionValue,
    conversions: Conversions,
) -> Result<ConfigView, Seq<char>> {
    let number = conversions.number;
    match option {
        SharedOption::ReadStaleness => match staleness_after(value, conversions.span) {
            Ok(read_staleness) => Ok(ConfigView { read_staleness, ..before }),
            Err(m) => Err(m),
        },
        SharedOption::RequestPriority => in_request(before, with_priority(before.request, value)),
        SharedOption::RequestTag => in_request(before, with_request_tag(before.request, value)),
        SharedOption::DirectedRead => match directed_read_after(value) {
            Ok(directed_read) => Ok(ConfigView { directed_read, ..before }),
            Err(m) => Err(m),
        },
        SharedOption::MaxCommitDelay => in_request(
            before,
            with_max_commit_delay(before.request, value, conversions.span),
        ),
        SharedOption::CommitStats => in_request(before, with_commit_stats(before.request, value)),
        SharedOption::CommitStatsMutationCount => Ok(before),
        SharedOption::OptimizerVersion => in_query_options(
            before,
            with_optimizer_version(before.query_options, value),
        ),
        SharedOption::OptimizerStatisticsPackage => in_query_options(
            before,
            with_optimizer_statistics_package(before.query_options, value),
        ),
        SharedOption::MaxTimestampPrecision => match precision_of(value) {
            Ok(timestamp_precision) => Ok(ConfigView { timestamp_precision, ..before }),
            Err(m) => Err(m),
        },
        SharedOption::RpcTimeoutQuery => in_timeouts(
            before,
            with_query(before.timeouts, value, number),
        ),
        SharedOption::RpcTimeoutUpdate => in_timeouts(
            before,
            with_update(before.timeouts, value, number),
        ),
        SharedOption::RpcTimeoutFetch => in_timeouts(
            before,
            with_fetch(before.timeouts, value, number),
        ),
        SharedOption::RetryMaxAttempts => in_retry(before, with_max_attempts(before.retry, value)),
        SharedOption::RetryMaxElapsedSeconds => in_retry(
            before,
            with_max_elapsed_seconds(before.retry, value, number),
        ),
        SharedOption::RetryBackoffInitialSeconds => in_retry(
            before,
            with_backoff_initial_seconds(before.retry, value, number),
        ),
        SharedOption::RetryBackoffMaxSeconds => in_retry(
            before,
            with_backoff_max_seconds(before.retry, value, number),
        ),
        SharedOption::RetryBackoffMultiplier => in_retry(
            before,
            with_backoff_multiplier(before.retry, value, number),
        ),
    }
}

/// What a shared option shows of itself: text, or a double that is yet to be rendered.
#[derive(Debug, PartialEq, Eq)]
pub enum ShownOption {
    Text(String),
    Number(Double),
}

pub enum ShownView {
    Text(Seq<char>),
    Number(Double),
}

impl View for ShownOption {
    type V = ShownView;

    open spec fn view(&self) -> ShownView {
        match self {
            ShownOption::Text(s) => ShownView::Text(s@),
            ShownOption::Number(d) => ShownView::Number(*d),
        }
    }
}

pub open spec fn shown_text(text: Option<Seq<char>>) -> Option<ShownView> {
    match text {
        Some(s) => Some(ShownView::Text(s)),
        None => None,
    }
}

pub open spec fn shown_number(number: Option<Double>) -> Option<ShownView> {
    match number {
        Some(d) => Some(ShownView::Number(d)),
        None => None,
    }
}

/// What `option` shows; none where it is not set.
pub open spec fn shown(config: ConfigView, option: SharedOption) -> Option<ShownView> {
    match option {
        SharedOption::ReadStaleness => shown_text(config.read_staleness.raw),
        SharedOption::RequestPriority => match config.request.priority {
            Some(p) => Some(ShownView::Text(spelling(p))),
            None => None,
        },
        SharedOption::RequestTag => shown_text(config.request.request_tag),
        SharedOption::DirectedRead => shown_text(config.directed_read.raw),
        SharedOption::MaxCommitDelay => shown_text(config.request.max_commit_delay_raw),
        SharedOption::CommitStats => Some(
            ShownView::Text(
                if config.request.commit_stats {
                    "true"@
                } else {
                    "false"@
                },
            ),
        ),
        SharedOption::CommitStatsMutationCount => match config.commit_stats {
            Some(n) => Some(ShownView::Text(signed_decimal(n as int))),
            None => None,
        },
        SharedOption::OptimizerVersion => shown_text(config.query_options.optimizer_version),
        SharedOption::OptimizerStatisticsPackage => shown_text(
            config.query_options.optimizer_statistics_package,
        ),
        SharedOption::MaxTimestampPrecision => Some(
            ShownView::Text(precision_text(config.timestamp_precision)),
        ),
        SharedOption::RpcTimeoutQuery => shown_number(config.timeouts.query),
        SharedOption::RpcTimeoutUpdate => shown_number(config.timeouts.update),
        SharedOption::RpcTimeoutFetch => shown_number(config.timeouts.fetch),
        SharedOption::RetryMaxAttempts => match config.retry.max_attempts {
            Some(n) => Some(ShownView::Text(decimal(n as nat))),
            None => None,
        },
        SharedOption::RetryMaxElapsedSeconds => shown_number(config.retry.max_elapsed_seconds),
        SharedOption::RetryBackoffInitialSeconds => shown_number(
            config.retry.backoff_initial_seconds,
        ),
        SharedOption::RetryBackoffMaxSeconds => shown_number(config.retry.backoff_max_seconds),
        SharedOption::RetryBackoffMultiplier => shown_number(config.retry.backoff_multiplier),
    }
}

pub open spec fn not_set_message(key: Seq<char>) -> Seq<char> {
    "option "@ + key + " is not set"@
}

fn text_shown(text: Option<&str>) -> (r: Option<ShownOption>)
    ensures
        match text {
            Some(s) => r is Some && r->Some_0@ == ShownView::Text(s@),
            None => r is None,
        },
{
    match text {
        Some(s) => Some(ShownOption::Text(s.to_owned())),
        None => None,
    }
}

fn number_shown(number: Option<Double>) -> (r: Option<ShownOption>)
    ensures
        match number {
            Some(d) => r is Some && r->Some_0@ == ShownView::Number(d),
            None => r is None,
        },
{
    match number {
        Some(d) => Some(ShownOption::Number(d)),
        None => None,
    }
}

impl SharedConfig {
    /// The settings of a new connection.
    pub fn new() -> (r: SharedConfig)
        ensures
            r@ == default_config(),
    {
        SharedConfig {
            isolation: IsolationLevel::Unspecified,
            read_staleness: ReadStaleness::new(),
            request: RequestConfig::new(),
            directed_read: DirectedRead::new(),
            query_options: QueryOptionsConfig::new(),
            timestamp_precision: TimestampPrecision::NanosecondsErrorOnOverflow,
            timeouts: RpcTimeouts::new(),
            retry: RetryConfig::new(),
            commit_stats: None,
        }
    }

    /// The settings that a statement of this connection starts from: all of them, but for the
    /// mutation count, which each object records of its own commits.
    pub fn inherit(&self) -> (r: SharedConfig)
        ensures
            r@ == (ConfigView { commit_stats: None, ..self@ }),
    {
        SharedConfig {
            isolation: self.isolation,
            read_staleness: self.read_staleness.clone(),
            request: self.request.clone(),
            directed_read: self.directed_read.clone(),
            query_options: self.query_options.clone(),
            timestamp_precision: self.timestamp_precision,
            timeouts: self.timeouts,
            retry: self.retry,
            commit_stats: None,
        }
    }

    /// Sets a shared option: `Some` where the key was handled, `None` where it is no option that
    /// can be set here. A rejected value changes nothing.
    pub fn set_shared_option(&mut self, key: &str, value: OptionValue, conversions: Conversions) -> (r:
        Result<Option<()>, Error>)
        ensures
            forall|option: SharedOption|
                key_of(option) == key@ && option != SharedOption::CommitStatsMutationCount ==> (
                match #[trigger] config_after(old(self)@, option, value, conversions) {
                    Ok(after) => r is Ok && r->Ok_0 == Some(()) && final(self)@ == after,
                    Err(m) => r is Err && r->Err_0.says(Status::InvalidArguments, m)
                        && final(self)@ == old(self)@,
                }),
            (forall|option: SharedOption| key_of(option) == key@ ==> option
                == SharedOption::CommitStatsMutationCount) ==> r is Ok && r->Ok_0 is None
                && final(self)@ == old(self)@,
    {
        let option = match shared_option_of(key) {
            Some(option) => option,
            None => {
                return Ok(None);
            },
        };
        proof {
            assert forall|other: SharedOption| key_of(other) == key@ implies other == option by {
                lemma_keys_are_distinct(other, option);
            }
        }
        let number = conversions.number;
        let outcome = match option {
            SharedOption::ReadStaleness => self.read_staleness.set_staleness(
                value,
                conversions.span,
            ),
            SharedOption::RequestPriority => self.request.set_priority(value),
            SharedOption::RequestTag => self.request.set_request_tag(value),
            SharedOption::DirectedRead => self.directed_read.set(value),
            SharedOption::MaxCommitDelay => self.request.set_max_commit_delay(
                value,
                conversions.span,
            ),
            SharedOption::CommitStats => self.request.set_commit_stats(value),
            SharedOption::CommitStatsMutationCount => {
                return Ok(None);
            },
            SharedOption::OptimizerVersion => self.query_options.set_optimizer_version(value),
            SharedOption::OptimizerStatisticsPackage => self.query_options.set_optimizer_statistics_package(
            value),
            SharedOption::MaxTimestampPrecision => match TimestampPrecision::parse_option(value) {
                Ok(precision) => {
                    self.timestamp_precision = precision;
                    Ok(())
                },
                Err(e) => Err(e),
            },
            SharedOption::RpcTimeoutQuery => self.timeouts.set_query(value, number),
            SharedOption::RpcTimeoutUpdate => self.timeouts.set_update(value, number),
            SharedOption::RpcTimeoutFetch => self.timeouts.set_fetch(value, number),
            SharedOption::RetryMaxAttempts => self.retry.set_max_attempts(value),
            SharedOption::RetryMaxElapsedSeconds => self.retry.set_max_elapsed_seconds(
                value,
                number,
            ),
            SharedOption::RetryBackoffInitialSeconds => self.retry.set_backoff_initial_seconds(
                value,
                number,
            ),
            SharedOption::RetryBackoffMaxSeconds => self.retry.set_backoff_max_seconds(
                value,
                number,
            ),
            SharedOption::RetryBackoffMultiplier => self.retry.set_backoff_multiplier(
                value,
                number,
            ),
        };
        match outcome {
            Ok(()) => Ok(Some(())),
            Err(e) => Err(e),
        }
    }

    /// What a shared option shows. One that is not set, or not shared, is not found.
    pub fn shared_option(&self, key: &str) -> (r: Result<ShownOption, Error>)
        ensures
            forall|option: SharedOption|
                key_of(option) == key@ ==> (match #[trigger] shown(self@, option) {
                    Some(v) => r is Ok && r->Ok_0@ == v,
                    None => r is Err && r->Err_0.says(Status::NotFound, not_set_message(key@)),
                }),
            (forall|option: SharedOption| key_of(option) != key@) ==> r is Err
                && r->Err_0.says(Status::NotFound, not_set_message(key@)),
    {
        let found: Option<ShownOption> = match shared_option_of(key) {
            None => None,
            Some(option) => {
                proof {
                    assert forall|other: SharedOption| key_of(other) == key@ implies other
                        == option by {
                        lemma_keys_are_distinct(other, option);
                    }
                }
                match option {
                    SharedOption::ReadStaleness => text_shown(
                        self.read_staleness.staleness_string(),
                    ),
                    SharedOption::RequestPriority => text_shown(self.request.priority_string()),
                    SharedOption::RequestTag => text_shown(self.request.request_tag_string()),
                    SharedOption::DirectedRead => text_shown(self.directed_read.option_string()),
                    SharedOption::MaxCommitDelay => text_shown(
                        self.request.max_commit_delay_string(),
                    ),
                    SharedOption::CommitStats => text_shown(
                        Some(self.request.commit_stats_string()),
                    ),
                    SharedOption::CommitStatsMutationCount => match self.commit_stats {
                        Some(n) => {
                            let mut out = String::new();
                            push_signed(&mut out, n as i128);
                            assert(out@ =~= signed_decimal(n as int));
                            Some(ShownOption::Text(out))
                        },
                        None => None,
                    },
                    SharedOption::OptimizerVersion => text_shown(
                        self.query_options.optimizer_version_string(),
                    ),
                    SharedOption::OptimizerStatisticsPackage => text_shown(
                        self.query_options.optimizer_statistics_package_string(),
                    ),
                    SharedOption::MaxTimestampPrecision => text_shown(
                        Some(self.timestamp_precision.as_str()),
                    ),
                    SharedOption::RpcTimeoutQuery => number_shown(self.timeouts.query),
                    SharedOption::RpcTimeoutUpdate => number_shown(self.timeouts.update),
                    SharedOption::RpcTimeoutFetch => number_shown(self.timeouts.fetch),
                    SharedOption::RetryMaxAttempts => match self.retry.max_attempts_string() {
                        Some(s) => Some(ShownOption::Text(s)),
                        None => None,
                    },
                    SharedOption::RetryMaxElapsedSeconds => number_shown(
                        self.retry.max_elapsed_seconds,
                    ),
                    SharedOption::RetryBackoffInitialSeconds => number_shown(
                        self.retry.backoff_initial_seconds,
                    ),
                    SharedOption::RetryBackoffMaxSeconds => number_shown(
                        self.retry.backoff_max_seconds,
                    ),
                    SharedOption::RetryBackoffMultiplier => number_shown(
                        self.retry.backoff_multiplier,
                    ),
                }
            },
        };
        match found {
            Some(v) => Ok(v),
            None => {
                let mut message = "option ".to_owned();
                message.append(key);
                message.append(" is not set");
                Err(not_found(message))
            },
        }
    }
}

// ---------------------------------------------------------------------------------------------
// The driver's own statements
// ---------------------------------------------------------------------------------------------

/// A statement, with what it carries besides its text.
#[derive(Debug)]
pub struct StatementPlan {
    pub sql: String,
    pub priority: Option<RequestPriority>,
    pub request_tag: Option<String>,
    pub transaction_tag: Option<String>,
    pub directed_read: Option<ReplicaChoice>,
    pub retry: Option<RetryLimits>,
    pub backoff: Option<BackoffKnobs>,
}

/// A metadata read of the driver's own. It honours the connection's priority, its choice of replicas
/// and its retry bounds, and is never tagged: tags attribute the user's statements.
pub fn metadata_sql_builder(config: &SharedConfig, sql: &str) -> (r: StatementPlan)
    ensures
        r.sql@ == sql@,
        r.priority == config@.request.priority,
        r.request_tag is None,
        r.transaction_tag is None,
        match config@.directed_read.choice {
            Some(choice) => r.directed_read is Some && r.directed_read->Some_0@ == choice,
            None => r.directed_read is None,
        },
        r.retry == limits_of(config@.retry),
        r.backoff == knobs_of(config@.retry),
{
    let directed_read = match &config.directed_read.choice {
        Some(choice) => Some(choice.clone()),
        None => None,
    };
    StatementPlan {
        sql: sql.to_owned(),
        priority: config.request.priority,
        request_tag: None,
        transaction_tag: None,
        directed_read,
        retry: config.retry.retry_policy_arg(),
        backoff: config.retry.backoff_policy_arg(),
    }
}

// ---------------------------------------------------------------------------------------------
// Laws
// ---------------------------------------------------------------------------------------------

/// Setting one option changes what no other option shows.
pub proof fn lemma_options_are_independent(
    before: ConfigView,
    option: SharedOption,
    value: OptionValue,
    conversions: Conversions,
    other: SharedOption,
)
    requires
        other != option,
    ensures
        match config_after(before, option, value, conversions) {
            Ok(after) => shown(after, other) == shown(before, other),
            Err(_) => true,
        },
{
    match option {
        SharedOption::ReadStaleness => {},
        SharedOption::RequestPriority => {},
        SharedOption::RequestTag => {},
        SharedOption::DirectedRead => {},
        SharedOption::MaxCommitDelay => {},
        SharedOption::CommitStats => {},
        SharedOption::CommitStatsMutationCount => {},
        SharedOption::OptimizerVersion => {},
        SharedOption::OptimizerStatisticsPackage => {},
        SharedOption::MaxTimestampPrecision => {},
        SharedOption::RpcTimeoutQuery => {},
        SharedOption::RpcTimeoutUpdate => {},
        SharedOption::RpcTimeoutFetch => {},
        SharedOption::RetryMaxAttempts => {},
        SharedOption::RetryMaxElapsedSeconds => {},
        SharedOption::RetryBackoffInitialSeconds => {},
        SharedOption::RetryBackoffMaxSeconds => {},
        SharedOption::RetryBackoffMultiplier => {},
    }
}

/// An option whose value is free text shows exactly the text it was last set to, unless that was
/// empty, which unsets it. A read bound does too, whenever it is accepted.
pub proof fn lemma_text_options_round_trip(
    before: ConfigView,
    option: SharedOption,
    s: String,
    conversions: Conversions,
)
    requires
        option == SharedOption::RequestTag || option == SharedOption::OptimizerVersion || option
            == SharedOption::OptimizerStatisticsPackage || option == SharedOption::ReadStaleness
            || option == SharedOption::MaxCommitDelay,
    ensures
        match config_after(before, option, OptionValue::Text(s), conversions) {
            Ok(after) => shown(after, option) == if s@.len() == 0 {
                None
            } else {
                Some(ShownView::Text(s@))
            },
            Err(_) => option == SharedOption::ReadStaleness || option
                == SharedOption::MaxCommitDelay,
        },
{
}

/// An option with a canonical form shows that form of what it was set to: a truth value its word, a
/// number of attempts its digits, a choice of replicas its text without the white space around it.
pub proof fn lemma_canonical_options_round_trip(
    before: ConfigView,
    s: String,
    i: i64,
    conversions: Conversions,
)
    ensures
        match config_after(before, SharedOption::CommitStats, OptionValue::Text(s), conversions) {
            Ok(after) => shown(after, SharedOption::CommitStats) == Some(
                ShownView::Text(
                    if s@.len() == 0 {
                        "false"@
                    } else {
                        s@
                    },
                ),
            ),
            Err(_) => s@.len() > 0 && s@ != "true"@ && s@ != "false"@,
        },
        match config_after(before, SharedOption::RetryMaxAttempts, OptionValue::Int(i), conversions) {
            Ok(after) => shown(after, SharedOption::RetryMaxAttempts) == Some(
                ShownView::Text(decimal(i as nat)),
            ),
            Err(_) => i < 1 || i > u32::MAX,
        },
        match config_after(before, SharedOption::DirectedRead, OptionValue::Text(s), conversions) {
            Ok(after) => shown(after, SharedOption::DirectedRead) == shown_text(
                unless_empty(trimmed(s@)),
            ),
            Err(_) => trimmed(s@).len() > 0,
        },
{
    reveal_strlit("true");
    reveal_strlit("false");
}

/// A double option shows exactly the double that the value it was set with reads as.
pub proof fn lemma_number_options_round_trip(
    before: ConfigView,
    option: SharedOption,
    d: Double,
    conversions: Conversions,
)
    requires
        option == SharedOption::RpcTimeoutQuery || option == SharedOption::RpcTimeoutUpdate
            || option == SharedOption::RpcTimeoutFetch || option
            == SharedOption::RetryMaxElapsedSeconds || option
            == SharedOption::RetryBackoffInitialSeconds || option
            == SharedOption::RetryBackoffMaxSeconds || option
            == SharedOption::RetryBackoffMultiplier,
    ensures
        match config_after(before, option, OptionValue::Double(d), conversions) {
            Ok(after) => shown(after, option) == Some(ShownView::Number(d)),
            Err(_) => true,
        },
{
}

/// The empty string unsets every shared option that has no default: none of them shows anything
/// afterwards.
pub proof fn lemma_empty_text_unsets(
    before: ConfigView,
    option: SharedOption,
    s: String,
    conversions: Conversions,
)
    requires
        s@.len() == 0,
        option != SharedOption::CommitStats,
        option != SharedOption::MaxTimestampPrecision,
        option != SharedOption::CommitStatsMutationCount,
    ensures
        match config_after(before, option, OptionValue::Text(s), conversions) {
            Ok(after) => shown(after, option) is None,
            Err(_) => false,
        },
{
    crate::text::lemma_trimmed(s@);
}

} // verus!
