//! The keys of the options that the driver defines.

use vstd::prelude::*;

verus! {

/// Database option: an explicit gRPC endpoint.
pub const OPTION_ENDPOINT: &'static str = "spanner.endpoint";

/// Database option: connect with anonymous credentials, as to an emulator.
pub const OPTION_EMULATOR: &'static str = "spanner.emulator";

/// Database option: path of a service-account key file.
pub const OPTION_KEYFILE: &'static str = "spanner.auth.keyfile";

/// Database option: an inline service-account key. Write-only, and refused in a connection URI.
pub const OPTION_KEYFILE_JSON: &'static str = "spanner.auth.keyfile_json";

/// Database option: the service account to impersonate.
pub const OPTION_IMPERSONATE_TARGET_PRINCIPAL: &'static str = "spanner.auth.impersonate.target_principal";

/// Database option: the delegation chain of an impersonation.
pub const OPTION_IMPERSONATE_DELEGATES: &'static str = "spanner.auth.impersonate.delegates";

/// Database option: the scopes of an impersonated token.
pub const OPTION_IMPERSONATE_SCOPES: &'static str = "spanner.auth.impersonate.scopes";

/// Database option: the lifetime of an impersonated token, in seconds.
pub const OPTION_IMPERSONATE_LIFETIME: &'static str = "spanner.auth.impersonate.lifetime";

/// Database option: a caller-supplied access token. Write-only, and refused in a connection URI.
pub const OPTION_ACCESS_TOKEN: &'static str = "spanner.auth.access_token";

/// Database option: the project charged for API usage.
pub const OPTION_QUOTA_PROJECT: &'static str = "spanner.auth.quota_project";

/// Statement option: the number of rows converted into each record batch.
pub const OPTION_ROWS_PER_BATCH: &'static str = "spanner.rows_per_batch";

/// Statement option: execute partitions on isolated compute.
pub const OPTION_DATA_BOOST: &'static str = "spanner.data_boost";

/// Statement option: pair bound columns with parameters by name rather than by position.
pub const OPTION_BIND_BY_NAME: &'static str = "adbc.statement.bind_by_name";

/// Statement option: load rows with non-atomic batch writes.
pub const OPTION_INGEST_BATCH_WRITE: &'static str = "spanner.ingest.batch_write";

/// Statement option: run the statement as partitioned DML.
pub const OPTION_DML_PARTITIONED: &'static str = "spanner.dml.partitioned";

/// Connection and statement option: the read bound of read-only queries.
pub const OPTION_READ_STALENESS: &'static str = "spanner.read.staleness";

/// Connection and statement option: the priority of requests.
pub const OPTION_REQUEST_PRIORITY: &'static str = "spanner.request.priority";

/// Connection and statement option: the replicas that reads are steered to.
pub const OPTION_DIRECTED_READ: &'static str = "spanner.directed_read";

/// Connection and statement option: a tag on every request.
pub const OPTION_REQUEST_TAG: &'static str = "spanner.request.tag";

/// Connection and statement option: the query optimizer's version.
pub const OPTION_QUERY_OPTIMIZER_VERSION: &'static str = "spanner.query.optimizer_version";

/// Connection and statement option: the query optimizer's statistics package.
pub const OPTION_QUERY_OPTIMIZER_STATISTICS_PACKAGE: &'static str = "spanner.query.optimizer_statistics_package";

/// Connection and statement option: the deadline of a query's first results, in seconds.
pub const OPTION_RPC_TIMEOUT_QUERY: &'static str = "spanner.rpc.timeout_seconds.query";

/// Connection and statement option: the deadline of a write, in seconds.
pub const OPTION_RPC_TIMEOUT_UPDATE: &'static str = "spanner.rpc.timeout_seconds.update";

/// Connection and statement option: the deadline of each later fetch, in seconds.
pub const OPTION_RPC_TIMEOUT_FETCH: &'static str = "spanner.rpc.timeout_seconds.fetch";

/// Connection and statement option: the most attempts a retryable call may make.
pub const OPTION_RETRY_MAX_ATTEMPTS: &'static str = "spanner.retry.max_attempts";

/// Connection and statement option: the time retrying may take, in seconds.
pub const OPTION_RETRY_MAX_ELAPSED_SECONDS: &'static str = "spanner.retry.max_elapsed_seconds";

/// Connection and statement option: the first delay between attempts, in seconds.
pub const OPTION_RETRY_BACKOFF_INITIAL_SECONDS: &'static str = "spanner.retry.backoff.initial_seconds";

/// Connection and statement option: the longest delay between attempts, in seconds.
pub const OPTION_RETRY_BACKOFF_MAX_SECONDS: &'static str = "spanner.retry.backoff.max_seconds";

/// Connection and statement option: what the delay grows by after each attempt.
pub const OPTION_RETRY_BACKOFF_MULTIPLIER: &'static str = "spanner.retry.backoff.multiplier";

/// Connection option: a tag on every read/write transaction.
pub const OPTION_TRANSACTION_TAG: &'static str = "spanner.transaction.tag";

/// Connection and statement option: the delay a commit may be given so that it can be batched.
pub const OPTION_MAX_COMMIT_DELAY: &'static str = "spanner.commit.max_delay";

/// Connection and statement option: ask for commit statistics.
pub const OPTION_COMMIT_STATS: &'static str = "spanner.commit_stats";

/// Read-only connection and statement option: the mutation count of the last commit that was asked
/// for statistics.
pub const OPTION_COMMIT_STATS_MUTATION_COUNT: &'static str = "spanner.commit_stats.mutation_count";

/// Connection and statement option: leave writes out of change streams.
pub const OPTION_EXCLUDE_TXN_FROM_CHANGE_STREAMS: &'static str = "spanner.transaction.exclude_from_change_streams";

/// Connection and statement option: the precision timestamps are read with.
pub const OPTION_MAX_TIMESTAMP_PRECISION: &'static str = "spanner.max_timestamp_precision";

} // verus!
