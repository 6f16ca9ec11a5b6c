//! Deadlines of remote calls.

use vstd::prelude::*;

use crate::error::Error;
use crate::keys::{OPTION_RPC_TIMEOUT_FETCH, OPTION_RPC_TIMEOUT_QUERY, OPTION_RPC_TIMEOUT_UPDATE};
use crate::options::{double_option, f64_option, Double, F64Range, OptionValue};
use crate::request::sets;

verus! {

/// The deadlines of a connection or a statement, in seconds.
#[derive(Debug, Clone, Copy, PartialEq, Eq, Structural)]
pub struct RpcTimeouts {
    /// `spanner.rpc.timeout_seconds.query`.
    pub query: Option<Double>,
    /// `spanner.rpc.timeout_seconds.update`.
    pub update: Option<Double>,
    /// `spanner.rpc.timeout_seconds.fetch`.
    pub fetch: Option<Double>,
}

/// The seconds that a value sets under `key`; zero is accepted.
pub open spec fn timeout(value: OptionValue, number: Option<Double>, key: Seq<char>) -> Result<
    Option<Double>,
    Seq<char>,
> {
    double_option(value, number, key, F64Range::NonNegativeSeconds)
}

pub open spec fn with_query(before: RpcTimeouts, value: OptionValue, number: Option<Double>) -> Result<
    RpcTimeouts,
    Seq<char>,
> {
    match timeout(value, number, OPTION_RPC_TIMEOUT_QUERY@) {
        Ok(d) => Ok(RpcTimeouts { query: d, ..before }),
        Err(m) => Err(m),
    }
}

pub open spec fn with_update(
    before: RpcTimeouts,
    value: OptionValue,
    number: Option<Double>,
) -> Result<RpcTimeouts, Seq<char>> {
    match timeout(value, number, OPTION_RPC_TIMEOUT_UPDATE@) {
        Ok(d) => Ok(RpcTimeouts { update: d, ..before }),
        Err(m) => Err(m),
    }
}

pub open spec fn with_fetch(before: RpcTimeouts, value: OptionValue, number: Option<Double>) -> Result<
    RpcTimeouts,
    Seq<char>,
> {
    match timeout(value, number, OPTION_RPC_TIMEOUT_FETCH@) {
        Ok(d) => Ok(RpcTimeouts { fetch: d, ..before }),
        Err(m) => Err(m),
    }
}

/// The deadline that a setting makes: none where nothing is set, and none for zero, which disables
/// the deadline.
pub open spec fn deadline(setting: Option<Double>) -> Option<Double> {
    match setting {
        Some(d) => if d.magnitude() == 0 {
            None
        } else {
            Some(d)
        },
        None => None,
    }
}

/// The deadline that a setting makes.
pub fn effective(setting: Option<Double>) -> (r: Option<Double>)
    ensures
        r == deadline(setting),
{
    match setting {
        Some(d) => if d.magnitude_bits() == 0 {
            None
        } else {
            Some(d)
        },
        None => None,
    }
}

impl RpcTimeouts {
    /// No deadlines.
    pub fn new() -> (r: RpcTimeouts)
        ensures
            r == (RpcTimeouts { query: None, update: None, fetch: None }),
    {
        RpcTimeouts { query: None, update: None, fetch: None }
    }

    /// Sets the deadline of a query's first results.
    pub fn set_query(&mut self, value: OptionValue, number: Option<Double>) -> (r: Result<
        (),
        Error,
    >)
        ensures
            sets(r, *old(self), *final(self), with_query(*old(self), value, number)),
    {
        match f64_option(
            value,
            number,
            OPTION_RPC_TIMEOUT_QUERY,
            F64Range::NonNegativeSeconds,
        ) {
            Ok(d) => {
                self.query = d;
                Ok(())
            },
            Err(e) => Err(e),
        }
    }

    /// Sets the deadline of a write.
    pub fn set_update(&mut self, value: OptionValue, number: Option<Double>) -> (r: Result<
        (),
        Error,
    >)
        ensures
            sets(r, *old(self), *final(self), with_update(*old(self), value, number)),
    {
        match f64_option(
            value,
            number,
            OPTION_RPC_TIMEOUT_UPDATE,
            F64Range::NonNegativeSeconds,
        ) {
            Ok(d) => {
                self.update = d;
                Ok(())
            },
            Err(e) => Err(e),
        }
    }

    /// Sets the deadline of each later fetch.
    pub fn set_fetch(&mut self, value: OptionValue, number: Option<Double>) -> (r: Result<
        (),
        Error,
    >)
        ensures
            sets(r, *old(self), *final(self), with_fetch(*old(self), value, number)),
    {
        match f64_option(
            value,
            number,
            OPTION_RPC_TIMEOUT_FETCH,
            F64Range::NonNegativeSeconds,
        ) {
            Ok(d) => {
                self.fetch = d;
                Ok(())
            },
            Err(e) => Err(e),
        }
    }
}

} // verus!
