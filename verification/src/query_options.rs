//! Per-query optimizer options. Both are opaque text that is passed through unchanged.

use vstd::prelude::*;

use crate::error::Error;
use crate::keys::{OPTION_QUERY_OPTIMIZER_STATISTICS_PACKAGE, OPTION_QUERY_OPTIMIZER_VERSION};
use crate::options::{non_empty_string_option, optional_text, text_of, OptionValue};
use crate::request::{as_deref, sets, shows, to_owned_option};

verus! {

/// The optimizer settings of a connection or a statement.
#[derive(Debug)]
pub struct QueryOptionsConfig {
    /// `spanner.query.optimizer_version`, verbatim.
    pub optimizer_version: Option<String>,
    /// `spanner.query.optimizer_statistics_package`, verbatim.
    pub optimizer_statistics_package: Option<String>,
}

/// The settings, with text as the characters it holds.
#[verifier::ext_equal]
pub struct QueryOptionsView {
    pub optimizer_version: Option<Seq<char>>,
    pub optimizer_statistics_package: Option<Seq<char>>,
}

impl View for QueryOptionsConfig {
    type V = QueryOptionsView;

    open spec fn view(&self) -> QueryOptionsView {
        QueryOptionsView {
            optimizer_version: text_of(self.optimizer_version),
            optimizer_statistics_package: text_of(self.optimizer_statistics_package),
        }
    }
}

impl Clone for QueryOptionsConfig {
    fn clone(&self) -> (r: QueryOptionsConfig)
        ensures
            r@ == self@,
    {
        QueryOptionsConfig {
            optimizer_version: to_owned_option(as_deref(&self.optimizer_version)),
            optimizer_statistics_package: to_owned_option(
                as_deref(&self.optimizer_statistics_package),
            ),
        }
    }
}

pub open spec fn with_optimizer_version(before: QueryOptionsView, value: OptionValue) -> Result<
    QueryOptionsView,
    Seq<char>,
> {
    match optional_text(value, OPTION_QUERY_OPTIMIZER_VERSION@) {
        Ok(v) => Ok(QueryOptionsView { optimizer_version: v, ..before }),
        Err(m) => Err(m),
    }
}

pub open spec fn with_optimizer_statistics_package(
    before: QueryOptionsView,
    value: OptionValue,
) -> Result<QueryOptionsView, Seq<char>> {
    match optional_text(value, OPTION_QUERY_OPTIMIZER_STATISTICS_PACKAGE@) {
        Ok(v) => Ok(QueryOptionsView { optimizer_statistics_package: v, ..before }),
        Err(m) => Err(m),
    }
}

impl QueryOptionsConfig {
    /// Nothing set.
    pub fn new() -> (r: QueryOptionsConfig)
        ensures
            r@ == (QueryOptionsView {
                optimizer_version: None,
                optimizer_statistics_package: None,
            }),
    {
        QueryOptionsConfig { optimizer_version: None, optimizer_statistics_package: None }
    }

    /// Sets the optimizer's version. The empty string unsets it.
    pub fn set_optimizer_version(&mut self, value: OptionValue) -> (r: Result<(), Error>)
        ensures
            sets(r, old(self)@, final(self)@, with_optimizer_version(old(self)@, value)),
    {
        match non_empty_string_option(value, OPTION_QUERY_OPTIMIZER_VERSION) {
            Ok(v) => {
                self.optimizer_version = v;
                Ok(())
            },
            Err(e) => Err(e),
        }
    }

    /// Sets the optimizer's statistics package. The empty string unsets it.
    pub fn set_optimizer_statistics_package(&mut self, value: OptionValue) -> (r: Result<(), Error>)
        ensures
            sets(
                r,
                old(self)@,
                final(self)@,
                with_optimizer_statistics_package(old(self)@, value),
            ),
    {
        match non_empty_string_option(value, OPTION_QUERY_OPTIMIZER_STATISTICS_PACKAGE) {
            Ok(v) => {
                self.optimizer_statistics_package = v;
                Ok(())
            },
            Err(e) => Err(e),
        }
    }

    /// The optimizer's version that is set.
    pub fn optimizer_version_string(&self) -> (r: Option<&str>)
        ensures
            shows(r, self@.optimizer_version),
    {
        as_deref(&self.optimizer_version)
    }

    /// The optimizer's statistics package that is set.
    pub fn optimizer_statistics_package_string(&self) -> (r: Option<&str>)
        ensures
            shows(r, self@.optimizer_statistics_package),
    {
        as_deref(&self.optimizer_statistics_package)
    }

    /// The optimizer settings that a query carries; none where nothing is set, so that the request
    /// carries no query options at all.
    pub fn apply_to_statement(&self) -> (r: Option<QueryOptionsConfig>)
        ensures
            match r {
                Some(carried) => carried@ == self@ && (self@.optimizer_version is Some
                    || self@.optimizer_statistics_package is Some),
                None => self@.optimizer_version is None && self@.optimizer_statistics_package
                    is None,
            },
    {
        if self.optimizer_version.is_none() && self.optimizer_statistics_package.is_none() {
            None
        } else {
            Some(self.clone())
        }
    }
}

} // verus!
