//! The settings of one run.

use crate::client::AggregationPolicy;
use vstd::prelude::*;

verus! {

/// The RPC node that is asked where no other is named.
pub const DEFAULT_RPC_URL: &'static str = "https://ethereum-rpc.publicnode.com";

/// The settings of one run.
#[derive(Debug, Clone, PartialEq)]
pub struct Config {
    /// Where the report is written as JSON, if anywhere.
    pub output: Option<String>,
    /// Whether the selectors are resolved into signatures.
    pub signatures: bool,
    /// The address of the contract whose code is fetched from the node.
    pub address: Option<String>,
    /// The file that holds the code; it is preferred to the address.
    pub file: Option<String>,
    /// Whether every four-byte push counts as a selector.
    pub deep: bool,
    /// Whether every candidate of a selector is kept, not the best only.
    pub all_matches: bool,
    /// The RPC node to ask.
    pub rpc_url: String,
}

impl Config {
    /// The aggregation policy that the settings ask for.
    pub open spec fn spec_policy(&self) -> AggregationPolicy {
        if self.all_matches {
            AggregationPolicy::AllMatches
        } else {
            AggregationPolicy::FirstMatch
        }
    }

    /// The aggregation policy that the settings ask for: every candidate
    /// where all matches are wanted, else the best of each selector.
    #[verifier::when_used_as_spec(spec_policy)]
    pub fn policy(&self) -> (r: AggregationPolicy)
        ensures
            r == self.spec_policy(),
    {
        if self.all_matches {
            AggregationPolicy::AllMatches
        } else {
            AggregationPolicy::FirstMatch
        }
    }
}

} // verus!
