//! The fixed configuration with which the export talks to the index
//! service and to the chain.

use crate::category::{ERC1155, NFT};
use crate::paginator::{page_url, page_url_text};
use crate::retry::RetryPolicy;
use vstd::prelude::*;
use vstd::string::*;

verus! {

/// The name under which every request identifies the export.
pub open spec fn user_agent_text() -> Seq<char> {
    "ronin/wallet-export0.1.0 See: https://github.com/wehmoen/wallet-export"@
}

/// The value of the `user-agent` header of every request.
pub fn user_agent() -> (r: &'static str)
    ensures
        r@ == user_agent_text(),
{
    "ronin/wallet-export0.1.0 See: https://github.com/wehmoen/wallet-export"
}

/// The endpoint of the chain node that answers balance queries.
pub fn rpc_endpoint() -> (r: &'static str)
    ensures
        r@ == "http://localhost:8545"@,
{
    "http://localhost:8545"
}

/// Where the index service is found, and how its requests are retried.
#[derive(Debug)]
pub struct Adapter {
    pub host: String,
    pub retry: RetryPolicy,
}

impl Adapter {
    /// The adapter for the public index service, with the standard retry
    /// policy.
    pub fn new() -> (r: Adapter)
        ensures
            r.host@ == "https://ronin.rest"@,
            r.retry == (RetryPolicy {
                max_n_retries: 25,
                min_retry_interval_secs: 1,
                max_retry_interval_secs: 15,
                backoff_exponent: 2,
            }),
    {
        Adapter { host: String::from_str("https://ronin.rest"), retry: RetryPolicy::standard() }
    }

    /// The address of the catalog document of `erc` on this adapter's
    /// host.
    pub fn catalog_url(&self, erc: ERC1155) -> (r: String)
        ensures
            r@ == self.host@ + erc.catalog_path_text(),
            erc == ERC1155::Rune ==> r@ == self.host@ + "/origin/game/listRunes"@,
            erc == ERC1155::Charm ==> r@ == self.host@ + "/origin/game/listCharms"@,
    {
        let mut url = String::from_str(self.host.as_str());
        url.append(erc.catalog_path());
        url
    }

    /// The address of the page of `nft` identifiers of `address` that
    /// starts at `offset`, on this adapter's host.
    pub fn nft_page_url(&self, nft: NFT, address: &str, offset: usize) -> (r: String)
        ensures
            r@ == page_url_text(self.host@, nft, address@, offset as nat),
    {
        page_url(self.host.as_str(), nft, address, offset)
    }
}

} // verus!
