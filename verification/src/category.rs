//! The asset categories and the fixed configuration that belongs to each.

use vstd::prelude::*;

verus! {

/// The semi-fungible token kinds, each backed by one multi-token contract.
#[derive(Clone, Copy, Debug, PartialEq, Eq, Structural)]
pub enum ERC1155 {
    Rune,
    Charm,
}

/// The non-fungible asset kinds that the index service lists page by page.
#[derive(Clone, Copy, Debug, PartialEq, Eq, Structural)]
pub enum NFT {
    Axie,
    Land,
    Item,
}

impl ERC1155 {
    /// The contract address of this kind, as lower-case hex text.
    pub open spec fn contract_text(self) -> Seq<char> {
        match self {
            ERC1155::Rune => "0xc25970724f032af21d801978c73653c440cf787c"@,
            ERC1155::Charm => "0x814a9c959a3ef6ca44b5e2349e3bba9845393947"@,
        }
    }

    /// The path of the catalog document of this kind on the index host.
    pub open spec fn catalog_path_text(self) -> Seq<char> {
        match self {
            ERC1155::Rune => "/origin/game/listRunes"@,
            ERC1155::Charm => "/origin/game/listCharms"@,
        }
    }

    /// The on-chain contract that holds the balances of this kind.
    pub fn contract_address(self) -> (r: &'static str)
        ensures
            r@ == self.contract_text(),
    {
        match self {
            ERC1155::Rune => "0xc25970724f032af21d801978c73653c440cf787c",
            ERC1155::Charm => "0x814a9c959a3ef6ca44b5e2349e3bba9845393947",
        }
    }

    /// Where on the index host the full catalog of this kind is published.
    pub fn catalog_path(self) -> (r: &'static str)
        ensures
            r@ == self.catalog_path_text(),
    {
        match self {
            ERC1155::Rune => "/origin/game/listRunes",
            ERC1155::Charm => "/origin/game/listCharms",
        }
    }
}

impl NFT {
    /// The name of this kind in a page address and in the page document.
    pub open spec fn key_text(self) -> Seq<char> {
        match self {
            NFT::Axie => "axie"@,
            NFT::Land => "land"@,
            NFT::Item => "item"@,
        }
    }

    /// The path segment of this kind, which is also the field of the page
    /// document that holds the identifiers.
    pub fn key(self) -> (r: &'static str)
        ensures
            r@ == self.key_text(),
    {
        match self {
            NFT::Axie => "axie",
            NFT::Land => "land",
            NFT::Item => "item",
        }
    }
}

} // verus!
