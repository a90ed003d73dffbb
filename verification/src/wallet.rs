//! The wallet snapshot: what is kept of the resolved tokens, and how the
//! parts are put together.

use crate::resolver::{TokenTable, TokenView};
use crate::text::{decimal, i128_to_string, signed_decimal, u128_to_string};
use vstd::prelude::*;
use vstd::string::*;

verus! {

/// One fungible balance, as the chain reported it.
#[derive(Debug)]
pub struct ERC20Balance {
    pub symbol: String,
    pub balance: String,
}

/// The non-fungible side of a wallet. Every category is present, also
/// where the wallet holds nothing of it.
#[derive(Debug)]
pub struct NonFungibleWallet {
    pub axies: Vec<String>,
    pub lands: Vec<String>,
    pub items: Vec<String>,
    pub runes: Vec<[String; 2]>,
    pub charms: Vec<[String; 2]>,
}

/// The snapshot of one wallet.
#[derive(Debug)]
pub struct Wallet {
    pub wallet: String,
    pub fungible: Vec<ERC20Balance>,
    pub non_fungible: NonFungibleWallet,
}

/// What is kept of one token table: the identifier and balance of each
/// token that the wallet holds, and the sum of those balances.
#[derive(Debug)]
pub struct Holdings {
    pub pairs: Vec<[String; 2]>,
    pub total: i128,
}

/// The sums that the report shows beside the snapshot.
#[derive(Clone, Copy, Debug, PartialEq, Eq, Structural)]
pub struct Totals {
    pub runes: i128,
    pub charms: i128,
}

/// The token identifier and the balance, both in decimal notation, of each
/// token of `s` with a balance above zero, in the order of `s`.
pub open spec fn held_pairs(s: Seq<TokenView>) -> Seq<(Seq<char>, Seq<char>)>
    decreases s.len(),
{
    if s.len() == 0 {
        Seq::empty()
    } else if s.last().balance > 0 {
        held_pairs(s.drop_last()).push(
            (decimal(s.last().token_id as nat), signed_decimal(s.last().balance as int)),
        )
    } else {
        held_pairs(s.drop_last())
    }
}

/// The sum of the balances above zero in `s`.
pub open spec fn held_total(s: Seq<TokenView>) -> int
    decreases s.len(),
{
    if s.len() == 0 {
        0
    } else if s.last().balance > 0 {
        held_total(s.drop_last()) + s.last().balance
    } else {
        held_total(s.drop_last())
    }
}

/// The two texts of each pair in `v`, in order.
pub open spec fn pair_views(v: Seq<[String; 2]>) -> Seq<(Seq<char>, Seq<char>)> {
    Seq::new(v.len(), |i: int| (v[i]@[0]@, v[i]@[1]@))
}

/// A token without a balance above zero leaves the projection as it was;
/// one with such a balance adds its token identifier and balance, in
/// decimal notation, at the end, and its balance to the total.
pub proof fn lemma_projection_step(s: Seq<TokenView>, t: TokenView)
    ensures
        t.balance <= 0 ==> held_pairs(s.push(t)) == held_pairs(s) && held_total(s.push(t))
            == held_total(s),
        t.balance > 0 ==> held_pairs(s.push(t)) == held_pairs(s).push(
            (decimal(t.token_id as nat), signed_decimal(t.balance as int)),
        ) && held_total(s.push(t)) == held_total(s) + t.balance,
{
    assert(s.push(t).drop_last() =~= s);
    assert(s.push(t).last() == t);
}

/// The total of the first `k` tokens is at most `k` times the largest
/// balance.
proof fn lemma_total_bounds(s: Seq<TokenView>)
    ensures
        0 <= held_total(s) <= s.len() * 0x7fff_ffff_ffff_ffff,
    decreases s.len(),
{
    if s.len() > 0 {
        lemma_total_bounds(s.drop_last());
    }
}

/// Projects a resolved table into what the snapshot keeps of it.
pub fn project(table: &TokenTable) -> (r: Holdings)
    requires
        table.well_formed(),
    ensures
        pair_views(r.pairs@) == held_pairs(table@),
        r.total == held_total(table@),
{
    let mut pairs: Vec<[String; 2]> = Vec::new();
    let mut total: i128 = 0;
    let mut i: usize = 0;
    let n = table.len();
    assert(table@.take(0) =~= Seq::<TokenView>::empty());
    while i < n
        invariant
            i <= n,
            n == table@.len(),
            table.well_formed(),
            pair_views(pairs@) =~= held_pairs(table@.take(i as int)),
            total == held_total(table@.take(i as int)),
        decreases n - i,
    {
        proof {
            assert(table@.take(i + 1).drop_last() =~= table@.take(i as int));
            assert(table@.take(i + 1).last() == table@[i as int]);
            lemma_total_bounds(table@.take(i as int));
        }
        match table.token_at(i) {
            Some(token) => {
                if token.balance > 0 {
                    total = total + (token.balance as i128);
                    pairs.push(token.minimal());
                }
            },
            None => {},
        }
        i += 1;
    }
    assert(table@.take(i as int) =~= table@);
    Holdings { pairs, total }
}

/// Puts the snapshot of one wallet together from the results of all
/// categories. Every list is carried over as it is; of the two token
/// tables the snapshot keeps the projection.
pub fn build_wallet(
    address: String,
    fungible: Vec<ERC20Balance>,
    axies: Vec<String>,
    lands: Vec<String>,
    items: Vec<String>,
    runes: &TokenTable,
    charms: &TokenTable,
) -> (r: (Wallet, Totals))
    requires
        runes.well_formed(),
        charms.well_formed(),
    ensures
        r.0.wallet == address,
        r.0.fungible == fungible,
        r.0.non_fungible.axies == axies,
        r.0.non_fungible.lands == lands,
        r.0.non_fungible.items == items,
        pair_views(r.0.non_fungible.runes@) == held_pairs(runes@),
        pair_views(r.0.non_fungible.charms@) == held_pairs(charms@),
        r.1.runes == held_total(runes@),
        r.1.charms == held_total(charms@),
{
    let rune_holdings = project(runes);
    let charm_holdings = project(charms);
    let totals = Totals { runes: rune_holdings.total, charms: charm_holdings.total };
    let wallet = Wallet {
        wallet: address,
        fungible,
        non_fungible: NonFungibleWallet {
            axies,
            lands,
            items,
            runes: rune_holdings.pairs,
            charms: charm_holdings.pairs,
        },
    };
    (wallet, totals)
}

/// The report that follows an export: the number of assets of each
/// non-fungible kind, and the total balance of each token kind.
pub open spec fn summary_text(axies: nat, lands: nat, items: nat, runes: int, charms: int) -> Seq<
    char,
> {
    "\nResult:\n=================\nAxies: "@ + decimal(axies) + "\nLands: "@ + decimal(lands)
        + "\nItems: "@ + decimal(items) + "\nRunes: "@ + signed_decimal(runes) + "\nCharms: "@
        + signed_decimal(charms)
}

/// Writes the report for a snapshot and the totals that came with it.
pub fn summary(wallet: &Wallet, totals: Totals) -> (r: String)
    ensures
        r@ == summary_text(
            wallet.non_fungible.axies@.len(),
            wallet.non_fungible.lands@.len(),
            wallet.non_fungible.items@.len(),
            totals.runes as int,
            totals.charms as int,
        ),
{
    let mut text = String::from_str("\nResult:\n=================\nAxies: ");
    text.append(u128_to_string(wallet.non_fungible.axies.len() as u128).as_str());
    text.append("\nLands: ");
    text.append(u128_to_string(wallet.non_fungible.lands.len() as u128).as_str());
    text.append("\nItems: ");
    text.append(u128_to_string(wallet.non_fungible.items.len() as u128).as_str());
    text.append("\nRunes: ");
    text.append(i128_to_string(totals.runes).as_str());
    text.append("\nCharms: ");
    text.append(i128_to_string(totals.charms).as_str());
    text
}

} // verus!
