//! Semi-fungible tokens: discovery in the catalog, and the table in which
//! their balances are resolved.
//!
//! Discovery reads the catalog document and keeps the tokens of one
//! contract, in a hash map keyed by token identifier. Beside the map the
//! table keeps the identifiers in the order in which they first appeared,
//! so that the balance queries and the snapshot's lists come in a fixed
//! order. Resolution then records, token by token, the balance that the
//! contract reports; the caller performs the on-chain queries.

use crate::category::ERC1155;
use crate::error::ParseError;
use crate::json::{items, json_document, json_items, json_member, json_text, member,
    parse_document, text};
use crate::text::{decimal, i64_to_string, lowercase, lowercase_of, parse_u64, parsed_u64,
    same_text, signed_decimal, u64_to_string};
use serde_json::Value;
use std::collections::HashMap;
use vstd::prelude::*;
use vstd::seq_lib::seq_to_set_is_finite;
use vstd::set_lib::lemma_subset_equality;
use vstd::std_specs::hash::*;
use vstd::string::*;

verus! {

/// One token definition with the balance that a wallet holds of it.
#[derive(Debug, Clone)]
pub struct TokenInfo {
    pub erc: ERC1155,
    pub token_id: u64,
    pub name: String,
    pub id: String,
    pub category: String,
    pub rarity: String,
    pub description: String,
    pub image_url: String,
    pub balance: i64,
}

/// What a `TokenInfo` holds, as plain values.
pub struct TokenView {
    pub erc: ERC1155,
    pub token_id: u64,
    pub name: Seq<char>,
    pub id: Seq<char>,
    pub category: Seq<char>,
    pub rarity: Seq<char>,
    pub description: Seq<char>,
    pub image_url: Seq<char>,
    pub balance: i64,
}

impl View for TokenInfo {
    type V = TokenView;

    open spec fn view(&self) -> TokenView {
        TokenView {
            erc: self.erc,
            token_id: self.token_id,
            name: self.name@,
            id: self.id@,
            category: self.category@,
            rarity: self.rarity@,
            description: self.description@,
            image_url: self.image_url@,
            balance: self.balance,
        }
    }
}

impl TokenInfo {
    /// The two-field form that goes into the wallet document: the token
    /// identifier, then the balance, both in decimal notation.
    pub fn minimal(&self) -> (r: [String; 2])
        ensures
            r@[0]@ == decimal(self.token_id as nat),
            r@[1]@ == signed_decimal(self.balance as int),
    {
        [u64_to_string(self.token_id), i64_to_string(self.balance)]
    }

    /// A copy of this token with another balance.
    pub fn with_balance(&self, balance: i64) -> (r: TokenInfo)
        ensures
            r@ == (TokenView { balance: balance, ..self@ }),
    {
        TokenInfo {
            erc: self.erc,
            token_id: self.token_id,
            name: self.name.clone(),
            id: self.id.clone(),
            category: self.category.clone(),
            rarity: self.rarity.clone(),
            description: self.description.clone(),
            image_url: self.image_url.clone(),
            balance,
        }
    }
}

/// The views of the tokens in `v`, in order.
pub open spec fn views(v: Seq<TokenInfo>) -> Seq<TokenView> {
    Seq::new(v.len(), |i: int| v[i]@)
}

/// No token identifier occurs twice in `s`.
pub open spec fn distinct_ids(s: Seq<TokenView>) -> bool {
    forall|i: int, j: int| 0 <= i < j < s.len() ==> s[i].token_id != s[j].token_id
}

/// Whether `s` has a token with the identifier `id`.
pub open spec fn holds(s: Seq<TokenView>, id: u64) -> bool {
    exists|i: int| 0 <= i < s.len() && (#[trigger] s[i]).token_id == id
}

/// Whether `i` is the first place in `s` of a token with the identifier
/// `id`.
pub open spec fn is_slot(s: Seq<TokenView>, id: u64, i: int) -> bool {
    0 <= i < s.len() && s[i].token_id == id && forall|j: int|
        0 <= j < i ==> (#[trigger] s[j]).token_id != id
}

/// The first place in `s` of a token with the identifier `id`.
pub open spec fn slot_of(s: Seq<TokenView>, id: u64) -> int {
    choose|i: int| is_slot(s, id, i)
}

/// The first place of `id` is the only one that `is_slot` accepts.
pub proof fn lemma_slot_is(s: Seq<TokenView>, id: u64, i: int)
    requires
        is_slot(s, id, i),
    ensures
        holds(s, id),
        slot_of(s, id) == i,
{
    let c = slot_of(s, id);
    assert(is_slot(s, id, c));
    if c < i {
        assert(s[c].token_id != id);
    } else if c > i {
        assert(s[i].token_id != id);
    }
}

/// `s` after `t` was entered: `t` takes the first place of a token with
/// its identifier, or comes last where there is none.
pub open spec fn upserted(s: Seq<TokenView>, t: TokenView) -> Seq<TokenView> {
    if holds(s, t.token_id) {
        Seq::new(
            s.len(),
            |i: int|
                if is_slot(s, t.token_id, i) {
                    t
                } else {
                    s[i]
                },
        )
    } else {
        s.push(t)
    }
}

/// `s` after the balance of the token `id` was set, at the first place of
/// that identifier; unchanged where `s` has no such token.
pub open spec fn with_balance_set(s: Seq<TokenView>, id: u64, balance: i64) -> Seq<TokenView> {
    Seq::new(
        s.len(),
        |i: int|
            if is_slot(s, id, i) {
                TokenView { balance: balance, ..s[i] }
            } else {
                s[i]
            },
    )
}

/// The token that `s` holds under the identifier `id`.
pub open spec fn lookup(s: Seq<TokenView>, id: u64) -> Option<TokenView> {
    if holds(s, id) {
        Some(s[slot_of(s, id)])
    } else {
        None
    }
}

/// A token identifier that occurs in `s` has a first place there.
pub proof fn lemma_slot_exists(s: Seq<TokenView>, id: u64, k: int)
    requires
        0 <= k < s.len(),
        s[k].token_id == id,
    ensures
        holds(s, id),
        is_slot(s, id, slot_of(s, id)),
        slot_of(s, id) <= k,
    decreases k,
{
    if forall|j: int| 0 <= j < k ==> (#[trigger] s[j]).token_id != id {
        lemma_slot_is(s, id, k);
    } else {
        let j = choose|j: int| 0 <= j < k && (#[trigger] s[j]).token_id == id;
        lemma_slot_exists(s, id, j);
    }
}

/// Two rows with the same identifiers hold each identifier at the same
/// place.
proof fn lemma_slots_by_ids(a: Seq<TokenView>, b: Seq<TokenView>, id: u64)
    requires
        ids_of(a) == ids_of(b),
    ensures
        holds(a, id) == holds(b, id),
        holds(a, id) ==> slot_of(a, id) == slot_of(b, id) && is_slot(a, id, slot_of(a, id)),
{
    assert(a.len() == ids_of(a).len());
    assert(b.len() == ids_of(b).len());
    assert forall|i: int| 0 <= i < a.len() implies (#[trigger] a[i]).token_id == b[i].token_id by {
        assert(ids_of(a)[i] == a[i].token_id);
        assert(ids_of(b)[i] == b[i].token_id);
    }
    assert forall|i: int| 0 <= i < b.len() implies (#[trigger] b[i]).token_id == a[i].token_id by {
        assert(a[i].token_id == b[i].token_id);
    }
    if holds(a, id) {
        let k = choose|k: int| 0 <= k < a.len() && (#[trigger] a[k]).token_id == id;
        lemma_slot_exists(a, id, k);
        let c = slot_of(a, id);
        assert(b[c].token_id == id);
        assert forall|j: int| 0 <= j < c implies (#[trigger] b[j]).token_id != id by {
            assert(a[j].token_id != id);
        }
        lemma_slot_is(b, id, c);
    }
    if holds(b, id) {
        let k = choose|k: int| 0 <= k < b.len() && (#[trigger] b[k]).token_id == id;
        assert(a[k].token_id == id);
    }
}

/// The table is a map from identifier to token. Entering a token puts it
/// under its identifier, in place of the token that was there, and leaves
/// every other identifier as it was: of two tokens with one identifier
/// the later one stands.
pub proof fn lemma_insert_overwrites(s: Seq<TokenView>, t: TokenView, id: u64)
    ensures
        lookup(upserted(s, t), id) == if id == t.token_id {
            Some(t)
        } else {
            lookup(s, id)
        },
{
    let after = upserted(s, t);
    if holds(s, t.token_id) {
        let k = choose|k: int| 0 <= k < s.len() && (#[trigger] s[k]).token_id == t.token_id;
        lemma_slot_exists(s, t.token_id, k);
        assert(ids_of(after) =~= ids_of(s));
        lemma_slots_by_ids(s, after, id);
    } else {
        if id == t.token_id {
            assert(after[s.len() as int] == t);
            assert forall|j: int| 0 <= j < s.len() implies (#[trigger] after[j]).token_id != id by {
                assert(s[j].token_id != id);
            }
            lemma_slot_is(after, id, s.len() as int);
        } else if holds(s, id) {
            let k = choose|k: int| 0 <= k < s.len() && (#[trigger] s[k]).token_id == id;
            lemma_slot_exists(s, id, k);
            let c = slot_of(s, id);
            assert(after[c] == s[c]);
            assert forall|j: int| 0 <= j < c implies (#[trigger] after[j]).token_id != id by {
                assert(s[j].token_id != id);
            }
            lemma_slot_is(after, id, c);
        } else {
            if holds(after, id) {
                let k = choose|k: int|
                    0 <= k < after.len() && (#[trigger] after[k]).token_id == id;
                if k < s.len() {
                    assert(s[k].token_id == id);
                }
            }
        }
    }
}

/// Setting the balance of one identifier changes the balance of the token
/// under it and nothing else: every other identifier keeps its token.
pub proof fn lemma_balance_is_set(s: Seq<TokenView>, id: u64, balance: i64, other: u64)
    ensures
        lookup(with_balance_set(s, id, balance), other) == match lookup(s, other) {
            Some(t) => if other == id {
                Some(TokenView { balance: balance, ..t })
            } else {
                Some(t)
            },
            None => None,
        },
{
    let after = with_balance_set(s, id, balance);
    assert(ids_of(after) =~= ids_of(s));
    lemma_slots_by_ids(s, after, other);
}

/// `s` with the balance of each token replaced by the one that stands at
/// the same place in `balances`.
pub open spec fn resolved(s: Seq<TokenView>, balances: Seq<i64>) -> Seq<TokenView> {
    Seq::new(s.len(), |i: int| TokenView { balance: balances[i], ..s[i] })
}

/// The token identifiers of `s`, in order.
pub open spec fn ids_of(s: Seq<TokenView>) -> Seq<u64> {
    Seq::new(s.len(), |i: int| s[i].token_id)
}

/// Whether identifiers are distinct depends on the identifiers alone.
proof fn lemma_distinct_by_ids(a: Seq<TokenView>, b: Seq<TokenView>)
    requires
        ids_of(a) == ids_of(b),
    ensures
        distinct_ids(a) == distinct_ids(b),
{
    assert(a.len() == ids_of(a).len());
    assert(b.len() == ids_of(b).len());
    assert forall|i: int| 0 <= i < a.len() implies a[i].token_id == b[i].token_id by {
        assert(ids_of(a)[i] == a[i].token_id);
        assert(ids_of(b)[i] == b[i].token_id);
    }
}

/// The tokens of one contract, keyed by token identifier. `order` holds
/// the identifiers in the order in which they were first entered.
pub struct TokenTable {
    pub tokens: HashMap<u64, TokenInfo>,
    pub order: Vec<u64>,
}

impl View for TokenTable {
    type V = Seq<TokenView>;

    open spec fn view(&self) -> Seq<TokenView> {
        Seq::new(self.order@.len(), |i: int| self.tokens@[self.order@[i]]@)
    }
}

impl TokenTable {
    /// The order names every key of the map once, and each token stands
    /// under its own identifier.
    pub open spec fn well_formed(&self) -> bool {
        &&& self.order@.no_duplicates()
        &&& self.tokens@.len() == self.order@.len()
        &&& forall|i: int|
            0 <= i < self.order@.len() ==> self.tokens@.contains_key(#[trigger] self.order@[i])
                && self.tokens@[self.order@[i]].token_id == self.order@[i]
    }

    /// In a well-formed table the view lists the tokens of the map: its
    /// identifiers are those of the order, they are distinct, and an
    /// identifier occurs in it exactly where the map has it as a key.
    pub proof fn lemma_well_formed(&self)
        requires
            self.well_formed(),
        ensures
            ids_of(self@) == self.order@,
            distinct_ids(self@),
            forall|k: u64| self.tokens@.contains_key(k) <==> self.order@.contains(k),
            forall|k: u64| holds(self@, k) <==> self.tokens@.contains_key(k),
            forall|k: u64, i: int|
                0 <= i < self.order@.len() ==> (is_slot(self@, k, i) <==> self.order@[i] == k),
    {
        broadcast use group_hash_axioms;

        let order = self.order@;
        let keys = order.to_set();
        order.unique_seq_to_set();
        seq_to_set_is_finite(order);
        assert(keys.subset_of(self.tokens@.dom())) by {
            assert forall|k: u64| keys.contains(k) implies self.tokens@.dom().contains(k) by {
                let i = choose|i: int| 0 <= i < order.len() && order[i] == k;
                assert(self.tokens@.contains_key(order[i]));
            }
        }
        lemma_subset_equality(keys, self.tokens@.dom());
        assert forall|k: u64| self.tokens@.contains_key(k) <==> order.contains(k) by {
            assert(keys.contains(k) == self.tokens@.dom().contains(k));
        }
        assert(ids_of(self@) =~= order);
        assert forall|k: u64| holds(self@, k) <==> self.tokens@.contains_key(k) by {
            if holds(self@, k) {
                let i = choose|i: int| 0 <= i < self@.len() && (#[trigger] self@[i]).token_id == k;
                assert(order[i] == k);
            }
            if self.tokens@.contains_key(k) {
                let i = choose|i: int| 0 <= i < order.len() && order[i] == k;
                assert(self@[i].token_id == k);
            }
        }
        assert forall|k: u64, i: int| 0 <= i < order.len() implies (is_slot(self@, k, i)
            <==> order[i] == k) by {
            if order[i] == k {
                assert forall|j: int| 0 <= j < i implies (#[trigger] self@[j]).token_id != k by {
                    assert(order[j] != order[i]);
                }
            }
        }
    }

    /// A table without tokens.
    pub fn new() -> (r: TokenTable)
        ensures
            r@ == Seq::<TokenView>::empty(),
            r.well_formed(),
    {
        let r = TokenTable { tokens: HashMap::new(), order: Vec::new() };
        assert(r@ =~= Seq::<TokenView>::empty());
        assert(r.tokens@.dom() =~= Set::<u64>::empty());
        r
    }

    /// Tests whether the order names every key of the map once and each
    /// token stands under its own identifier.
    pub fn is_well_formed(&self) -> (r: bool)
        ensures
            r == self.well_formed(),
    {
        broadcast use group_hash_axioms;

        let n = self.order.len();
        if self.tokens.len() != n {
            return false;
        }
        let mut j: usize = 0;
        while j < n
            invariant
                j <= n,
                n == self.order@.len(),
                self.tokens@.len() == n,
                forall|a: int, b: int| 0 <= a < b < j ==> self.order@[a] != self.order@[b],
                forall|a: int|
                    0 <= a < j ==> self.tokens@.contains_key(#[trigger] self.order@[a])
                        && self.tokens@[self.order@[a]].token_id == self.order@[a],
            decreases n - j,
        {
            let id = self.order[j];
            match self.tokens.get(&id) {
                Some(t) => {
                    if t.token_id != id {
                        assert(self.tokens@[id].token_id != id);
                        assert(id == self.order@[j as int]);
                        return false;
                    }
                },
                None => {
                    assert(!self.tokens@.contains_key(self.order@[j as int]));
                    return false;
                },
            }
            let mut i: usize = 0;
            while i < j
                invariant
                    i <= j,
                    j < n,
                    n == self.order@.len(),
                    id == self.order@[j as int],
                    forall|a: int| 0 <= a < i ==> self.order@[a] != id,
                decreases j - i,
            {
                if self.order[i] == id {
                    assert(self.order@[i as int] == self.order@[j as int]);
                    return false;
                }
                i += 1;
            }
            j += 1;
        }
        assert forall|a: int, b: int|
            0 <= a < n && 0 <= b < n && a != b implies self.order@[a] != self.order@[b] by {
            if a < b {
                assert(self.order@[a] != self.order@[b]);
            } else {
                assert(self.order@[b] != self.order@[a]);
            }
        }
        true
    }

    /// The number of tokens.
    pub fn len(&self) -> (r: usize)
        ensures
            r == self@.len(),
    {
        self.order.len()
    }

    /// The token at place `i` of the order, if the table has that many.
    pub fn token_at(&self, i: usize) -> (r: Option<&TokenInfo>)
        ensures
            i >= self@.len() ==> r is None,
            self.well_formed() && i < self@.len() ==> match r {
                Some(t) => t@ == self@[i as int],
                None => false,
            },
    {
        broadcast use group_hash_axioms;

        if i < self.order.len() {
            let id = self.order[i];
            proof {
                if self.well_formed() {
                    assert(self.tokens@.contains_key(self.order@[i as int]));
                }
            }
            self.tokens.get(&id)
        } else {
            None
        }
    }

    /// The token `id`, if the table has it.
    pub fn get(&self, id: u64) -> (r: Option<&TokenInfo>)
        requires
            self.well_formed(),
        ensures
            match r {
                Some(t) => lookup(self@, id) == Some(t@),
                None => lookup(self@, id).is_none(),
            },
    {
        broadcast use group_hash_axioms;

        proof {
            self.lemma_well_formed();
        }
        let r = self.tokens.get(&id);
        proof {
            if self.tokens@.contains_key(id) {
                let i = choose|i: int| 0 <= i < self.order@.len() && self.order@[i] == id;
                assert(is_slot(self@, id, i));
                lemma_slot_is(self@, id, i);
            }
        }
        r
    }

    /// Enters a token. One that is already there under the same
    /// identifier is overwritten and keeps its place; a new identifier
    /// comes last.
    pub fn insert(&mut self, token: TokenInfo)
        requires
            old(self).well_formed(),
        ensures
            final(self).well_formed(),
            final(self)@ == upserted(old(self)@, token@),
    {
        broadcast use group_hash_axioms;

        proof {
            old(self).lemma_well_formed();
        }
        let id = token.token_id;
        let had = self.tokens.contains_key(&id);
        self.tokens.insert(id, token);
        if had {
            proof {
                assert(self.tokens@.dom() =~= old(self).tokens@.dom());
                assert(self@ =~= upserted(old(self)@, token@));
            }
        } else {
            self.order.push(id);
            proof {
                assert(!old(self).order@.contains(id));
                assert(self.tokens@.dom() =~= old(self).tokens@.dom().insert(id));
                assert(self@ =~= old(self)@.push(token@));
                assert forall|i: int, j: int|
                    0 <= i < self.order@.len() && 0 <= j < self.order@.len() && i
                        != j implies self.order@[i] != self.order@[j] by {
                    if i < old(self).order@.len() {
                        assert(old(self).order@.contains(old(self).order@[i]));
                    }
                    if j < old(self).order@.len() {
                        assert(old(self).order@.contains(old(self).order@[j]));
                    }
                }
            }
        }
    }

    /// Records the balance that the contract reported for the token `id`.
    /// The other tokens keep theirs; an identifier that the table does not
    /// have changes nothing.
    pub fn set_balance(&mut self, id: u64, balance: i64)
        requires
            old(self).well_formed(),
        ensures
            final(self).well_formed(),
            final(self)@ == with_balance_set(old(self)@, id, balance),
    {
        broadcast use group_hash_axioms;

        proof {
            old(self).lemma_well_formed();
        }
        let updated = match self.tokens.get(&id) {
            Some(t) => Some(t.with_balance(balance)),
            None => None,
        };
        match updated {
            Some(u) => {
                self.tokens.insert(id, u);
                proof {
                    assert(self.tokens@.dom() =~= old(self).tokens@.dom());
                    assert(self@ =~= with_balance_set(old(self)@, id, balance));
                }
            },
            None => {
                assert(self@ =~= with_balance_set(old(self)@, id, balance));
            },
        }
    }

    /// Records the balances of all tokens at once: `balances` holds one
    /// for each identifier of `token_ids`, in that order. Every token gets
    /// its balance and keeps everything else. A row of another length is
    /// refused, and the table stays as it was.
    pub fn resolve(&mut self, balances: &Vec<i64>) -> (r: bool)
        requires
            old(self).well_formed(),
        ensures
            final(self).well_formed(),
            r == (balances@.len() == old(self)@.len()),
            r ==> final(self)@ == resolved(old(self)@, balances@),
            !r ==> *final(self) == *old(self),
            ids_of(final(self)@) == ids_of(old(self)@),
    {
        broadcast use group_hash_axioms;

        let n = self.order.len();
        if balances.len() != n {
            return false;
        }
        let mut i: usize = 0;
        while i < n
            invariant
                i <= n,
                n == balances@.len(),
                self.order@ == old(self).order@,
                n == self.order@.len(),
                old(self).well_formed(),
                self.well_formed(),
                forall|j: int|
                    0 <= j < i ==> self@[j] == (TokenView {
                        balance: balances@[j],
                        ..old(self)@[j]
                    }),
                forall|j: int| i <= j < n ==> self@[j] == old(self)@[j],
            decreases n - i,
        {
            let id = self.order[i];
            let ghost before = *self;
            proof {
                assert(self.tokens@.contains_key(self.order@[i as int]));
                assert(before@[i as int] == old(self)@[i as int]);
            }
            let updated = match self.tokens.get(&id) {
                Some(t) => Some(t.with_balance(balances[i])),
                None => None,
            };
            assert(match updated {
                Some(u) => u@ == (TokenView {
                    balance: balances@[i as int],
                    ..before@[i as int]
                }),
                None => false,
            });
            match updated {
                Some(u) => {
                    self.tokens.insert(id, u);
                    proof {
                        assert(self.tokens@.dom() =~= before.tokens@.dom());
                        assert forall|j: int| 0 <= j < n && j != i implies self@[j]
                            == before@[j] by {
                            assert(self.order@[j] != self.order@[i as int]);
                        }
                        assert(self@[i as int] == u@);
                        assert forall|j: int| 0 <= j < i + 1 implies self@[j] == (TokenView {
                            balance: balances@[j],
                            ..old(self)@[j]
                        }) by {
                            if j < i {
                                assert(self@[j] == before@[j]);
                            }
                        }
                        assert forall|j: int| i + 1 <= j < n implies self@[j] == old(self)@[j] by {
                            assert(self@[j] == before@[j]);
                        }
                    }
                },
                None => {},
            }
            i += 1;
        }
        assert(self@ =~= resolved(old(self)@, balances@));
        assert(ids_of(self@) =~= ids_of(old(self)@));
        true
    }

    /// The identifiers for which a balance has to be queried, in the
    /// order of the table.
    pub fn token_ids(&self) -> (r: Vec<u64>)
        ensures
            r@ == self.order@,
            self.well_formed() ==> r@ == ids_of(self@),
    {
        let mut ids: Vec<u64> = Vec::new();
        let mut i: usize = 0;
        while i < self.order.len()
            invariant
                i <= self.order.len(),
                ids@.len() == i,
                forall|j: int| 0 <= j < i ==> ids@[j] == self.order@[j],
            decreases self.order.len() - i,
        {
            ids.push(self.order[i]);
            i += 1;
        }
        assert(ids@ =~= self.order@);
        proof {
            if self.well_formed() {
                self.lemma_well_formed();
            }
        }
        ids
    }
}

/// The text under `key` in `v`: present only where `v` is an object whose
/// member under `key` is a string.
pub open spec fn text_member(v: Value, key: Seq<char>) -> Option<Seq<char>> {
    match json_member(v, key) {
        Some(m) => json_text(m),
        None => None,
    }
}

/// Whether a catalog entry describes a token of the contract of `erc`: its
/// token standard is `ERC1155`, and its contract address, in lower case, is
/// that of `erc`.
pub open spec fn matches_contract(entry: Value, erc: ERC1155) -> bool {
    match json_member(entry, "item"@) {
        None => false,
        Some(inner) => text_member(inner, "tokenStandard"@) == Some("ERC1155"@) && match text_member(
            inner,
            "tokenAddress"@,
        ) {
            Some(address) => lowercase_of(address) == erc.contract_text(),
            None => false,
        },
    }
}

/// The descriptor that the body of a catalog entry gives for the token
/// `token_id`, with no balance yet. All six describing fields must be text.
pub open spec fn described(inner: Value, erc: ERC1155, token_id: u64) -> Option<TokenView> {
    match (
        text_member(inner, "name"@),
        text_member(inner, "id"@),
        text_member(inner, "category"@),
        text_member(inner, "rarity"@),
        text_member(inner, "description"@),
        text_member(inner, "imageUrl"@),
    ) {
        (Some(name), Some(id), Some(category), Some(rarity), Some(description), Some(image_url)) => Some(
            TokenView {
                erc,
                token_id,
                name,
                id,
                category,
                rarity,
                description,
                image_url,
                balance: 0,
            },
        ),
        _ => None,
    }
}

/// The token identifier that an entry of the right standard stands for,
/// given its contract address in lower case and the text of its token
/// identifier, if it has one. An entry of another contract stands for
/// none, and neither does one without an identifier or with the
/// identifier zero; an identifier that is no unsigned decimal number is a
/// fault.
pub open spec fn token_id_for(
    lowered_address: Seq<char>,
    id_text: Option<Seq<char>>,
    erc: ERC1155,
) -> Result<Option<u64>, ParseError> {
    if lowered_address != erc.contract_text() {
        Ok(None)
    } else {
        match id_text {
            None => Ok(None),
            Some(t) => match parsed_u64(t) {
                None => Err(ParseError::InvalidTokenId),
                Some(token_id) => if token_id == 0 {
                    Ok(None)
                } else {
                    Ok(Some(token_id))
                },
            },
        }
    }
}

/// What one catalog entry contributes: nothing, a token, or a fault.
///
/// An entry of another standard or another contract contributes nothing,
/// and neither does one whose token identifier is absent, not text, or
/// zero. An entry of the right standard must carry its contract address as
/// text; a token identifier that is text must be a number; and a token that
/// is kept must have all its describing fields.
pub open spec fn entry_outcome(entry: Value, erc: ERC1155) -> Result<Option<TokenView>, ParseError> {
    match json_member(entry, "item"@) {
        None => Ok(None),
        Some(inner) => if text_member(inner, "tokenStandard"@) != Some("ERC1155"@) {
            Ok(None)
        } else {
            match text_member(inner, "tokenAddress"@) {
                None => Err(ParseError::NotText),
                Some(address) => match token_id_for(
                    lowercase_of(address),
                    text_member(inner, "tokenId"@),
                    erc,
                ) {
                    Err(e) => Err(e),
                    Ok(None) => Ok(None),
                    Ok(Some(token_id)) => match described(inner, erc, token_id) {
                        Some(t) => Ok(Some(t)),
                        None => Err(ParseError::NotText),
                    },
                },
            }
        },
    }
}

/// The tokens that a row of catalog entries yields for `erc`, entered one
/// after the other; the first fault ends the reading.
pub open spec fn discovered(entries: Seq<Value>, erc: ERC1155) -> Result<Seq<TokenView>, ParseError>
    decreases entries.len(),
{
    if entries.len() == 0 {
        Ok(Seq::empty())
    } else {
        match discovered(entries.drop_last(), erc) {
            Err(e) => Err(e),
            Ok(s) => match entry_outcome(entries.last(), erc) {
                Err(e) => Err(e),
                Ok(None) => Ok(s),
                Ok(Some(t)) => Ok(upserted(s, t)),
            },
        }
    }
}

/// What the body of a catalog response holds for `erc`: the tokens
/// discovered among the entries of its `_items` array.
pub open spec fn catalog(body: Seq<char>, erc: ERC1155) -> Result<Seq<TokenView>, ParseError> {
    match json_document(body) {
        None => Err(ParseError::InvalidJson),
        Some(doc) => match json_member(doc, "_items"@) {
            None => Err(ParseError::MissingField),
            Some(field) => match json_items(field) {
                None => Err(ParseError::NotAnArray),
                Some(entries) => discovered(entries, erc),
            },
        },
    }
}

fn text_field<'a>(v: &'a Value, key: &str) -> (r: Option<&'a str>)
    ensures
        match r {
            Some(t) => text_member(*v, key@) == Some(t@),
            None => text_member(*v, key@).is_none(),
        },
{
    match member(v, key) {
        Some(m) => text(m),
        None => None,
    }
}

fn describe(inner: &Value, erc: ERC1155, token_id: u64) -> (r: Option<TokenInfo>)
    ensures
        match r {
            Some(t) => described(*inner, erc, token_id) == Some(t@),
            None => described(*inner, erc, token_id).is_none(),
        },
{
    let name = match text_field(inner, "name") {
        Some(t) => t,
        None => {
            return None;
        },
    };
    let id = match text_field(inner, "id") {
        Some(t) => t,
        None => {
            return None;
        },
    };
    let category = match text_field(inner, "category") {
        Some(t) => t,
        None => {
            return None;
        },
    };
    let rarity = match text_field(inner, "rarity") {
        Some(t) => t,
        None => {
            return None;
        },
    };
    let description = match text_field(inner, "description") {
        Some(t) => t,
        None => {
            return None;
        },
    };
    let image_url = match text_field(inner, "imageUrl") {
        Some(t) => t,
        None => {
            return None;
        },
    };
    Some(
        TokenInfo {
            erc,
            token_id,
            name: String::from_str(name),
            id: String::from_str(id),
            category: String::from_str(category),
            rarity: String::from_str(rarity),
            description: String::from_str(description),
            image_url: String::from_str(image_url),
            balance: 0,
        },
    )
}

/// Decides which token identifier an entry of the right standard stands
/// for, from its contract address in lower case and the text of its token
/// identifier.
pub fn token_id_of_entry(lowered_address: &str, id_text: Option<&str>, erc: ERC1155) -> (r: Result<
    Option<u64>,
    ParseError,
>)
    ensures
        r == token_id_for(
            lowered_address@,
            match id_text {
                Some(t) => Some(t@),
                None => None,
            },
            erc,
        ),
{
    if !same_text(lowered_address, erc.contract_address()) {
        return Ok(None);
    }
    match id_text {
        None => Ok(None),
        Some(t) => match parse_u64(t) {
            None => Err(ParseError::InvalidTokenId),
            Some(token_id) => if token_id == 0 {
                Ok(None)
            } else {
                Ok(Some(token_id))
            },
        },
    }
}

/// Reads one catalog entry for `erc`.
pub fn read_entry(entry: &Value, erc: ERC1155) -> (r: Result<Option<TokenInfo>, ParseError>)
    ensures
        match r {
            Ok(Some(t)) => entry_outcome(*entry, erc) == Ok::<Option<TokenView>, ParseError>(
                Some(t@),
            ),
            Ok(None) => entry_outcome(*entry, erc) == Ok::<Option<TokenView>, ParseError>(None),
            Err(e) => entry_outcome(*entry, erc) == Err::<Option<TokenView>, ParseError>(e),
        },
{
    let inner = match member(entry, "item") {
        Some(inner) => inner,
        None => {
            return Ok(None);
        },
    };
    let standard = match text_field(inner, "tokenStandard") {
        Some(t) => same_text(t, "ERC1155"),
        None => false,
    };
    if !standard {
        return Ok(None);
    }
    let address = match text_field(inner, "tokenAddress") {
        Some(a) => a,
        None => {
            return Err(ParseError::NotText);
        },
    };
    let lowered = lowercase(address);
    let id_text = text_field(inner, "tokenId");
    match token_id_of_entry(lowered.as_str(), id_text, erc) {
        Err(e) => Err(e),
        Ok(None) => Ok(None),
        Ok(Some(token_id)) => match describe(inner, erc, token_id) {
            Some(t) => Ok(Some(t)),
            None => Err(ParseError::NotText),
        },
    }
}

/// Whether one of `entries` yields the token `t` for `erc`.
pub open spec fn stems_from(t: TokenView, entries: Seq<Value>, erc: ERC1155) -> bool {
    exists|j: int|
        0 <= j < entries.len() && matches_contract(#[trigger] entries[j], erc) && entry_outcome(
            entries[j],
            erc,
        ) == Ok::<Option<TokenView>, ParseError>(Some(t))
}

/// An entry yields a token only where it is of the contract of `erc`; the
/// token then is of kind `erc`, has a non-zero identifier and no balance.
pub proof fn lemma_outcome_of_contract(entry: Value, erc: ERC1155)
    ensures
        match entry_outcome(entry, erc) {
            Ok(Some(t)) => matches_contract(entry, erc) && t.erc == erc && t.token_id != 0
                && t.balance == 0,
            _ => true,
        },
{
}

/// Discovery filters by contract: every token that it returns stems from
/// an entry whose token standard is `ERC1155` and whose contract address,
/// whatever its case, is that of `erc`. The tokens have distinct non-zero
/// identifiers, the kind `erc`, and balance zero.
pub proof fn lemma_discovery_filters(entries: Seq<Value>, erc: ERC1155)
    ensures
        match discovered(entries, erc) {
            Ok(s) => distinct_ids(s) && forall|i: int|
                0 <= i < s.len() ==> stems_from(#[trigger] s[i], entries, erc) && s[i].erc == erc
                    && s[i].token_id != 0 && s[i].balance == 0,
            Err(_) => true,
        },
    decreases entries.len(),
{
    if entries.len() > 0 {
        let front = entries.drop_last();
        lemma_discovery_filters(front, erc);
        lemma_outcome_of_contract(entries.last(), erc);
        match discovered(front, erc) {
            Ok(s) => {
                assert forall|i: int| 0 <= i < s.len() implies stems_from(
                    #[trigger] s[i],
                    entries,
                    erc,
                ) by {
                    let j = choose|j: int|
                        0 <= j < front.len() && matches_contract(#[trigger] front[j], erc)
                            && entry_outcome(front[j], erc) == Ok::<Option<TokenView>, ParseError>(
                            Some(s[i]),
                        );
                    assert(front[j] == entries[j]);
                }
                match entry_outcome(entries.last(), erc) {
                    Ok(Some(t)) => {
                        let n = entries.len() - 1;
                        assert(entries[n] == entries.last());
                        assert(stems_from(t, entries, erc));
                        let after = upserted(s, t);
                        if holds(s, t.token_id) {
                            assert(ids_of(after) =~= ids_of(s));
                            lemma_distinct_by_ids(s, after);
                        }
                        assert(distinct_ids(after));
                    },
                    _ => {},
                }
            },
            Err(_) => {},
        }
    }
}

/// Once a fault has ended the reading, further entries change nothing.
proof fn lemma_fault_stays(entries: Seq<Value>, k: int, erc: ERC1155)
    requires
        0 <= k <= entries.len(),
        discovered(entries.take(k), erc) is Err,
    ensures
        discovered(entries, erc) == discovered(entries.take(k), erc),
    decreases entries.len() - k,
{
    if k == entries.len() {
        assert(entries.take(k) =~= entries);
    } else {
        assert(entries.drop_last().take(k) =~= entries.take(k));
        lemma_fault_stays(entries.drop_last(), k, erc);
    }
}

/// Discovers the tokens of `erc` among catalog entries. Every token starts
/// with balance zero; where two entries carry one identifier, the later
/// one stands, in the earlier one's place.
pub fn discover(entries: &Vec<Value>, erc: ERC1155) -> (r: Result<TokenTable, ParseError>)
    ensures
        match r {
            Ok(table) => table.well_formed() && discovered(entries@, erc) == Ok::<
                Seq<TokenView>,
                ParseError,
            >(table@),
            Err(e) => discovered(entries@, erc) == Err::<Seq<TokenView>, ParseError>(e),
        },
{
    let mut table = TokenTable::new();
    let mut i: usize = 0;
    assert(entries@.take(0) =~= Seq::<Value>::empty());
    while i < entries.len()
        invariant
            i <= entries.len(),
            table.well_formed(),
            discovered(entries@.take(i as int), erc) == Ok::<Seq<TokenView>, ParseError>(table@),
        decreases entries.len() - i,
    {
        proof {
            assert(entries@.take(i + 1).drop_last() =~= entries@.take(i as int));
            assert(entries@.take(i + 1).last() == entries@[i as int]);
        }
        match read_entry(&entries[i], erc) {
            Ok(Some(token)) => {
                table.insert(token);
            },
            Ok(None) => {},
            Err(e) => {
                proof {
                    lemma_fault_stays(entries@, i + 1, erc);
                }
                return Err(e);
            },
        }
        i += 1;
    }
    assert(entries@.take(i as int) =~= entries@);
    Ok(table)
}

/// Reads the body of a catalog response and discovers the tokens of `erc`
/// in its `_items` array.
pub fn parse_catalog(body: &str, erc: ERC1155) -> (r: Result<TokenTable, ParseError>)
    ensures
        match r {
            Ok(table) => table.well_formed() && catalog(body@, erc) == Ok::<
                Seq<TokenView>,
                ParseError,
            >(table@),
            Err(e) => catalog(body@, erc) == Err::<Seq<TokenView>, ParseError>(e),
        },
{
    let doc = match parse_document(body) {
        Ok(doc) => doc,
        Err(_) => {
            return Err(ParseError::InvalidJson);
        },
    };
    let field = match member(&doc, "_items") {
        Some(field) => field,
        None => {
            return Err(ParseError::MissingField);
        },
    };
    match items(field) {
        Some(entries) => discover(entries, erc),
        None => Err(ParseError::NotAnArray),
    }
}

} // verus!
