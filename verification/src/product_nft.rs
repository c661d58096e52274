//! The Regen Bazaar impact product NFT: ownership, approvals, impact
//! metadata, prices and an impact score.
//!
//! Token ids are dense and start at 1; the supply is capped. The zero
//! address stands for "no owner": [`ImpactProductNFT::owner_of`] reports it
//! for a token that was never minted, and the entry points reject it as a
//! caller. Role holders (admin, minter, verifier, pauser) are fixed at
//! construction; the host's caller authentication is represented by the
//! caller argument of each role-checked entry point.

use vstd::prelude::*;

verus! {

/// Largest number of tokens that can ever be minted.
pub const MAX_SUPPLY: u128 = 1000;

/// Impact metadata attached to a token.
pub struct ImpactData {
    pub category: String,
    pub impact_value: u128,
    pub location: String,
    pub start_date: u128,
    pub end_date: u128,
    pub beneficiaries: String,
    pub verified: bool,
    pub metadata_uri: String,
}

/// Typed failures of the registry entry points.
#[derive(Clone, Copy, Debug, PartialEq, Eq, Structural)]
pub enum ProductError {
    NotAuthorized,
    Paused,
    EmptyCategory,
    ZeroImpactValue,
    ZeroPrice,
    MaxSupplyReached,
    TokenNotFound,
    NotTokenOwner,
    FromNotOwner,
    NotApproved,
    AlreadyVerified,
    NotEnoughValidators,
    CategoryNotFound,
    NoTokensForCreator,
    NoTokensForCategory,
}

/// Everything stored about one token. The creator is the mint recipient and
/// never changes; the owner starts as the creator and follows transfers.
pub struct ProductToken {
    pub creator: u64,
    pub owner: u64,
    pub approvals: Vec<u64>,
    pub uri: Option<String>,
    pub impact: ImpactData,
    pub price: u128,
}

/// One category's token id list, in mint order.
pub struct CategoryTokens {
    pub name: String,
    pub ids: Vec<u128>,
}

/// An owned copy of impact metadata, field for field.
fn clone_impact(d: &ImpactData) -> (r: ImpactData)
    ensures
        r == *d,
{
    ImpactData {
        category: d.category.clone(),
        impact_value: d.impact_value,
        location: d.location.clone(),
        start_date: d.start_date,
        end_date: d.end_date,
        beneficiaries: d.beneficiaries.clone(),
        verified: d.verified,
        metadata_uri: d.metadata_uri.clone(),
    }
}

/// An owned copy of a `u64` list.
fn clone_addrs(v: &Vec<u64>) -> (r: Vec<u64>)
    ensures
        r@ == v@,
{
    let n = v.len();
    let mut out: Vec<u64> = Vec::new();
    let mut i: usize = 0;
    while i < n
        invariant
            n == v@.len(),
            i <= n,
            out@ == v@.subrange(0, i as int),
        decreases n - i,
    {
        out.push(v[i]);
        proof {
            assert(out@ =~= v@.subrange(0, i as int + 1));
        }
        i = i + 1;
    }
    proof {
        assert(v@.subrange(0, n as int) =~= v@);
    }
    out
}

/// An owned copy of a `u128` list.
fn clone_ids(v: &Vec<u128>) -> (r: Vec<u128>)
    ensures
        r@ == v@,
{
    let n = v.len();
    let mut out: Vec<u128> = Vec::new();
    let mut i: usize = 0;
    while i < n
        invariant
            n == v@.len(),
            i <= n,
            out@ == v@.subrange(0, i as int),
        decreases n - i,
    {
        out.push(v[i]);
        proof {
            assert(out@ =~= v@.subrange(0, i as int + 1));
        }
        i = i + 1;
    }
    proof {
        assert(v@.subrange(0, n as int) =~= v@);
    }
    out
}

/// An owned copy of one token record, field for field.
fn clone_product_token(t: &ProductToken) -> (r: ProductToken)
    ensures
        r.creator == t.creator,
        r.owner == t.owner,
        r.approvals@ == t.approvals@,
        r.uri == t.uri,
        r.impact == t.impact,
        r.price == t.price,
{
    let uri = match &t.uri {
        Some(u) => Some(u.clone()),
        None => None,
    };
    ProductToken {
        creator: t.creator,
        owner: t.owner,
        approvals: clone_addrs(&t.approvals),
        uri,
        impact: clone_impact(&t.impact),
        price: t.price,
    }
}

/// Ids of the tokens whose creator is `creator`, in mint order. Token `i+1`
/// sits at table index `i`.
pub open spec fn ids_with_creator(s: Seq<ProductToken>, creator: u64) -> Seq<u128>
    decreases s.len(),
{
    if s.len() == 0 {
        Seq::empty()
    } else if s.last().creator == creator {
        ids_with_creator(s.drop_last(), creator).push(s.len() as u128)
    } else {
        ids_with_creator(s.drop_last(), creator)
    }
}

/// Index of the category entry named `name`, `-1` when there is none.
pub open spec fn cat_index(cats: Seq<CategoryTokens>, name: Seq<char>) -> int
    decreases cats.len(),
{
    if cats.len() == 0 {
        -1
    } else if cats.last().name@ == name {
        cats.len() - 1
    } else {
        cat_index(cats.drop_last(), name)
    }
}

/// Position of the first occurrence of `id`, `-1` when it does not occur.
pub open spec fn first_index(ids: Seq<u128>, id: u128) -> int
    decreases ids.len(),
{
    if ids.len() == 0 {
        -1int
    } else if ids[0] == id {
        0int
    } else {
        let r = first_index(ids.drop_first(), id);
        if r == -1 {
            -1int
        } else {
            r + 1
        }
    }
}

/// No two category entries share a name.
pub open spec fn cat_names_unique(cats: Seq<CategoryTokens>) -> bool {
    forall|i: int, j: int|
        0 <= i < j < cats.len() ==> (#[trigger] cats[i]).name@ != (#[trigger] cats[j]).name@
}

/// If entry `i` carries `name` and names are unique, the search finds it.
proof fn lemma_cat_index_at(cats: Seq<CategoryTokens>, i: int)
    requires
        cat_names_unique(cats),
        0 <= i < cats.len(),
    ensures
        cat_index(cats, cats[i].name@) == i,
    decreases cats.len(),
{
    if i == cats.len() - 1 {
    } else {
        assert(cats.last().name@ != cats[i].name@);
        lemma_cat_index_at(cats.drop_last(), i);
        assert(cats.drop_last()[i] == cats[i]);
    }
}

/// If no entry carries `name`, the search reports none.
proof fn lemma_cat_index_none(cats: Seq<CategoryTokens>, name: Seq<char>)
    requires
        forall|j: int| 0 <= j < cats.len() ==> (#[trigger] cats[j]).name@ != name,
    ensures
        cat_index(cats, name) == -1,
    decreases cats.len(),
{
    if cats.len() > 0 {
        lemma_cat_index_none(cats.drop_last(), name);
    }
}

/// If `ids[j]` is the first occurrence of `id`, the search returns `j`.
proof fn lemma_first_index_at(ids: Seq<u128>, id: u128, j: int)
    requires
        0 <= j < ids.len(),
        ids[j] == id,
        forall|k: int| 0 <= k < j ==> ids[k] != id,
    ensures
        first_index(ids, id) == j,
    decreases ids.len(),
{
    if j == 0 {
    } else {
        assert(ids[0] != id);
        assert(ids.drop_first()[j - 1] == ids[j]);
        assert forall|k: int| 0 <= k < j - 1 implies ids.drop_first()[k] != id by {
            assert(ids.drop_first()[k] == ids[k + 1]);
        }
        lemma_first_index_at(ids.drop_first(), id, j - 1);
    }
}

/// If `id` does not occur, the search reports none.
proof fn lemma_first_index_none(ids: Seq<u128>, id: u128)
    requires
        forall|k: int| 0 <= k < ids.len() ==> ids[k] != id,
    ensures
        first_index(ids, id) == -1,
    decreases ids.len(),
{
    if ids.len() > 0 {
        assert forall|k: int| 0 <= k < ids.drop_first().len() implies ids.drop_first()[k] != id by {
            assert(ids.drop_first()[k] == ids[k + 1]);
        }
        lemma_first_index_none(ids.drop_first(), id);
    }
}

/// Impact value after the verification discount: a verified token's score
/// is halved.
pub open spec fn spec_score_verified(impact_value: u128, verified: bool) -> int {
    if verified {
        impact_value * 5 / 10
    } else {
        impact_value as int
    }
}

/// Score after the 30-day duration bonus: +10% for a documented impact
/// period longer than 30 days.
pub open spec fn spec_score_month(s: int, start_date: u128, end_date: u128) -> int {
    if end_date > start_date && end_date - start_date > 86400 * 30 {
        s * 11 / 10
    } else {
        s
    }
}

/// Score after the 180-day duration bonus: +20% on top for a period longer
/// than 180 days. The two bonuses compound.
pub open spec fn spec_score_halfyear(s: int, start_date: u128, end_date: u128) -> int {
    if end_date > start_date && end_date - start_date > 86400 * 180 {
        s * 12 / 10
    } else {
        s
    }
}

/// The impact score of a token's metadata: the impact value through the
/// verification discount and the two compounding duration bonuses.
pub open spec fn spec_impact_score(d: ImpactData) -> int {
    spec_score_halfyear(
        spec_score_month(
            spec_score_verified(d.impact_value, d.verified),
            d.start_date,
            d.end_date,
        ),
        d.start_date,
        d.end_date,
    )
}

/// The score computation stays within `u128` at every step.
pub open spec fn impact_score_fits(d: ImpactData) -> bool {
    let s1 = spec_score_verified(d.impact_value, d.verified);
    let s2 = spec_score_month(s1, d.start_date, d.end_date);
    &&& (d.verified ==> d.impact_value * 5 <= u128::MAX)
    &&& (d.end_date > d.start_date && d.end_date - d.start_date > 86400 * 30 ==> s1 * 11
        <= u128::MAX)
    &&& (d.end_date > d.start_date && d.end_date - d.start_date > 86400 * 180 ==> s2 * 12
        <= u128::MAX)
}

/// What a category change does to the category index: the token id leaves
/// the old category's list (its first occurrence, if any) and is appended to
/// the new category's list; every other entry is untouched.
pub open spec fn category_moved(
    cats0: Seq<CategoryTokens>,
    cats1: Seq<CategoryTokens>,
    old_cat: Seq<char>,
    new_cat: Seq<char>,
    token_id: u128,
) -> bool {
    let oi = cat_index(cats0, old_cat);
    let ni = cat_index(cats0, new_cat);
    &&& cats1.len() == cats0.len()
    &&& forall|k: int| 0 <= k < cats0.len() && k != oi && k != ni ==> cats1[k] == cats0[k]
    &&& cats1[oi].name == cats0[oi].name
    &&& cats1[oi].ids@ == (if first_index(cats0[oi].ids@, token_id) >= 0 {
        cats0[oi].ids@.remove(first_index(cats0[oi].ids@, token_id))
    } else {
        cats0[oi].ids@
    })
    &&& cats1[ni].name == cats0[ni].name
    &&& cats1[ni].ids@ == cats0[ni].ids@.push(token_id)
}

/// What a successful metadata update does: the token's record carries the
/// new metadata (and its URI when the metadata names one), approvals and all
/// other tokens are untouched, and on a category change the id moves
/// between the two category lists.
pub open spec fn impact_updated(
    pre: ImpactProductNFT,
    post: ImpactProductNFT,
    token_id: u128,
    new_impact_data: ImpactData,
) -> bool {
    let prev = pre.tokens@[token_id - 1];
    &&& post.tokens@ == pre.tokens@.update(
        token_id - 1,
        (ProductToken {
            impact: new_impact_data,
            uri: post.tokens@[token_id - 1].uri,
            approvals: post.tokens@[token_id - 1].approvals,
            ..prev
        }),
    )
    &&& post.tokens@[token_id - 1].approvals@ == prev.approvals@
    &&& post.tokens@[token_id - 1].uri == (if new_impact_data.metadata_uri@.len() > 0 {
        Some(new_impact_data.metadata_uri)
    } else {
        prev.uri
    })
    &&& (prev.impact.category@ == new_impact_data.category@ ==> post.categories@
        == pre.categories@)
    &&& (prev.impact.category@ != new_impact_data.category@ ==> category_moved(
        pre.categories@,
        post.categories@,
        prev.impact.category@,
        new_impact_data.category@,
        token_id,
    ))
}

/// What a successful mint does: the token table grows by one record owned
/// by the mint recipient with the given metadata and price (its URI taken
/// from the metadata when one is named), and the new id is appended to its
/// category's list, a fresh category entry being created on first use.
pub open spec fn product_created(
    pre: ImpactProductNFT,
    post: ImpactProductNFT,
    to: u64,
    impact_data: ImpactData,
    price: u128,
) -> bool {
    let id = (pre.tokens@.len() + 1) as u128;
    let ci = cat_index(pre.categories@, impact_data.category@);
    &&& post.tokens@ == pre.tokens@.push(
        ProductToken {
            creator: to,
            owner: to,
            approvals: post.tokens@.last().approvals,
            uri: post.tokens@.last().uri,
            impact: impact_data,
            price,
        },
    )
    &&& post.tokens@.last().approvals@ == Seq::<u64>::empty()
    &&& post.tokens@.last().uri == (if impact_data.metadata_uri@.len() > 0 {
        Some(impact_data.metadata_uri)
    } else {
        None::<String>
    })
    &&& (ci >= 0 ==> post.categories@ == pre.categories@.update(
        ci,
        (CategoryTokens { name: pre.categories@[ci].name, ids: post.categories@[ci].ids }),
    ) && post.categories@[ci].ids@ == pre.categories@[ci].ids@.push(id))
    &&& (ci < 0 ==> post.categories@.len() == pre.categories@.len() + 1
        && post.categories@.drop_last() == pre.categories@
        && post.categories@.last().name@ == impact_data.category@
        && post.categories@.last().ids@ == seq![id])
}

/// The impact product NFT registry state.
pub struct ImpactProductNFT {
    pub admin: u64,
    pub minter: u64,
    pub verifier: u64,
    pub pauser: u64,
    pub paused: bool,
    pub base_uri: String,
    pub tokens: Vec<ProductToken>,
    pub categories: Vec<CategoryTokens>,
}

impl ImpactProductNFT {
    /// Well-formedness: the supply cap holds and category names are unique.
    pub open spec fn wf(self) -> bool {
        &&& self.tokens@.len() <= MAX_SUPPLY
        &&& cat_names_unique(self.categories@)
    }

    /// The record of token `token_id`, if it was minted.
    pub open spec fn spec_token(self, token_id: u128) -> Option<ProductToken> {
        if 1 <= token_id <= self.tokens@.len() {
            Some(self.tokens@[token_id - 1])
        } else {
            None
        }
    }

    /// Owner of `token_id`; the zero address for a token never minted.
    pub open spec fn spec_owner_of(self, token_id: u128) -> u64 {
        match self.spec_token(token_id) {
            Some(t) => t.owner,
            None => 0,
        }
    }

    /// A fresh registry: all four roles go to `admin`, not paused, empty.
    pub fn __constructor(admin: u64, base_token_uri: String) -> (s: Self)
        ensures
            s.wf(),
            s.admin == admin && s.minter == admin && s.verifier == admin && s.pauser == admin,
            !s.paused,
            s.base_uri == base_token_uri,
            s.tokens@ == Seq::<ProductToken>::empty(),
            s.categories@ == Seq::<CategoryTokens>::empty(),
    {
        let s = ImpactProductNFT {
            admin,
            minter: admin,
            verifier: admin,
            pauser: admin,
            paused: false,
            base_uri: base_token_uri,
            tokens: Vec::new(),
            categories: Vec::new(),
        };
        proof {
            assert(s.tokens@ =~= Seq::<ProductToken>::empty());
            assert(s.categories@ =~= Seq::<CategoryTokens>::empty());
        }
        s
    }

    /// How many tokens have been minted.
    pub fn token_count(&self) -> (r: u128)
        ensures
            r == self.tokens@.len(),
    {
        self.tokens.len() as u128
    }

    /// Owner of `token_id`; the zero address for a token never minted.
    pub fn owner_of(&self, token_id: u128) -> (r: u64)
        ensures
            r == self.spec_owner_of(token_id),
    {
        if 1 <= token_id && token_id <= self.tokens.len() as u128 {
            self.tokens[(token_id - 1) as usize].owner
        } else {
            0
        }
    }

    /// The collection name.
    pub fn name(&self) -> (r: String)
        ensures
            r@ == "Regen Bazaar Impact Product"@,
    {
        String::from_str("Regen Bazaar Impact Product")
    }

    /// The collection symbol.
    pub fn symbol(&self) -> (r: String)
        ensures
            r@ == "RIP"@,
    {
        String::from_str("RIP")
    }

    /// The metadata URI of `token_id`, if the token exists and one was set.
    pub fn token_uri(&self, token_id: u128) -> (r: Option<String>)
        ensures
            r == (match self.spec_token(token_id) {
                Some(t) => t.uri,
                None => None::<String>,
            }),
    {
        if 1 <= token_id && token_id <= self.tokens.len() as u128 {
            match &self.tokens[(token_id - 1) as usize].uri {
                Some(u) => Some(u.clone()),
                None => None,
            }
        } else {
            None
        }
    }

    /// The collection's base URI.
    pub fn base_uri(&self) -> (r: String)
        ensures
            r == self.base_uri,
    {
        self.base_uri.clone()
    }

    /// Suspends minting. Only the pauser may do so.
    pub fn pause(&mut self, caller: u64) -> (r: Result<(), ProductError>)
        ensures
            r == (if caller != old(self).pauser {
                Err::<(), ProductError>(ProductError::NotAuthorized)
            } else {
                Ok::<(), ProductError>(())
            }),
            r is Err ==> *final(self) == *old(self),
            r is Ok ==> *final(self) == (ImpactProductNFT { paused: true, ..*old(self) }),
    {
        if caller != self.pauser {
            return Err(ProductError::NotAuthorized);
        }
        self.paused = true;
        Ok(())
    }

    /// Resumes minting. Only the pauser may do so.
    pub fn unpause(&mut self, caller: u64) -> (r: Result<(), ProductError>)
        ensures
            r == (if caller != old(self).pauser {
                Err::<(), ProductError>(ProductError::NotAuthorized)
            } else {
                Ok::<(), ProductError>(())
            }),
            r is Err ==> *final(self) == *old(self),
            r is Ok ==> *final(self) == (ImpactProductNFT { paused: false, ..*old(self) }),
    {
        if caller != self.pauser {
            return Err(ProductError::NotAuthorized);
        }
        self.paused = false;
        Ok(())
    }

    /// Mints an impact product to `to`: the token gets the next id, the
    /// passed metadata and price, its URI when the metadata names one, and
    /// is recorded under its category (a new category entry is created on
    /// first use). Only the minter may mint, minting must not be paused, and the
    /// category, impact value and price must be non-trivial.
    pub fn create_impact_product(
        &mut self,
        caller: u64,
        to: u64,
        impact_data: ImpactData,
        price: u128,
    ) -> (r: Result<u128, ProductError>)
        requires
            old(self).wf(),
        ensures
            final(self).wf(),
            final(self).admin == old(self).admin,
            final(self).minter == old(self).minter,
            final(self).verifier == old(self).verifier,
            final(self).pauser == old(self).pauser,
            final(self).paused == old(self).paused,
            final(self).base_uri == old(self).base_uri,
            r == (if caller != old(self).minter {
                Err::<u128, ProductError>(ProductError::NotAuthorized)
            } else if old(self).paused {
                Err::<u128, ProductError>(ProductError::Paused)
            } else if impact_data.category@.len() == 0 {
                Err::<u128, ProductError>(ProductError::EmptyCategory)
            } else if impact_data.impact_value == 0 {
                Err::<u128, ProductError>(ProductError::ZeroImpactValue)
            } else if price == 0 {
                Err::<u128, ProductError>(ProductError::ZeroPrice)
            } else if old(self).tokens@.len() >= MAX_SUPPLY {
                Err::<u128, ProductError>(ProductError::MaxSupplyReached)
            } else {
                Ok::<u128, ProductError>((old(self).tokens@.len() + 1) as u128)
            }),
            r is Err ==> *final(self) == *old(self),
            r is Ok ==> product_created(*old(self), *final(self), to, impact_data, price),
    {
        if caller != self.minter {
            return Err(ProductError::NotAuthorized);
        }
        if self.paused {
            return Err(ProductError::Paused);
        }
        if impact_data.category.as_str().unicode_len() == 0 {
            return Err(ProductError::EmptyCategory);
        }
        if impact_data.impact_value == 0 {
            return Err(ProductError::ZeroImpactValue);
        }
        if price == 0 {
            return Err(ProductError::ZeroPrice);
        }
        if self.tokens.len() as u128 >= MAX_SUPPLY {
            return Err(ProductError::MaxSupplyReached);
        }
        let id = self.tokens.len() as u128 + 1;
        let category = impact_data.category.clone();
        let uri = if impact_data.metadata_uri.as_str().unicode_len() > 0 {
            Some(impact_data.metadata_uri.clone())
        } else {
            None
        };
        let token = ProductToken {
            creator: to,
            owner: to,
            approvals: Vec::new(),
            uri,
            impact: impact_data,
            price,
        };
        self.tokens.push(token);
        let ghost cats0 = self.categories@;
        match self.find_category(&category) {
            Some(ci) => {
                proof {
                    lemma_cat_index_at(cats0, ci as int);
                }
                let mut entry = CategoryTokens {
                    name: self.categories[ci].name.clone(),
                    ids: clone_ids(&self.categories[ci].ids),
                };
                entry.ids.push(id);
                self.categories.set(ci, entry);
                proof {
                    assert forall|p: int, q: int| 0 <= p < q < self.categories@.len() implies (
                    #[trigger] self.categories@[p]).name@ != (
                    #[trigger] self.categories@[q]).name@ by {
                        assert(self.categories@[p].name@ == cats0[p].name@);
                        assert(self.categories@[q].name@ == cats0[q].name@);
                    }
                }
            },
            None => {
                proof {
                    lemma_cat_index_none(cats0, category@);
                }
                let mut ids: Vec<u128> = Vec::new();
                ids.push(id);
                self.categories.push(CategoryTokens { name: category, ids });
                proof {
                    assert(self.categories@.drop_last() =~= cats0);
                    assert forall|p: int, q: int| 0 <= p < q < self.categories@.len() implies (
                    #[trigger] self.categories@[p]).name@ != (
                    #[trigger] self.categories@[q]).name@ by {
                        if q < self.categories@.len() - 1 {
                            assert(self.categories@[p].name@ == cats0[p].name@);
                            assert(self.categories@[q].name@ == cats0[q].name@);
                        } else {
                            assert(self.categories@[p].name@ == cats0[p].name@);
                        }
                    }
                    assert(self.categories@.last().ids@ =~= seq![id]);
                }
            },
        }
        Ok(id)
    }

    /// Index of the category entry named like `category`, if any.
    fn find_category(&self, category: &String) -> (r: Option<usize>)
        ensures
            match r {
                Some(i) => i < self.categories@.len() && self.categories@[i as int].name@
                    == category@,
                None => forall|j: int|
                    0 <= j < self.categories@.len() ==> (#[trigger] self.categories@[j]).name@
                        != category@,
            },
    {
        let n = self.categories.len();
        let mut i: usize = 0;
        while i < n
            invariant
                n == self.categories@.len(),
                i <= n,
                forall|j: int| 0 <= j < i ==> (#[trigger] self.categories@[j]).name@ != category@,
            decreases n - i,
        {
            if self.categories[i].name.eq(category) {
                return Some(i);
            }
            i = i + 1;
        }
        None
    }

    /// The impact metadata of `token_id`.
    pub fn get_impact_data(&self, token_id: u128) -> (r: Option<ImpactData>)
        ensures
            r == (match self.spec_token(token_id) {
                Some(t) => Some(t.impact),
                None => None::<ImpactData>,
            }),
    {
        if 1 <= token_id && token_id <= self.tokens.len() as u128 {
            Some(clone_impact(&self.tokens[(token_id - 1) as usize].impact))
        } else {
            None
        }
    }

    /// The listed price of `token_id`.
    pub fn get_token_price(&self, token_id: u128) -> (r: Option<u128>)
        ensures
            r == (match self.spec_token(token_id) {
                Some(t) => Some(t.price),
                None => None::<u128>,
            }),
    {
        if 1 <= token_id && token_id <= self.tokens.len() as u128 {
            Some(self.tokens[(token_id - 1) as usize].price)
        } else {
            None
        }
    }

    /// Ids of the tokens minted to `creator`, in mint order; an address that
    /// never received a mint is reported as an error.
    pub fn get_tokens_by_creator(&self, creator: u64) -> (r: Result<Vec<u128>, ProductError>)
        ensures
            r is Ok ==> r->Ok_0@ == ids_with_creator(self.tokens@, creator) && r->Ok_0@.len() > 0,
            r is Err ==> r == Err::<Vec<u128>, ProductError>(ProductError::NoTokensForCreator)
                && ids_with_creator(self.tokens@, creator).len() == 0,
    {
        let n = self.tokens.len();
        let mut out: Vec<u128> = Vec::new();
        let mut i: usize = 0;
        proof {
            assert(self.tokens@.subrange(0, 0) =~= Seq::<ProductToken>::empty());
        }
        while i < n
            invariant
                n == self.tokens@.len(),
                i <= n,
                out@ == ids_with_creator(self.tokens@.subrange(0, i as int), creator),
            decreases n - i,
        {
            proof {
                assert(self.tokens@.subrange(0, i as int + 1).drop_last() =~= self.tokens@.subrange(
                    0,
                    i as int,
                ));
                assert(self.tokens@.subrange(0, i as int + 1).last() == self.tokens@[i as int]);
            }
            if self.tokens[i].creator == creator {
                out.push(i as u128 + 1);
            }
            i = i + 1;
        }
        proof {
            assert(self.tokens@.subrange(0, n as int) =~= self.tokens@);
        }
        if out.len() == 0 {
            Err(ProductError::NoTokensForCreator)
        } else {
            Ok(out)
        }
    }

    /// Ids recorded under `category`, in mint order; an unknown category is
    /// reported as an error.
    pub fn get_tokens_by_category(&self, category: String) -> (r: Result<Vec<u128>, ProductError>)
        requires
            self.wf(),
        ensures
            r is Ok <==> cat_index(self.categories@, category@) >= 0,
            r is Err ==> r == Err::<Vec<u128>, ProductError>(ProductError::NoTokensForCategory),
            r is Ok ==> r->Ok_0@ == self.categories@[cat_index(self.categories@, category@)].ids@,
    {
        match self.find_category(&category) {
            Some(ci) => {
                proof {
                    lemma_cat_index_at(self.categories@, ci as int);
                }
                let ids = clone_ids(&self.categories[ci].ids);
                proof {
                    assert(ids@ =~= self.categories@[ci as int].ids@);
                }
                Ok(ids)
            },
            None => {
                proof {
                    lemma_cat_index_none(self.categories@, category@);
                }
                Err(ProductError::NoTokensForCategory)
            },
        }
    }

    /// Whether `operator` is approved to manage `token_id`.
    pub fn is_approved(&self, operator: u64, token_id: u128) -> (r: bool)
        ensures
            r == (match self.spec_token(token_id) {
                Some(t) => t.approvals@.contains(operator),
                None => false,
            }),
    {
        if token_id < 1 || token_id > self.tokens.len() as u128 {
            return false;
        }
        let approvals = &self.tokens[(token_id - 1) as usize].approvals;
        proof {
            assert(self.spec_token(token_id) == Some(self.tokens@[token_id - 1]));
            assert(approvals@ == self.tokens@[token_id - 1].approvals@);
        }
        let n = approvals.len();
        let mut i: usize = 0;
        while i < n
            invariant
                n == approvals@.len(),
                i <= n,
                self.spec_token(token_id) == Some(self.tokens@[token_id - 1]),
                approvals@ == self.tokens@[token_id - 1].approvals@,
                forall|j: int| 0 <= j < i ==> approvals@[j] != operator,
            decreases n - i,
        {
            if approvals[i] == operator {
                proof {
                    assert(approvals@[i as int] == operator);
                    assert(approvals@.contains(operator));
                }
                return true;
            }
            i = i + 1;
        }
        false
    }

    /// The impact score of `token_id` at this moment: the stored impact
    /// value, halved when verified, with +10% and a further +20% for
    /// documented impact periods longer than 30 and 180 days.
    pub fn calculate_impact_score(&self, token_id: u128) -> (r: Result<u128, ProductError>)
        requires
            match self.spec_token(token_id) {
                Some(t) => impact_score_fits(t.impact),
                None => true,
            },
        ensures
            r == (match self.spec_token(token_id) {
                None => Err::<u128, ProductError>(ProductError::TokenNotFound),
                Some(t) => Ok::<u128, ProductError>(spec_impact_score(t.impact) as u128),
            }),
    {
        if token_id < 1 || token_id > self.tokens.len() as u128 {
            return Err(ProductError::TokenNotFound);
        }
        let item = &self.tokens[(token_id - 1) as usize].impact;
        let mut score = item.impact_value;
        if item.verified {
            score = score * 5 / 10;
        }
        if item.end_date > item.start_date {
            let duration = item.end_date - item.start_date;
            if duration > 86400 * 30 {
                score = score * 11 / 10;
            }
            if duration > 86400 * 180 {
                score = score * 12 / 10;
            }
        }
        Ok(score)
    }

    /// Checks that `token_id` is eligible for verification by the given
    /// validator set: the caller must hold the verifier role, at least five
    /// validators must sign off, the token must exist and must not be
    /// verified already. The record itself is left untouched.
    pub fn verify_token(&self, caller: u64, token_id: u128, validators: &Vec<u64>) -> (r: Result<
        bool,
        ProductError,
    >)
        ensures
            r == (if caller != self.verifier {
                Err::<bool, ProductError>(ProductError::NotAuthorized)
            } else if validators@.len() < 5 {
                Err::<bool, ProductError>(ProductError::NotEnoughValidators)
            } else {
                match self.spec_token(token_id) {
                    None => Err::<bool, ProductError>(ProductError::TokenNotFound),
                    Some(t) => {
                        if t.impact.verified {
                            Err::<bool, ProductError>(ProductError::AlreadyVerified)
                        } else {
                            Ok::<bool, ProductError>(true)
                        }
                    },
                }
            }),
    {
        if caller != self.verifier {
            return Err(ProductError::NotAuthorized);
        }
        if validators.len() < 5 {
            return Err(ProductError::NotEnoughValidators);
        }
        if token_id < 1 || token_id > self.tokens.len() as u128 {
            return Err(ProductError::TokenNotFound);
        }
        if self.tokens[(token_id - 1) as usize].impact.verified {
            return Err(ProductError::AlreadyVerified);
        }
        Ok(true)
    }

    /// Reprices `token_id`. Only its current owner may do so.
    pub fn update_token_price(&mut self, caller: u64, token_id: u128, price: u128) -> (r: Result<
        (),
        ProductError,
    >)
        requires
            old(self).wf(),
        ensures
            final(self).wf(),
            r == (if caller != old(self).spec_owner_of(token_id) {
                Err::<(), ProductError>(ProductError::NotTokenOwner)
            } else if old(self).spec_token(token_id) is None {
                Err::<(), ProductError>(ProductError::TokenNotFound)
            } else {
                Ok::<(), ProductError>(())
            }),
            r is Err ==> *final(self) == *old(self),
            r is Ok ==> {
                &&& final(self).tokens@ == old(self).tokens@.update(
                    token_id - 1,
                    (ProductToken {
                        price,
                        approvals: final(self).tokens@[token_id - 1].approvals,
                        ..old(self).tokens@[token_id - 1]
                    }),
                )
                &&& final(self).tokens@[token_id - 1].approvals@ == old(self).tokens@[token_id
                    - 1].approvals@
                &&& final(self).categories@ == old(self).categories@
            },
    {
        let actual_owner = self.owner_of(token_id);
        if caller != actual_owner {
            return Err(ProductError::NotTokenOwner);
        }
        if token_id < 1 || token_id > self.tokens.len() as u128 {
            return Err(ProductError::TokenNotFound);
        }
        let i = (token_id - 1) as usize;
        let mut t = clone_product_token(&self.tokens[i]);
        t.price = price;
        self.tokens.set(i, t);
        Ok(())
    }

    /// Reprices `token_id` with the admin role.
    pub fn update_token_price_admin(&mut self, caller: u64, token_id: u128, price: u128) -> (r:
        Result<(), ProductError>)
        requires
            old(self).wf(),
        ensures
            final(self).wf(),
            r == (if caller != old(self).admin {
                Err::<(), ProductError>(ProductError::NotAuthorized)
            } else if old(self).spec_token(token_id) is None {
                Err::<(), ProductError>(ProductError::TokenNotFound)
            } else {
                Ok::<(), ProductError>(())
            }),
            r is Err ==> *final(self) == *old(self),
            r is Ok ==> {
                &&& final(self).tokens@ == old(self).tokens@.update(
                    token_id - 1,
                    (ProductToken {
                        price,
                        approvals: final(self).tokens@[token_id - 1].approvals,
                        ..old(self).tokens@[token_id - 1]
                    }),
                )
                &&& final(self).tokens@[token_id - 1].approvals@ == old(self).tokens@[token_id
                    - 1].approvals@
                &&& final(self).categories@ == old(self).categories@
            },
    {
        if caller != self.admin {
            return Err(ProductError::NotAuthorized);
        }
        if token_id < 1 || token_id > self.tokens.len() as u128 {
            return Err(ProductError::TokenNotFound);
        }
        let i = (token_id - 1) as usize;
        let mut t = clone_product_token(&self.tokens[i]);
        t.price = price;
        self.tokens.set(i, t);
        Ok(())
    }

    /// Drops the first occurrence of `token_id` from the id list of the
    /// category entry at `ci`.
    fn remove_from_category(&mut self, token_id: u128, ci: usize)
        requires
            ci < old(self).tokens@.len() || ci < old(self).categories@.len(),
            ci < old(self).categories@.len(),
        ensures
            final(self).tokens@ == old(self).tokens@,
            final(self).admin == old(self).admin,
            final(self).minter == old(self).minter,
            final(self).verifier == old(self).verifier,
            final(self).pauser == old(self).pauser,
            final(self).paused == old(self).paused,
            final(self).base_uri == old(self).base_uri,
            final(self).categories@.len() == old(self).categories@.len(),
            forall|k: int|
                0 <= k < old(self).categories@.len() && k != ci ==> final(self).categories@[k]
                    == old(self).categories@[k],
            final(self).categories@[ci as int].name == old(self).categories@[ci as int].name,
            final(self).categories@[ci as int].ids@ == (if first_index(
                old(self).categories@[ci as int].ids@,
                token_id,
            ) >= 0 {
                old(self).categories@[ci as int].ids@.remove(
                    first_index(old(self).categories@[ci as int].ids@, token_id),
                )
            } else {
                old(self).categories@[ci as int].ids@
            }),
    {
        let ghost cats0 = self.categories@;
        let mut entry = CategoryTokens {
            name: self.categories[ci].name.clone(),
            ids: clone_ids(&self.categories[ci].ids),
        };
        let n = entry.ids.len();
        let mut j: usize = 0;
        let mut found = false;
        while j < n && !found
            invariant
                n == entry.ids@.len(),
                j <= n,
                entry.ids@ == cats0[ci as int].ids@,
                entry.name == cats0[ci as int].name,
                ci < cats0.len(),
                !found ==> forall|k: int| 0 <= k < j ==> entry.ids@[k] != token_id,
                found ==> j < n && entry.ids@[j as int] == token_id && (forall|k: int|
                    0 <= k < j ==> entry.ids@[k] != token_id),
            decreases n - j, (if found { 0int } else { 1int }),
        {
            if entry.ids[j] == token_id {
                found = true;
            } else {
                j = j + 1;
            }
        }
        if found {
            proof {
                lemma_first_index_at(entry.ids@, token_id, j as int);
            }
            let _ = entry.ids.remove(j);
        } else {
            proof {
                lemma_first_index_none(entry.ids@, token_id);
            }
        }
        self.categories.set(ci, entry);
        proof {
            assert forall|k: int|
                0 <= k < cats0.len() && k != ci implies self.categories@[k] == cats0[k] by {}
        }
    }

    /// Replaces the impact metadata of `token_id`. Only its current owner
    /// may do so. When the category changes, the token's id moves from the
    /// old category's list to the new one's, which must already exist; the
    /// token's URI is replaced when the new metadata names one.
    pub fn update_impact_data(
        &mut self,
        caller: u64,
        token_id: u128,
        new_impact_data: ImpactData,
    ) -> (r: Result<bool, ProductError>)
        requires
            old(self).wf(),
        ensures
            final(self).wf(),
            final(self).admin == old(self).admin,
            final(self).minter == old(self).minter,
            final(self).verifier == old(self).verifier,
            final(self).pauser == old(self).pauser,
            final(self).paused == old(self).paused,
            final(self).base_uri == old(self).base_uri,
            r == (if caller != old(self).spec_owner_of(token_id) {
                Err::<bool, ProductError>(ProductError::NotTokenOwner)
            } else if old(self).spec_token(token_id) is None {
                Err::<bool, ProductError>(ProductError::TokenNotFound)
            } else if old(self).tokens@[token_id - 1].impact.category@ != new_impact_data.category@
                && (cat_index(
                old(self).categories@,
                old(self).tokens@[token_id - 1].impact.category@,
            ) < 0 || cat_index(old(self).categories@, new_impact_data.category@) < 0) {
                Err::<bool, ProductError>(ProductError::CategoryNotFound)
            } else {
                Ok::<bool, ProductError>(true)
            }),
            r is Err ==> *final(self) == *old(self),
            r is Ok ==> impact_updated(*old(self), *final(self), token_id, new_impact_data),
    {
        let actual_owner = self.owner_of(token_id);
        if caller != actual_owner {
            return Err(ProductError::NotTokenOwner);
        }
        if token_id < 1 || token_id > self.tokens.len() as u128 {
            return Err(ProductError::TokenNotFound);
        }
        let i = (token_id - 1) as usize;
        let category_changed = !self.tokens[i].impact.category.eq(&new_impact_data.category);
        if category_changed {
            let old_category = self.tokens[i].impact.category.clone();
            let oi = match self.find_category(&old_category) {
                Some(oi) => {
                    proof {
                        lemma_cat_index_at(self.categories@, oi as int);
                    }
                    oi
                },
                None => {
                    proof {
                        lemma_cat_index_none(self.categories@, old_category@);
                    }
                    return Err(ProductError::CategoryNotFound);
                },
            };
            let ni = match self.find_category(&new_impact_data.category) {
                Some(ni) => {
                    proof {
                        lemma_cat_index_at(self.categories@, ni as int);
                    }
                    ni
                },
                None => {
                    proof {
                        lemma_cat_index_none(self.categories@, new_impact_data.category@);
                    }
                    return Err(ProductError::CategoryNotFound);
                },
            };
            let ghost cats0 = self.categories@;
            self.remove_from_category(token_id, oi);
            let mut entry = CategoryTokens {
                name: self.categories[ni].name.clone(),
                ids: clone_ids(&self.categories[ni].ids),
            };
            entry.ids.push(token_id);
            self.categories.set(ni, entry);
            proof {
                assert(oi != ni);
                assert forall|p: int, q: int| 0 <= p < q < self.categories@.len() implies (
                #[trigger] self.categories@[p]).name@ != (#[trigger] self.categories@[q]).name@ by {
                    assert(self.categories@[p].name@ == cats0[p].name@);
                    assert(self.categories@[q].name@ == cats0[q].name@);
                }
            }
        }
        let mut t = clone_product_token(&self.tokens[i]);
        if new_impact_data.metadata_uri.as_str().unicode_len() > 0 {
            t.uri = Some(new_impact_data.metadata_uri.clone());
        }
        t.impact = new_impact_data;
        self.tokens.set(i, t);
        Ok(true)
    }

    /// Transfers `token_id` from its owner to `to` and clears all
    /// approvals. Only the current owner may transfer.
    pub fn transfer(&mut self, owner: u64, to: u64, token_id: u128) -> (r: Result<
        (),
        ProductError,
    >)
        requires
            old(self).wf(),
        ensures
            final(self).wf(),
            r == (if owner != old(self).spec_owner_of(token_id) {
                Err::<(), ProductError>(ProductError::NotTokenOwner)
            } else if old(self).spec_token(token_id) is None {
                Err::<(), ProductError>(ProductError::TokenNotFound)
            } else {
                Ok::<(), ProductError>(())
            }),
            r is Err ==> *final(self) == *old(self),
            r is Ok ==> {
                &&& final(self).tokens@ == old(self).tokens@.update(
                    token_id - 1,
                    (ProductToken {
                        owner: to,
                        approvals: final(self).tokens@[token_id - 1].approvals,
                        ..old(self).tokens@[token_id - 1]
                    }),
                )
                &&& final(self).tokens@[token_id - 1].approvals@ == Seq::<u64>::empty()
                &&& final(self).categories@ == old(self).categories@
                &&& final(self).admin == old(self).admin
                &&& final(self).paused == old(self).paused
            },
    {
        let actual_owner = self.owner_of(token_id);
        if owner != actual_owner {
            return Err(ProductError::NotTokenOwner);
        }
        if token_id < 1 || token_id > self.tokens.len() as u128 {
            return Err(ProductError::TokenNotFound);
        }
        let i = (token_id - 1) as usize;
        let mut t = clone_product_token(&self.tokens[i]);
        t.owner = to;
        t.approvals = Vec::new();
        proof {
            assert(t.approvals@ =~= Seq::<u64>::empty());
        }
        self.tokens.set(i, t);
        Ok(())
    }

    /// Adds `to` to the approval list of `token_id` unless it is already
    /// there. Only the current owner may approve.
    pub fn approve(&mut self, owner: u64, to: u64, token_id: u128) -> (r: Result<
        (),
        ProductError,
    >)
        requires
            old(self).wf(),
        ensures
            final(self).wf(),
            r == (if owner != old(self).spec_owner_of(token_id) {
                Err::<(), ProductError>(ProductError::NotTokenOwner)
            } else if old(self).spec_token(token_id) is None {
                Err::<(), ProductError>(ProductError::TokenNotFound)
            } else {
                Ok::<(), ProductError>(())
            }),
            r is Err ==> *final(self) == *old(self),
            r is Ok ==> {
                let prev = old(self).tokens@[token_id - 1];
                if prev.approvals@.contains(to) {
                    *final(self) == *old(self)
                } else {
                    &&& final(self).tokens@ == old(self).tokens@.update(
                        token_id - 1,
                        (ProductToken {
                            approvals: final(self).tokens@[token_id - 1].approvals,
                            ..prev
                        }),
                    )
                    &&& final(self).tokens@[token_id - 1].approvals@ == prev.approvals@.push(to)
                    &&& final(self).categories@ == old(self).categories@
                }
            },
    {
        let actual_owner = self.owner_of(token_id);
        if owner != actual_owner {
            return Err(ProductError::NotTokenOwner);
        }
        if token_id < 1 || token_id > self.tokens.len() as u128 {
            return Err(ProductError::TokenNotFound);
        }
        if self.is_approved(to, token_id) {
            return Ok(());
        }
        let i = (token_id - 1) as usize;
        let mut t = clone_product_token(&self.tokens[i]);
        t.approvals.push(to);
        self.tokens.set(i, t);
        Ok(())
    }

    /// Transfers `token_id` from `from` to `to` on behalf of an approved
    /// `spender`, clearing all approvals.
    pub fn transfer_from(&mut self, spender: u64, from: u64, to: u64, token_id: u128) -> (r: Result<
        (),
        ProductError,
    >)
        requires
            old(self).wf(),
        ensures
            final(self).wf(),
            r == (if from != old(self).spec_owner_of(token_id) {
                Err::<(), ProductError>(ProductError::FromNotOwner)
            } else if !(match old(self).spec_token(token_id) {
                Some(t) => t.approvals@.contains(spender),
                None => false,
            }) {
                Err::<(), ProductError>(ProductError::NotApproved)
            } else {
                Ok::<(), ProductError>(())
            }),
            r is Err ==> *final(self) == *old(self),
            r is Ok ==> {
                &&& final(self).tokens@ == old(self).tokens@.update(
                    token_id - 1,
                    (ProductToken {
                        owner: to,
                        approvals: final(self).tokens@[token_id - 1].approvals,
                        ..old(self).tokens@[token_id - 1]
                    }),
                )
                &&& final(self).tokens@[token_id - 1].approvals@ == Seq::<u64>::empty()
                &&& final(self).categories@ == old(self).categories@
            },
    {
        let actual_owner = self.owner_of(token_id);
        if from != actual_owner {
            return Err(ProductError::FromNotOwner);
        }
        if !self.is_approved(spender, token_id) {
            return Err(ProductError::NotApproved);
        }
        let i = (token_id - 1) as usize;
        let mut t = clone_product_token(&self.tokens[i]);
        t.owner = to;
        t.approvals = Vec::new();
        proof {
            assert(t.approvals@ =~= Seq::<u64>::empty());
        }
        self.tokens.set(i, t);
        Ok(())
    }
}

} // verus!
