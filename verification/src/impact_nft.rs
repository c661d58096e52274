//! Registry of impact product NFTs with royalty and impact metadata.
//!
//! An [`ImpactProductNFT`] value holds the token table. Ids are dense and
//! start at 0; a token's owner and creator coincide and never change (this
//! registry has no transfer operation). The category index records the
//! category each token was minted under: a later metadata update changes the
//! token's stored category but not the index, exactly as the book-keeping of
//! the original storage layout behaves.

use vstd::prelude::*;

verus! {

/// Impact metadata attached to a token.
pub struct ImpactData {
    pub category: String,
    pub impact_value: u64,
    pub location: String,
    pub start_date: u64,
    pub end_date: u64,
    pub beneficiaries: String,
    pub verified: bool,
    pub metadata_uri: String,
}

/// Royalty terms: the receiver and its share in basis points.
#[derive(Clone, Copy, Debug, PartialEq, Eq, Structural)]
pub struct RoyaltyInfo {
    pub receiver: u64,
    pub royalty_bps: u32,
}

/// Everything stored about one token.
pub struct TokenInfo {
    pub owner: u64,
    pub impact_data: ImpactData,
    pub price: u64,
    pub royalty: RoyaltyInfo,
}

/// An owned copy of impact metadata, field for field.
fn clone_impact_data(d: &ImpactData) -> (r: ImpactData)
    ensures
        r == *d,
{
    ImpactData {
        category: d.category.clone(),
        impact_value: d.impact_value,
        location: d.location.clone(),
        start_date: d.start_date,
        end_date: d.end_date,
        beneficiaries: d.beneficiaries.clone(),
        verified: d.verified,
        metadata_uri: d.metadata_uri.clone(),
    }
}

/// An owned copy of a token record, field for field.
fn clone_token_info(t: &TokenInfo) -> (r: TokenInfo)
    ensures
        r == *t,
{
    TokenInfo {
        owner: t.owner,
        impact_data: clone_impact_data(&t.impact_data),
        price: t.price,
        royalty: t.royalty,
    }
}

/// Ids of the tokens owned by `owner`, in mint order.
pub open spec fn tokens_with_owner(s: Seq<TokenInfo>, owner: u64) -> Seq<u32>
    decreases s.len(),
{
    if s.len() == 0 {
        Seq::empty()
    } else if s.last().owner == owner {
        tokens_with_owner(s.drop_last(), owner).push((s.len() - 1) as u32)
    } else {
        tokens_with_owner(s.drop_last(), owner)
    }
}

/// Ids of the tokens minted under category `cat`, in mint order.
pub open spec fn tokens_with_category(cats: Seq<String>, cat: Seq<char>) -> Seq<u32>
    decreases cats.len(),
{
    if cats.len() == 0 {
        Seq::empty()
    } else if cats.last()@ == cat {
        tokens_with_category(cats.drop_last(), cat).push((cats.len() - 1) as u32)
    } else {
        tokens_with_category(cats.drop_last(), cat)
    }
}

/// The impact product NFT registry.
pub struct ImpactProductNFT {
    pub admin: u64,
    pub base_uri: String,
    pub tokens: Vec<TokenInfo>,
    pub minted_category: Vec<String>,
}

impl ImpactProductNFT {
    /// Well-formedness: one mint-time category per token.
    pub open spec fn wf(self) -> bool {
        self.minted_category@.len() == self.tokens@.len()
    }

    /// The record of token `token_id`, if it was minted.
    pub open spec fn spec_token(self, token_id: u32) -> Option<TokenInfo> {
        if token_id < self.tokens@.len() {
            Some(self.tokens@[token_id as int])
        } else {
            None
        }
    }

    /// One-time initialization fixing the admin and the base URI.
    pub fn init(admin: u64, base_uri: String) -> (s: Self)
        ensures
            s.wf(),
            s.admin == admin,
            s.base_uri == base_uri,
            s.tokens@ == Seq::<TokenInfo>::empty(),
    {
        let s = ImpactProductNFT {
            admin,
            base_uri,
            tokens: Vec::new(),
            minted_category: Vec::new(),
        };
        proof {
            assert(s.tokens@ =~= Seq::<TokenInfo>::empty());
        }
        s
    }

    /// Mints a token to `to` with its impact metadata, price and royalty
    /// terms, and returns the new id (the previous token count).
    pub fn mint(
        &mut self,
        to: u64,
        impact_data: ImpactData,
        price: u64,
        royalty_receiver: u64,
        royalty_bps: u32,
    ) -> (r: u32)
        requires
            old(self).wf(),
            old(self).tokens@.len() < u32::MAX,
        ensures
            final(self).wf(),
            final(self).admin == old(self).admin,
            final(self).base_uri == old(self).base_uri,
            r == old(self).tokens@.len(),
            final(self).tokens@ == old(self).tokens@.push(
                TokenInfo {
                    owner: to,
                    impact_data,
                    price,
                    royalty: RoyaltyInfo { receiver: royalty_receiver, royalty_bps },
                },
            ),
            final(self).minted_category@ == old(self).minted_category@.push(impact_data.category),
    {
        let token_id = self.tokens.len() as u32;
        let category = impact_data.category.clone();
        let info = TokenInfo {
            owner: to,
            impact_data,
            price,
            royalty: RoyaltyInfo { receiver: royalty_receiver, royalty_bps },
        };
        self.tokens.push(info);
        self.minted_category.push(category);
        token_id
    }

    /// The impact metadata of `token_id`.
    pub fn get_impact_data(&self, token_id: u32) -> (r: Option<ImpactData>)
        ensures
            r == (match self.spec_token(token_id) {
                Some(t) => Some(t.impact_data),
                None => None::<ImpactData>,
            }),
    {
        if (token_id as usize) < self.tokens.len() {
            Some(clone_impact_data(&self.tokens[token_id as usize].impact_data))
        } else {
            None
        }
    }

    /// The full record of `token_id`.
    pub fn get_token_info(&self, token_id: u32) -> (r: Option<TokenInfo>)
        ensures
            r == self.spec_token(token_id),
    {
        if (token_id as usize) < self.tokens.len() {
            Some(clone_token_info(&self.tokens[token_id as usize]))
        } else {
            None
        }
    }

    /// Ids of the tokens minted to `creator`, in mint order.
    pub fn get_tokens_by_creator(&self, creator: u64) -> (r: Vec<u32>)
        ensures
            r@ == tokens_with_owner(self.tokens@, creator),
    {
        let n = self.tokens.len();
        let mut out: Vec<u32> = Vec::new();
        let mut i: usize = 0;
        proof {
            assert(self.tokens@.subrange(0, 0) =~= Seq::<TokenInfo>::empty());
        }
        while i < n
            invariant
                n == self.tokens@.len(),
                i <= n,
                out@ == tokens_with_owner(self.tokens@.subrange(0, i as int), creator),
            decreases n - i,
        {
            proof {
                assert(self.tokens@.subrange(0, i as int + 1).drop_last() =~= self.tokens@.subrange(
                    0,
                    i as int,
                ));
                assert(self.tokens@.subrange(0, i as int + 1).last() == self.tokens@[i as int]);
            }
            if self.tokens[i].owner == creator {
                out.push(i as u32);
            }
            i = i + 1;
        }
        proof {
            assert(self.tokens@.subrange(0, n as int) =~= self.tokens@);
        }
        out
    }

    /// Ids of the tokens minted under `category`, in mint order. A token
    /// whose metadata was later updated to another category stays listed
    /// under the one it was minted with.
    pub fn get_tokens_by_category(&self, category: String) -> (r: Vec<u32>)
        ensures
            r@ == tokens_with_category(self.minted_category@, category@),
    {
        let n = self.minted_category.len();
        let mut out: Vec<u32> = Vec::new();
        let mut i: usize = 0;
        proof {
            assert(self.minted_category@.subrange(0, 0) =~= Seq::<String>::empty());
        }
        while i < n
            invariant
                n == self.minted_category@.len(),
                i <= n,
                out@ == tokens_with_category(self.minted_category@.subrange(0, i as int), category@),
            decreases n - i,
        {
            proof {
                assert(self.minted_category@.subrange(0, i as int + 1).drop_last()
                    =~= self.minted_category@.subrange(0, i as int));
                assert(self.minted_category@.subrange(0, i as int + 1).last()
                    == self.minted_category@[i as int]);
            }
            if self.minted_category[i].eq(&category) {
                out.push(i as u32);
            }
            i = i + 1;
        }
        proof {
            assert(self.minted_category@.subrange(0, n as int) =~= self.minted_category@);
        }
        out
    }

    /// Ids of all minted tokens, in order.
    pub fn get_all_tokens(&self) -> (r: Vec<u32>)
        ensures
            r@ == Seq::new(self.tokens@.len(), |i: int| i as u32),
    {
        let n = self.tokens.len();
        let mut out: Vec<u32> = Vec::new();
        let mut i: usize = 0;
        while i < n
            invariant
                n == self.tokens@.len(),
                i <= n,
                out@ == Seq::new(i as nat, |j: int| j as u32),
            decreases n - i,
        {
            out.push(i as u32);
            proof {
                assert(out@ =~= Seq::new(i as nat + 1, |j: int| j as u32));
            }
            i = i + 1;
        }
        out
    }

    /// Replaces the impact metadata of `token_id`; reports whether the token
    /// exists. The category index keeps the mint-time category.
    pub fn update_impact_data(&mut self, token_id: u32, new_data: ImpactData) -> (r: bool)
        requires
            old(self).wf(),
        ensures
            final(self).wf(),
            final(self).admin == old(self).admin,
            final(self).base_uri == old(self).base_uri,
            final(self).minted_category@ == old(self).minted_category@,
            r == (old(self).spec_token(token_id) is Some),
            !r ==> *final(self) == *old(self),
            r ==> final(self).tokens@ == old(self).tokens@.update(
                token_id as int,
                (TokenInfo { impact_data: new_data, ..old(self).tokens@[token_id as int] }),
            ),
    {
        if (token_id as usize) >= self.tokens.len() {
            return false;
        }
        let mut info = clone_token_info(&self.tokens[token_id as usize]);
        info.impact_data = new_data;
        self.tokens.set(token_id as usize, info);
        true
    }

    /// Reprices `token_id`; reports whether the token exists.
    pub fn update_price(&mut self, token_id: u32, new_price: u64) -> (r: bool)
        requires
            old(self).wf(),
        ensures
            final(self).wf(),
            final(self).admin == old(self).admin,
            final(self).base_uri == old(self).base_uri,
            final(self).minted_category@ == old(self).minted_category@,
            r == (old(self).spec_token(token_id) is Some),
            !r ==> *final(self) == *old(self),
            r ==> final(self).tokens@ == old(self).tokens@.update(
                token_id as int,
                (TokenInfo { price: new_price, ..old(self).tokens@[token_id as int] }),
            ),
    {
        if (token_id as usize) >= self.tokens.len() {
            return false;
        }
        let mut info = clone_token_info(&self.tokens[token_id as usize]);
        info.price = new_price;
        self.tokens.set(token_id as usize, info);
        true
    }

    /// Marks the impact data of `token_id` verified; reports whether the
    /// token exists.
    pub fn verify_token(&mut self, token_id: u32) -> (r: bool)
        requires
            old(self).wf(),
        ensures
            final(self).wf(),
            final(self).admin == old(self).admin,
            final(self).base_uri == old(self).base_uri,
            final(self).minted_category@ == old(self).minted_category@,
            r == (old(self).spec_token(token_id) is Some),
            !r ==> *final(self) == *old(self),
            r ==> final(self).tokens@ == old(self).tokens@.update(
                token_id as int,
                (TokenInfo {
                    impact_data: ImpactData {
                        verified: true,
                        ..old(self).tokens@[token_id as int].impact_data
                    },
                    ..old(self).tokens@[token_id as int]
                }),
            ),
    {
        if (token_id as usize) >= self.tokens.len() {
            return false;
        }
        let mut info = clone_token_info(&self.tokens[token_id as usize]);
        let mut data = info.impact_data;
        data.verified = true;
        info.impact_data = data;
        self.tokens.set(token_id as usize, info);
        true
    }
}

} // verus!
