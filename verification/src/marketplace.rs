//! Marketplace for impact product NFTs.
//!
//! A [`MarketplaceContract`] value holds the listing book. Payment runs over
//! a separate token contract: a successful [`MarketplaceContract::buy_nft`]
//! returns the [`Payment`] the host performs against that contract within
//! the same atomic call, and the ledger clock is the explicit `now`
//! argument. NFT ids are dense: the `n`-th created NFT has id `n`, starting
//! at 1.

use vstd::prelude::*;

verus! {

/// Listing state of an NFT.
#[derive(Clone, Copy, Debug, PartialEq, Eq, Structural)]
pub enum NFTStatus {
    Available,
    Unavailable,
    Sold,
}

/// Typed failures of the marketplace entry points.
#[derive(Clone, Copy, Debug, PartialEq, Eq, Structural)]
pub enum ContractError {
    AlreadyInitialized,
    AdminOnly,
    CreatorOnly,
    NFTNotFound,
    NFTNotAvailable,
    NFTAlreadyOwned,
    InvalidPrice,
    OperationNotAllowed,
}

/// One listed NFT with its metadata and sale state.
#[derive(Debug, PartialEq, Eq)]
pub struct NFT {
    pub id: u64,
    pub creator: u64,
    pub owner: u64,
    pub name: String,
    pub description: String,
    pub category: String,
    pub image_url: String,
    pub price: u128,
    pub token_address: u64,
    pub status: NFTStatus,
    pub created_at: u64,
    pub sold_at: Option<u64>,
}

/// The token transfer a successful purchase obliges the host to perform.
#[derive(Clone, Copy, Debug, PartialEq, Eq, Structural)]
pub struct Payment {
    pub from: u64,
    pub to: u64,
    pub amount: u128,
    pub token_address: u64,
}

/// Marketplace counters.
#[derive(Clone, Copy, Debug, PartialEq, Eq, Structural)]
pub struct MarketplaceStats {
    pub total_nfts: u64,
    pub available_nfts: u64,
    pub sold_nfts: u64,
}

/// An owned copy of one listing, field for field.
fn clone_nft(n: &NFT) -> (r: NFT)
    ensures
        r == *n,
{
    NFT {
        id: n.id,
        creator: n.creator,
        owner: n.owner,
        name: n.name.clone(),
        description: n.description.clone(),
        category: n.category.clone(),
        image_url: n.image_url.clone(),
        price: n.price,
        token_address: n.token_address,
        status: n.status,
        created_at: n.created_at,
        sold_at: n.sold_at,
    }
}

/// The listings whose category reads `cat`, in id order.
pub open spec fn nfts_with_category(s: Seq<NFT>, cat: Seq<char>) -> Seq<NFT>
    decreases s.len(),
{
    if s.len() == 0 {
        Seq::empty()
    } else if s.last().category@ == cat {
        nfts_with_category(s.drop_last(), cat).push(s.last())
    } else {
        nfts_with_category(s.drop_last(), cat)
    }
}

/// The listings created by `creator`, in id order.
pub open spec fn nfts_with_creator(s: Seq<NFT>, creator: u64) -> Seq<NFT>
    decreases s.len(),
{
    if s.len() == 0 {
        Seq::empty()
    } else if s.last().creator == creator {
        nfts_with_creator(s.drop_last(), creator).push(s.last())
    } else {
        nfts_with_creator(s.drop_last(), creator)
    }
}

/// The listings currently owned by `owner`, in id order.
pub open spec fn nfts_with_owner(s: Seq<NFT>, owner: u64) -> Seq<NFT>
    decreases s.len(),
{
    if s.len() == 0 {
        Seq::empty()
    } else if s.last().owner == owner {
        nfts_with_owner(s.drop_last(), owner).push(s.last())
    } else {
        nfts_with_owner(s.drop_last(), owner)
    }
}

/// How many listings carry `status`.
pub open spec fn count_status(s: Seq<NFT>, status: NFTStatus) -> int
    decreases s.len(),
{
    if s.len() == 0 {
        0
    } else {
        count_status(s.drop_last(), status) + (if s.last().status == status {
            1int
        } else {
            0int
        })
    }
}

/// The marketplace contract state.
pub struct MarketplaceContract {
    pub admin: Option<u64>,
    pub nfts: Vec<NFT>,
}

impl MarketplaceContract {
    /// Well-formedness: ids are dense and start at 1.
    pub open spec fn wf(self) -> bool {
        forall|i: int| 0 <= i < self.nfts@.len() ==> (#[trigger] self.nfts@[i]).id == i + 1
    }

    /// The listing with `nft_id`, if it exists.
    pub open spec fn spec_nft(self, nft_id: u64) -> Option<NFT> {
        if 1 <= nft_id <= self.nfts@.len() {
            Some(self.nfts@[nft_id - 1])
        } else {
            None
        }
    }

    /// A marketplace with no admin and no listings, as deployed.
    pub fn new() -> (m: Self)
        ensures
            m.wf(),
            m.admin is None,
            m.nfts@ == Seq::<NFT>::empty(),
    {
        let m = MarketplaceContract { admin: None, nfts: Vec::new() };
        proof {
            assert(m.nfts@ =~= Seq::<NFT>::empty());
        }
        m
    }

    /// One-time initialization fixing the admin.
    pub fn initialize(&mut self, admin: u64) -> (r: Result<(), ContractError>)
        ensures
            r == (if old(self).admin is Some {
                Err::<(), ContractError>(ContractError::AlreadyInitialized)
            } else {
                Ok::<(), ContractError>(())
            }),
            r is Err ==> *final(self) == *old(self),
            r is Ok ==> *final(self) == (MarketplaceContract {
                admin: Some(admin),
                ..*old(self)
            }),
    {
        if self.admin.is_some() {
            return Err(ContractError::AlreadyInitialized);
        }
        self.admin = Some(admin);
        Ok(())
    }

    /// Creates a listing owned by its creator, priced in the given payment
    /// token, and returns the new id. A zero price is rejected.
    pub fn create_nft(
        &mut self,
        creator: u64,
        name: String,
        description: String,
        category: String,
        image_url: String,
        price: u128,
        token_address: u64,
        now: u64,
    ) -> (r: Result<u64, ContractError>)
        requires
            old(self).wf(),
            old(self).nfts@.len() < u64::MAX,
        ensures
            final(self).wf(),
            final(self).admin == old(self).admin,
            r == (if price == 0 {
                Err::<u64, ContractError>(ContractError::InvalidPrice)
            } else {
                Ok::<u64, ContractError>((old(self).nfts@.len() + 1) as u64)
            }),
            r is Err ==> *final(self) == *old(self),
            r is Ok ==> final(self).nfts@ == old(self).nfts@.push(
                NFT {
                    id: (old(self).nfts@.len() + 1) as u64,
                    creator,
                    owner: creator,
                    name,
                    description,
                    category,
                    image_url,
                    price,
                    token_address,
                    status: NFTStatus::Available,
                    created_at: now,
                    sold_at: None,
                },
            ),
    {
        if price == 0 {
            return Err(ContractError::InvalidPrice);
        }
        let nft_id = self.nfts.len() as u64 + 1;
        let nft = NFT {
            id: nft_id,
            creator,
            owner: creator,
            name,
            description,
            category,
            image_url,
            price,
            token_address,
            status: NFTStatus::Available,
            created_at: now,
            sold_at: None,
        };
        self.nfts.push(nft);
        Ok(nft_id)
    }

    /// Buys an available listing: the buyer becomes the owner, the listing
    /// is marked sold at `now`, and the returned [`Payment`] moves the price
    /// from the buyer to the previous owner over the listing's token.
    pub fn buy_nft(&mut self, buyer: u64, nft_id: u64, now: u64) -> (r: Result<
        Payment,
        ContractError,
    >)
        requires
            old(self).wf(),
        ensures
            final(self).wf(),
            final(self).admin == old(self).admin,
            r == (match old(self).spec_nft(nft_id) {
                None => Err::<Payment, ContractError>(ContractError::NFTNotFound),
                Some(n) => {
                    if n.status != NFTStatus::Available {
                        Err::<Payment, ContractError>(ContractError::NFTNotAvailable)
                    } else if n.owner == buyer {
                        Err::<Payment, ContractError>(ContractError::NFTAlreadyOwned)
                    } else {
                        Ok::<Payment, ContractError>(
                            Payment {
                                from: buyer,
                                to: n.owner,
                                amount: n.price,
                                token_address: n.token_address,
                            },
                        )
                    }
                },
            }),
            r is Err ==> *final(self) == *old(self),
            r is Ok ==> final(self).nfts@ == old(self).nfts@.update(
                nft_id - 1,
                (NFT {
                    owner: buyer,
                    status: NFTStatus::Sold,
                    sold_at: Some(now),
                    ..old(self).nfts@[nft_id - 1]
                }),
            ),
    {
        if nft_id < 1 || nft_id > self.nfts.len() as u64 {
            return Err(ContractError::NFTNotFound);
        }
        let i = (nft_id - 1) as usize;
        let status = self.nfts[i].status;
        if status != NFTStatus::Available {
            return Err(ContractError::NFTNotAvailable);
        }
        let previous_owner = self.nfts[i].owner;
        if previous_owner == buyer {
            return Err(ContractError::NFTAlreadyOwned);
        }
        let payment = Payment {
            from: buyer,
            to: previous_owner,
            amount: self.nfts[i].price,
            token_address: self.nfts[i].token_address,
        };
        let mut nft = clone_nft(&self.nfts[i]);
        nft.owner = buyer;
        nft.status = NFTStatus::Sold;
        nft.sold_at = Some(now);
        self.nfts.set(i, nft);
        Ok(payment)
    }

    /// Reprices a listing. Only its creator may do so; zero is rejected.
    pub fn update_nft_price(&mut self, creator: u64, nft_id: u64, new_price: u128) -> (r: Result<
        (),
        ContractError,
    >)
        requires
            old(self).wf(),
        ensures
            final(self).wf(),
            final(self).admin == old(self).admin,
            r == (match old(self).spec_nft(nft_id) {
                None => Err::<(), ContractError>(ContractError::NFTNotFound),
                Some(n) => {
                    if n.creator != creator {
                        Err::<(), ContractError>(ContractError::CreatorOnly)
                    } else if new_price == 0 {
                        Err::<(), ContractError>(ContractError::InvalidPrice)
                    } else {
                        Ok::<(), ContractError>(())
                    }
                },
            }),
            r is Err ==> *final(self) == *old(self),
            r is Ok ==> final(self).nfts@ == old(self).nfts@.update(
                nft_id - 1,
                (NFT { price: new_price, ..old(self).nfts@[nft_id - 1] }),
            ),
    {
        if nft_id < 1 || nft_id > self.nfts.len() as u64 {
            return Err(ContractError::NFTNotFound);
        }
        let i = (nft_id - 1) as usize;
        if self.nfts[i].creator != creator {
            return Err(ContractError::CreatorOnly);
        }
        if new_price == 0 {
            return Err(ContractError::InvalidPrice);
        }
        let mut nft = clone_nft(&self.nfts[i]);
        nft.price = new_price;
        self.nfts.set(i, nft);
        Ok(())
    }

    /// Flips a listing between available and unavailable. Only its creator
    /// may do so, and a sold listing cannot be toggled.
    pub fn toggle_nft_availability(&mut self, creator: u64, nft_id: u64) -> (r: Result<
        (),
        ContractError,
    >)
        requires
            old(self).wf(),
        ensures
            final(self).wf(),
            final(self).admin == old(self).admin,
            r == (match old(self).spec_nft(nft_id) {
                None => Err::<(), ContractError>(ContractError::NFTNotFound),
                Some(n) => {
                    if n.creator != creator {
                        Err::<(), ContractError>(ContractError::CreatorOnly)
                    } else if n.status == NFTStatus::Sold {
                        Err::<(), ContractError>(ContractError::OperationNotAllowed)
                    } else {
                        Ok::<(), ContractError>(())
                    }
                },
            }),
            r is Err ==> *final(self) == *old(self),
            r is Ok ==> final(self).nfts@ == old(self).nfts@.update(
                nft_id - 1,
                (NFT {
                    status: (if old(self).nfts@[nft_id - 1].status == NFTStatus::Available {
                        NFTStatus::Unavailable
                    } else {
                        NFTStatus::Available
                    }),
                    ..old(self).nfts@[nft_id - 1]
                }),
            ),
    {
        if nft_id < 1 || nft_id > self.nfts.len() as u64 {
            return Err(ContractError::NFTNotFound);
        }
        let i = (nft_id - 1) as usize;
        if self.nfts[i].creator != creator {
            return Err(ContractError::CreatorOnly);
        }
        let status = self.nfts[i].status;
        if status == NFTStatus::Sold {
            return Err(ContractError::OperationNotAllowed);
        }
        let mut nft = clone_nft(&self.nfts[i]);
        nft.status = if status == NFTStatus::Available {
            NFTStatus::Unavailable
        } else {
            NFTStatus::Available
        };
        self.nfts.set(i, nft);
        Ok(())
    }

    /// The listing with `nft_id`.
    pub fn get_nft(&self, nft_id: u64) -> (r: Result<NFT, ContractError>)
        requires
            self.wf(),
        ensures
            r == (match self.spec_nft(nft_id) {
                None => Err::<NFT, ContractError>(ContractError::NFTNotFound),
                Some(n) => Ok::<NFT, ContractError>(n),
            }),
    {
        if nft_id < 1 || nft_id > self.nfts.len() as u64 {
            return Err(ContractError::NFTNotFound);
        }
        Ok(clone_nft(&self.nfts[(nft_id - 1) as usize]))
    }

    /// Every listing ever created, in id order.
    pub fn get_all_nfts(&self) -> (r: Vec<NFT>)
        ensures
            r@ == self.nfts@,
    {
        let n = self.nfts.len();
        let mut out: Vec<NFT> = Vec::new();
        let mut i: usize = 0;
        while i < n
            invariant
                n == self.nfts@.len(),
                i <= n,
                out@ == self.nfts@.subrange(0, i as int),
            decreases n - i,
        {
            out.push(clone_nft(&self.nfts[i]));
            proof {
                assert(out@ =~= self.nfts@.subrange(0, i as int + 1));
            }
            i = i + 1;
        }
        proof {
            assert(self.nfts@.subrange(0, n as int) =~= self.nfts@);
        }
        out
    }

    /// The listings in `category`, in id order.
    pub fn get_nfts_by_category(&self, category: String) -> (r: Vec<NFT>)
        ensures
            r@ == nfts_with_category(self.nfts@, category@),
    {
        let n = self.nfts.len();
        let mut out: Vec<NFT> = Vec::new();
        let mut i: usize = 0;
        proof {
            assert(self.nfts@.subrange(0, 0) =~= Seq::<NFT>::empty());
        }
        while i < n
            invariant
                n == self.nfts@.len(),
                i <= n,
                out@ == nfts_with_category(self.nfts@.subrange(0, i as int), category@),
            decreases n - i,
        {
            proof {
                assert(self.nfts@.subrange(0, i as int + 1).drop_last() =~= self.nfts@.subrange(
                    0,
                    i as int,
                ));
                assert(self.nfts@.subrange(0, i as int + 1).last() == self.nfts@[i as int]);
            }
            if self.nfts[i].category.eq(&category) {
                out.push(clone_nft(&self.nfts[i]));
            }
            i = i + 1;
        }
        proof {
            assert(self.nfts@.subrange(0, n as int) =~= self.nfts@);
        }
        out
    }

    /// The listings created by `creator`, in id order.
    pub fn get_nfts_by_creator(&self, creator: u64) -> (r: Vec<NFT>)
        ensures
            r@ == nfts_with_creator(self.nfts@, creator),
    {
        let n = self.nfts.len();
        let mut out: Vec<NFT> = Vec::new();
        let mut i: usize = 0;
        proof {
            assert(self.nfts@.subrange(0, 0) =~= Seq::<NFT>::empty());
        }
        while i < n
            invariant
                n == self.nfts@.len(),
                i <= n,
                out@ == nfts_with_creator(self.nfts@.subrange(0, i as int), creator),
            decreases n - i,
        {
            proof {
                assert(self.nfts@.subrange(0, i as int + 1).drop_last() =~= self.nfts@.subrange(
                    0,
                    i as int,
                ));
                assert(self.nfts@.subrange(0, i as int + 1).last() == self.nfts@[i as int]);
            }
            if self.nfts[i].creator == creator {
                out.push(clone_nft(&self.nfts[i]));
            }
            i = i + 1;
        }
        proof {
            assert(self.nfts@.subrange(0, n as int) =~= self.nfts@);
        }
        out
    }

    /// The listings currently owned by `owner`, in id order.
    pub fn get_owned_nfts(&self, owner: u64) -> (r: Vec<NFT>)
        ensures
            r@ == nfts_with_owner(self.nfts@, owner),
    {
        let n = self.nfts.len();
        let mut out: Vec<NFT> = Vec::new();
        let mut i: usize = 0;
        proof {
            assert(self.nfts@.subrange(0, 0) =~= Seq::<NFT>::empty());
        }
        while i < n
            invariant
                n == self.nfts@.len(),
                i <= n,
                out@ == nfts_with_owner(self.nfts@.subrange(0, i as int), owner),
            decreases n - i,
        {
            proof {
                assert(self.nfts@.subrange(0, i as int + 1).drop_last() =~= self.nfts@.subrange(
                    0,
                    i as int,
                ));
                assert(self.nfts@.subrange(0, i as int + 1).last() == self.nfts@[i as int]);
            }
            if self.nfts[i].owner == owner {
                out.push(clone_nft(&self.nfts[i]));
            }
            i = i + 1;
        }
        proof {
            assert(self.nfts@.subrange(0, n as int) =~= self.nfts@);
        }
        out
    }

    /// Total, available and sold listing counts.
    pub fn get_marketplace_stats(&self) -> (r: MarketplaceStats)
        requires
            self.nfts@.len() <= u64::MAX,
        ensures
            r.total_nfts == self.nfts@.len(),
            r.available_nfts == count_status(self.nfts@, NFTStatus::Available),
            r.sold_nfts == count_status(self.nfts@, NFTStatus::Sold),
    {
        let n = self.nfts.len();
        let mut available: u64 = 0;
        let mut sold: u64 = 0;
        let mut i: usize = 0;
        proof {
            assert(self.nfts@.subrange(0, 0) =~= Seq::<NFT>::empty());
            lemma_count_status_bound(self.nfts@, NFTStatus::Available);
            lemma_count_status_bound(self.nfts@, NFTStatus::Sold);
        }
        while i < n
            invariant
                n == self.nfts@.len(),
                i <= n,
                available == count_status(self.nfts@.subrange(0, i as int), NFTStatus::Available),
                sold == count_status(self.nfts@.subrange(0, i as int), NFTStatus::Sold),
                available <= i,
                sold <= i,
                n <= u64::MAX,
            decreases n - i,
        {
            proof {
                assert(self.nfts@.subrange(0, i as int + 1).drop_last() =~= self.nfts@.subrange(
                    0,
                    i as int,
                ));
                assert(self.nfts@.subrange(0, i as int + 1).last() == self.nfts@[i as int]);
            }
            let status = self.nfts[i].status;
            if status == NFTStatus::Available {
                available = available + 1;
            } else if status == NFTStatus::Sold {
                sold = sold + 1;
            }
            i = i + 1;
        }
        proof {
            assert(self.nfts@.subrange(0, n as int) =~= self.nfts@);
        }
        MarketplaceStats { total_nfts: n as u64, available_nfts: available, sold_nfts: sold }
    }
}

/// A status count never exceeds the number of listings.
proof fn lemma_count_status_bound(s: Seq<NFT>, status: NFTStatus)
    ensures
        0 <= count_status(s, status) <= s.len(),
    decreases s.len(),
{
    if s.len() > 0 {
        lemma_count_status_bound(s.drop_last(), status);
    }
}

} // verus!
