//! Factory for impact products: category governance and creation.
//!
//! An [`ImpactProductFactory`] value owns the NFT registry it mints into
//! (in the deployed system the registry is a separate contract the factory
//! calls synchronously; the call is atomic either way). The factory keeps a
//! table of supported impact categories, each with a base multiplier in
//! basis points, scales the submitted base impact value by that multiplier,
//! and mints the resulting product to the holder of its creator role.
//!
//! Removing a category only takes it off the listed names; its parameters
//! stay behind, so products can still be created under it and it cannot be
//! added again. This mirrors the deployed book-keeping.

use vstd::prelude::*;

use crate::product_nft::ImpactData;
use crate::product_nft::ImpactProductNFT;
use crate::product_nft::ProductError;
use crate::product_nft::product_created;

verus! {

/// A creation request: the metadata of the product to mint, its base impact
/// value and listing price.
pub struct ImpactProductData {
    pub category: String,
    pub location: String,
    pub start_date: u128,
    pub end_date: u128,
    pub beneficiaries: String,
    pub base_impact_value: u128,
    pub listing_price: u128,
    pub metadata_uri: String,
}

/// Stored parameters of one impact category.
pub struct ImpactParams {
    pub category: String,
    pub base_multiplier: u128,
    pub verified: bool,
}

/// Typed failures of the factory entry points. A failure inside the NFT
/// registry surfaces unchanged under `Nft`.
#[derive(Clone, Copy, Debug, PartialEq, Eq, Structural)]
pub enum FactoryError {
    NotAuthorized,
    Paused,
    ZeroImpactValue,
    ZeroPrice,
    EmptyCategory,
    UnsupportedCategory,
    CategoryExists,
    CategoryNotFound,
    ZeroMultiplier,
    Nft(ProductError),
}

/// Position of the first parameter entry for `name`, `-1` when there is
/// none.
pub open spec fn params_index(params: Seq<ImpactParams>, name: Seq<char>) -> int
    decreases params.len(),
{
    if params.len() == 0 {
        -1int
    } else if params[0].category@ == name {
        0int
    } else {
        let r = params_index(params.drop_first(), name);
        if r == -1 {
            -1int
        } else {
            r + 1
        }
    }
}

/// Position of the first list entry reading `name`, `-1` when none does.
pub open spec fn name_index(names: Seq<String>, name: Seq<char>) -> int
    decreases names.len(),
{
    if names.len() == 0 {
        -1int
    } else if names[0]@ == name {
        0int
    } else {
        let r = name_index(names.drop_first(), name);
        if r == -1 {
            -1int
        } else {
            r + 1
        }
    }
}

/// If `params[j]` is the first entry for `name`, the search returns `j`.
proof fn lemma_params_index_at(params: Seq<ImpactParams>, name: Seq<char>, j: int)
    requires
        0 <= j < params.len(),
        params[j].category@ == name,
        forall|k: int| 0 <= k < j ==> params[k].category@ != name,
    ensures
        params_index(params, name) == j,
    decreases params.len(),
{
    if j == 0 {
    } else {
        assert(params[0].category@ != name);
        assert(params.drop_first()[j - 1] == params[j]);
        assert forall|k: int| 0 <= k < j - 1 implies params.drop_first()[k].category@ != name by {
            assert(params.drop_first()[k] == params[k + 1]);
        }
        lemma_params_index_at(params.drop_first(), name, j - 1);
    }
}

/// The parameter search yields either a valid position carrying the name it
/// was asked for, or `-1`.
proof fn lemma_params_index_props(params: Seq<ImpactParams>, name: Seq<char>)
    ensures
        -1 <= params_index(params, name) < params.len(),
        params_index(params, name) >= 0 ==> params[params_index(params, name)].category@ == name,
    decreases params.len(),
{
    if params.len() > 0 && params[0].category@ != name {
        lemma_params_index_props(params.drop_first(), name);
    }
}

/// If no entry carries `name`, the search reports none.
proof fn lemma_params_index_none(params: Seq<ImpactParams>, name: Seq<char>)
    requires
        forall|k: int| 0 <= k < params.len() ==> (#[trigger] params[k]).category@ != name,
    ensures
        params_index(params, name) == -1,
    decreases params.len(),
{
    if params.len() > 0 {
        assert forall|k: int| 0 <= k < params.drop_first().len() implies (
        #[trigger] params.drop_first()[k]).category@ != name by {
            assert(params.drop_first()[k] == params[k + 1]);
        }
        lemma_params_index_none(params.drop_first(), name);
    }
}

/// If `names[j]` is the first entry reading `name`, the search returns `j`.
proof fn lemma_name_index_at(names: Seq<String>, name: Seq<char>, j: int)
    requires
        0 <= j < names.len(),
        names[j]@ == name,
        forall|k: int| 0 <= k < j ==> names[k]@ != name,
    ensures
        name_index(names, name) == j,
    decreases names.len(),
{
    if j == 0 {
    } else {
        assert(names[0]@ != name);
        assert(names.drop_first()[j - 1] == names[j]);
        assert forall|k: int| 0 <= k < j - 1 implies names.drop_first()[k]@ != name by {
            assert(names.drop_first()[k] == names[k + 1]);
        }
        lemma_name_index_at(names.drop_first(), name, j - 1);
    }
}

/// If no entry reads `name`, the search reports none.
proof fn lemma_name_index_none(names: Seq<String>, name: Seq<char>)
    requires
        forall|k: int| 0 <= k < names.len() ==> (#[trigger] names[k])@ != name,
    ensures
        name_index(names, name) == -1,
    decreases names.len(),
{
    if names.len() > 0 {
        assert forall|k: int| 0 <= k < names.drop_first().len() implies (
        #[trigger] names.drop_first()[k])@ != name by {
            assert(names.drop_first()[k] == names[k + 1]);
        }
        lemma_name_index_none(names.drop_first(), name);
    }
}

/// The factory contract state.
pub struct ImpactProductFactory {
    pub admin: u64,
    pub creator: u64,
    pub verifier: u64,
    pub paused: bool,
    pub nft: ImpactProductNFT,
    pub categories: Vec<String>,
    pub params: Vec<ImpactParams>,
}

impl ImpactProductFactory {
    /// Well-formedness: every parameter entry carries a positive multiplier,
    /// and the owned registry is sound.
    pub open spec fn wf(self) -> bool {
        &&& forall|i: int|
            0 <= i < self.params@.len() ==> (#[trigger] self.params@[i]).base_multiplier > 0
        &&& self.nft.wf()
    }

    /// Whether products can be created under `name`: its parameters exist
    /// (with their always-positive multiplier).
    pub open spec fn spec_supported(self, name: Seq<char>) -> bool {
        params_index(self.params@, name) >= 0
    }

    /// Installs `category` with `base_multiplier` without any checks; used
    /// only while constructing the factory.
    fn seed_category(&mut self, category: &str, base_multiplier: u128)
        requires
            old(self).wf(),
            base_multiplier > 0,
        ensures
            final(self).wf(),
            final(self).admin == old(self).admin,
            final(self).creator == old(self).creator,
            final(self).verifier == old(self).verifier,
            final(self).paused == old(self).paused,
            final(self).nft == old(self).nft,
            final(self).categories@.len() == old(self).categories@.len() + 1,
            final(self).categories@.drop_last() == old(self).categories@,
            final(self).categories@.last()@ == category@,
            final(self).params@.len() == old(self).params@.len() + 1,
            final(self).params@.drop_last() == old(self).params@,
            final(self).params@.last().category@ == category@,
            final(self).params@.last().base_multiplier == base_multiplier,
            !final(self).params@.last().verified,
    {
        let ghost params0 = self.params@;
        let ghost cats0 = self.categories@;
        let name = String::from_str(category);
        self.categories.push(name.clone());
        self.params.push(
            ImpactParams { category: name, base_multiplier, verified: false },
        );
        proof {
            assert(self.categories@.drop_last() =~= cats0);
            assert(self.params@.drop_last() =~= params0);
        }
    }

    /// A fresh factory: admin, creator and verifier roles go to `admin`, the
    /// registry `nft` comes under the factory's control, and the seven
    /// standard impact categories are installed with their multipliers.
    pub fn __constructor(admin: u64, nft: ImpactProductNFT) -> (s: Self)
        requires
            nft.wf(),
        ensures
            s.wf(),
            s.admin == admin && s.creator == admin && s.verifier == admin,
            !s.paused,
            s.nft == nft,
            s.categories@.len() == 7,
            s.params@.len() == 7,
            s.categories@[0]@ == "Community gardens"@ && s.params@[0].base_multiplier == 1000,
            s.categories@[1]@ == "Tree preservation"@ && s.params@[1].base_multiplier == 2500,
            s.categories@[2]@ == "Eco tourism"@ && s.params@[2].base_multiplier == 1500,
            s.categories@[3]@ == "Educational programs"@ && s.params@[3].base_multiplier == 2000,
            s.categories@[4]@ == "Wildlife Conservation"@ && s.params@[4].base_multiplier == 3000,
            s.categories@[5]@ == "CO2 Emissions Reduction"@ && s.params@[5].base_multiplier
                == 3500,
            s.categories@[6]@ == "Waste Management"@ && s.params@[6].base_multiplier == 1200,
            forall|i: int| 0 <= i < 7 ==> (#[trigger] s.params@[i]).category@ == s.categories@[i]@,
    {
        let mut s = ImpactProductFactory {
            admin,
            creator: admin,
            verifier: admin,
            paused: false,
            nft,
            categories: Vec::new(),
            params: Vec::new(),
        };
        proof {
            assert(s.categories@ =~= Seq::<String>::empty());
            assert(s.params@ =~= Seq::<ImpactParams>::empty());
        }
        s.seed_category("Community gardens", 1000);
        s.seed_category("Tree preservation", 2500);
        s.seed_category("Eco tourism", 1500);
        s.seed_category("Educational programs", 2000);
        s.seed_category("Wildlife Conservation", 3000);
        s.seed_category("CO2 Emissions Reduction", 3500);
        s.seed_category("Waste Management", 1200);
        s
    }

    /// Index of the first parameter entry named like `category`, if any.
    fn find_params(&self, category: &String) -> (r: Option<usize>)
        ensures
            match r {
                Some(i) => i as int == params_index(self.params@, category@),
                None => params_index(self.params@, category@) == -1,
            },
    {
        let n = self.params.len();
        let mut i: usize = 0;
        while i < n
            invariant
                n == self.params@.len(),
                i <= n,
                forall|j: int| 0 <= j < i ==> (#[trigger] self.params@[j]).category@ != category@,
            decreases n - i,
        {
            if self.params[i].category.eq(category) {
                proof {
                    lemma_params_index_at(self.params@, category@, i as int);
                }
                return Some(i);
            }
            i = i + 1;
        }
        proof {
            lemma_params_index_none(self.params@, category@);
        }
        None
    }

    /// Whether products can be created under `category`.
    fn is_category_supported(&self, category: &String) -> (r: bool)
        requires
            self.wf(),
        ensures
            r == self.spec_supported(category@),
    {
        match self.find_params(category) {
            Some(i) => {
                proof {
                    lemma_params_index_props(self.params@, category@);
                }
                self.params[i].base_multiplier > 0
            },
            None => false,
        }
    }

    /// The submitted base value scaled by the category's multiplier in
    /// basis points, truncating.
    fn calculate_impact_value(&self, category: &String, base_value: u128) -> (r: u128)
        requires
            self.wf(),
            self.spec_supported(category@),
            base_value * self.params@[params_index(self.params@, category@)].base_multiplier
                <= u128::MAX,
        ensures
            r == base_value * self.params@[params_index(self.params@, category@)].base_multiplier
                / 10000,
    {
        match self.find_params(category) {
            Some(i) => {
                proof {
                    lemma_params_index_props(self.params@, category@);
                }
                base_value * self.params[i].base_multiplier / 10000
            },
            None => 0,
        }
    }

    /// The listed category names, in the order they were added.
    pub fn get_supported_categories(&self) -> (r: Vec<String>)
        ensures
            r@ == self.categories@,
    {
        let n = self.categories.len();
        let mut out: Vec<String> = Vec::new();
        let mut i: usize = 0;
        while i < n
            invariant
                n == self.categories@.len(),
                i <= n,
                out@ == self.categories@.subrange(0, i as int),
            decreases n - i,
        {
            out.push(self.categories[i].clone());
            proof {
                assert(out@ =~= self.categories@.subrange(0, i as int + 1));
            }
            i = i + 1;
        }
        proof {
            assert(self.categories@.subrange(0, n as int) =~= self.categories@);
        }
        out
    }

    /// Creates an impact product from a request: the creator role must call
    /// while the factory is not paused, the request must carry a positive
    /// base value, price and a supported category; the base value is scaled
    /// by the category multiplier and the product is minted (unverified) to
    /// the creator in the owned registry. The registry applies its own
    /// checks; its failure surfaces under [`FactoryError::Nft`].
    pub fn create_impact_product(&mut self, caller: u64, impact_product_data: ImpactProductData) -> (r:
        Result<u128, FactoryError>)
        requires
            old(self).wf(),
            old(self).spec_supported(impact_product_data.category@)
                ==> impact_product_data.base_impact_value * old(self).params@[params_index(
                old(self).params@,
                impact_product_data.category@,
            )].base_multiplier <= u128::MAX,
        ensures
            final(self).wf(),
            final(self).admin == old(self).admin,
            final(self).creator == old(self).creator,
            final(self).verifier == old(self).verifier,
            final(self).paused == old(self).paused,
            final(self).categories@ == old(self).categories@,
            final(self).params@ == old(self).params@,
            r == (if caller != old(self).creator {
                Err::<u128, FactoryError>(FactoryError::NotAuthorized)
            } else if old(self).paused {
                Err::<u128, FactoryError>(FactoryError::Paused)
            } else if impact_product_data.base_impact_value == 0 {
                Err::<u128, FactoryError>(FactoryError::ZeroImpactValue)
            } else if impact_product_data.listing_price == 0 {
                Err::<u128, FactoryError>(FactoryError::ZeroPrice)
            } else if impact_product_data.category@.len() == 0 {
                Err::<u128, FactoryError>(FactoryError::EmptyCategory)
            } else if !old(self).spec_supported(impact_product_data.category@) {
                Err::<u128, FactoryError>(FactoryError::UnsupportedCategory)
            } else if old(self).admin != old(self).nft.minter {
                Err::<u128, FactoryError>(FactoryError::Nft(ProductError::NotAuthorized))
            } else if old(self).nft.paused {
                Err::<u128, FactoryError>(FactoryError::Nft(ProductError::Paused))
            } else if scaled_impact_value(*old(self), impact_product_data) == 0 {
                Err::<u128, FactoryError>(FactoryError::Nft(ProductError::ZeroImpactValue))
            } else if old(self).nft.tokens@.len() >= crate::product_nft::MAX_SUPPLY {
                Err::<u128, FactoryError>(FactoryError::Nft(ProductError::MaxSupplyReached))
            } else {
                Ok::<u128, FactoryError>((old(self).nft.tokens@.len() + 1) as u128)
            }),
            r is Err ==> *final(self) == *old(self),
            r is Ok ==> product_created(
                old(self).nft,
                final(self).nft,
                old(self).creator,
                (ImpactData {
                    category: impact_product_data.category,
                    impact_value: scaled_impact_value(*old(self), impact_product_data),
                    location: impact_product_data.location,
                    start_date: impact_product_data.start_date,
                    end_date: impact_product_data.end_date,
                    beneficiaries: impact_product_data.beneficiaries,
                    verified: false,
                    metadata_uri: impact_product_data.metadata_uri,
                }),
                impact_product_data.listing_price,
            ),
    {
        if caller != self.creator {
            return Err(FactoryError::NotAuthorized);
        }
        if self.paused {
            return Err(FactoryError::Paused);
        }
        if impact_product_data.base_impact_value == 0 {
            return Err(FactoryError::ZeroImpactValue);
        }
        if impact_product_data.listing_price == 0 {
            return Err(FactoryError::ZeroPrice);
        }
        if impact_product_data.category.as_str().unicode_len() == 0 {
            return Err(FactoryError::EmptyCategory);
        }
        if !self.is_category_supported(&impact_product_data.category) {
            return Err(FactoryError::UnsupportedCategory);
        }
        let final_impact_value = self.calculate_impact_value(
            &impact_product_data.category,
            impact_product_data.base_impact_value,
        );
        let impact_data = ImpactData {
            category: impact_product_data.category,
            impact_value: final_impact_value,
            location: impact_product_data.location,
            start_date: impact_product_data.start_date,
            end_date: impact_product_data.end_date,
            beneficiaries: impact_product_data.beneficiaries,
            verified: false,
            metadata_uri: impact_product_data.metadata_uri,
        };
        let creator = self.creator;
        let admin = self.admin;
        match self.nft.create_impact_product(
            admin,
            creator,
            impact_data,
            impact_product_data.listing_price,
        ) {
            Ok(token_id) => Ok(token_id),
            Err(e) => Err(FactoryError::Nft(e)),
        }
    }

    /// Checks that `token_id` is eligible for verification by the given
    /// validator set, through the owned registry. `caller` must hold the
    /// registry's verifier role.
    pub fn verify_impact_product(&self, caller: u64, token_id: u128, validators: &Vec<u64>) -> (r:
        Result<bool, FactoryError>)
        ensures
            r == (if caller != self.nft.verifier {
                Err::<bool, FactoryError>(FactoryError::Nft(ProductError::NotAuthorized))
            } else if validators@.len() < 5 {
                Err::<bool, FactoryError>(FactoryError::Nft(ProductError::NotEnoughValidators))
            } else {
                match self.nft.spec_token(token_id) {
                    None => Err::<bool, FactoryError>(FactoryError::Nft(ProductError::TokenNotFound)),
                    Some(t) => {
                        if t.impact.verified {
                            Err::<bool, FactoryError>(
                                FactoryError::Nft(ProductError::AlreadyVerified),
                            )
                        } else {
                            Ok::<bool, FactoryError>(true)
                        }
                    },
                }
            }),
    {
        match self.nft.verify_token(caller, token_id, validators) {
            Ok(b) => Ok(b),
            Err(e) => Err(FactoryError::Nft(e)),
        }
    }

    /// Lists a new category with its base multiplier. Admin-only; the name
    /// must be non-empty, the multiplier positive, and the category must not
    /// be supported yet. A category that was removed keeps its parameters,
    /// so it cannot be added back.
    pub fn add_impact_category(&mut self, caller: u64, category: String, base_multiplier: u128) -> (r:
        Result<(), FactoryError>)
        requires
            old(self).wf(),
        ensures
            final(self).wf(),
            r == (if caller != old(self).admin {
                Err::<(), FactoryError>(FactoryError::NotAuthorized)
            } else if category@.len() == 0 {
                Err::<(), FactoryError>(FactoryError::EmptyCategory)
            } else if base_multiplier == 0 {
                Err::<(), FactoryError>(FactoryError::ZeroMultiplier)
            } else if old(self).spec_supported(category@) {
                Err::<(), FactoryError>(FactoryError::CategoryExists)
            } else {
                Ok::<(), FactoryError>(())
            }),
            r is Err ==> *final(self) == *old(self),
            r is Ok ==> {
                &&& final(self).admin == old(self).admin
                &&& final(self).creator == old(self).creator
                &&& final(self).verifier == old(self).verifier
                &&& final(self).paused == old(self).paused
                &&& final(self).nft == old(self).nft
                &&& final(self).categories@.len() == old(self).categories@.len() + 1
                &&& final(self).categories@.drop_last() == old(self).categories@
                &&& final(self).categories@.last()@ == category@
                &&& final(self).params@.len() == old(self).params@.len() + 1
                &&& final(self).params@.drop_last() == old(self).params@
                &&& final(self).params@.last().category@ == category@
                &&& final(self).params@.last().base_multiplier == base_multiplier
                &&& !final(self).params@.last().verified
            },
    {
        if caller != self.admin {
            return Err(FactoryError::NotAuthorized);
        }
        if category.as_str().unicode_len() == 0 {
            return Err(FactoryError::EmptyCategory);
        }
        if base_multiplier == 0 {
            return Err(FactoryError::ZeroMultiplier);
        }
        if self.is_category_supported(&category) {
            return Err(FactoryError::CategoryExists);
        }
        let ghost params0 = self.params@;
        let ghost cats0 = self.categories@;
        self.categories.push(category.clone());
        self.params.push(ImpactParams { category, base_multiplier, verified: false });
        proof {
            assert(self.categories@.drop_last() =~= cats0);
            assert(self.params@.drop_last() =~= params0);
        }
        Ok(())
    }

    /// Takes a category off the listed names. Admin-only; the category must
    /// currently be supported. Its parameters stay behind, so products can
    /// still be created under it.
    pub fn remove_impact_category(&mut self, caller: u64, category: String) -> (r: Result<
        (),
        FactoryError,
    >)
        requires
            old(self).wf(),
        ensures
            final(self).wf(),
            r == (if caller != old(self).admin {
                Err::<(), FactoryError>(FactoryError::NotAuthorized)
            } else if !old(self).spec_supported(category@) {
                Err::<(), FactoryError>(FactoryError::CategoryNotFound)
            } else {
                Ok::<(), FactoryError>(())
            }),
            r is Err ==> *final(self) == *old(self),
            r is Ok ==> {
                &&& final(self).admin == old(self).admin
                &&& final(self).creator == old(self).creator
                &&& final(self).verifier == old(self).verifier
                &&& final(self).paused == old(self).paused
                &&& final(self).nft == old(self).nft
                &&& final(self).params@ == old(self).params@
                &&& final(self).categories@ == (if name_index(old(self).categories@, category@)
                    >= 0 {
                    old(self).categories@.remove(name_index(old(self).categories@, category@))
                } else {
                    old(self).categories@
                })
            },
    {
        if caller != self.admin {
            return Err(FactoryError::NotAuthorized);
        }
        if !self.is_category_supported(&category) {
            return Err(FactoryError::CategoryNotFound);
        }
        let n = self.categories.len();
        let mut j: usize = 0;
        let mut found = false;
        while j < n && !found
            invariant
                n == self.categories@.len(),
                j <= n,
                !found ==> forall|k: int| 0 <= k < j ==> (#[trigger] self.categories@[k])@
                    != category@,
                found ==> j < n && self.categories@[j as int]@ == category@ && (forall|k: int|
                    0 <= k < j ==> (#[trigger] self.categories@[k])@ != category@),
            decreases n - j, (if found { 0int } else { 1int }),
        {
            if self.categories[j].eq(&category) {
                found = true;
            } else {
                j = j + 1;
            }
        }
        if found {
            proof {
                lemma_name_index_at(self.categories@, category@, j as int);
            }
            let _ = self.categories.remove(j);
        } else {
            proof {
                lemma_name_index_none(self.categories@, category@);
            }
        }
        Ok(())
    }

    /// Replaces the base multiplier of a supported category. Admin-only;
    /// the multiplier must be positive.
    pub fn update_impact_params(&mut self, caller: u64, category: String, base_multiplier: u128) -> (r:
        Result<(), FactoryError>)
        requires
            old(self).wf(),
        ensures
            final(self).wf(),
            r == (if caller != old(self).admin {
                Err::<(), FactoryError>(FactoryError::NotAuthorized)
            } else if !old(self).spec_supported(category@) {
                Err::<(), FactoryError>(FactoryError::CategoryNotFound)
            } else if base_multiplier == 0 {
                Err::<(), FactoryError>(FactoryError::ZeroMultiplier)
            } else {
                Ok::<(), FactoryError>(())
            }),
            r is Err ==> *final(self) == *old(self),
            r is Ok ==> {
                let pi = params_index(old(self).params@, category@);
                &&& final(self).admin == old(self).admin
                &&& final(self).creator == old(self).creator
                &&& final(self).verifier == old(self).verifier
                &&& final(self).paused == old(self).paused
                &&& final(self).nft == old(self).nft
                &&& final(self).categories@ == old(self).categories@
                &&& final(self).params@.len() == old(self).params@.len()
                &&& forall|k: int|
                    0 <= k < old(self).params@.len() && k != pi ==> final(self).params@[k] == old(
                        self,
                    ).params@[k]
                &&& final(self).params@[pi].category@ == category@
                &&& final(self).params@[pi].base_multiplier == base_multiplier
                &&& !final(self).params@[pi].verified
            },
    {
        if caller != self.admin {
            return Err(FactoryError::NotAuthorized);
        }
        let pi = match self.find_params(&category) {
            Some(pi) => {
                proof {
                    lemma_params_index_props(self.params@, category@);
                }
                pi
            },
            None => {
                return Err(FactoryError::CategoryNotFound);
            },
        };
        if base_multiplier == 0 {
            return Err(FactoryError::ZeroMultiplier);
        }
        self.params.set(pi, ImpactParams { category, base_multiplier, verified: false });
        Ok(())
    }

    /// Hands the creator role to another address. Admin-only.
    pub fn grant_creator_role(&mut self, caller: u64, creator: u64) -> (r: Result<
        (),
        FactoryError,
    >)
        requires
            old(self).wf(),
        ensures
            final(self).wf(),
            r == (if caller != old(self).admin {
                Err::<(), FactoryError>(FactoryError::NotAuthorized)
            } else {
                Ok::<(), FactoryError>(())
            }),
            r is Err ==> *final(self) == *old(self),
            r is Ok ==> *final(self) == (ImpactProductFactory { creator, ..*old(self) }),
    {
        if caller != self.admin {
            return Err(FactoryError::NotAuthorized);
        }
        self.creator = creator;
        Ok(())
    }

    /// Suspends the factory. Admin-only.
    pub fn pause(&mut self, caller: u64) -> (r: Result<(), FactoryError>)
        requires
            old(self).wf(),
        ensures
            final(self).wf(),
            r == (if caller != old(self).admin {
                Err::<(), FactoryError>(FactoryError::NotAuthorized)
            } else {
                Ok::<(), FactoryError>(())
            }),
            r is Err ==> *final(self) == *old(self),
            r is Ok ==> *final(self) == (ImpactProductFactory { paused: true, ..*old(self) }),
    {
        if caller != self.admin {
            return Err(FactoryError::NotAuthorized);
        }
        self.paused = true;
        Ok(())
    }

    /// Resumes the factory. Admin-only.
    pub fn unpause(&mut self, caller: u64) -> (r: Result<(), FactoryError>)
        requires
            old(self).wf(),
        ensures
            final(self).wf(),
            r == (if caller != old(self).admin {
                Err::<(), FactoryError>(FactoryError::NotAuthorized)
            } else {
                Ok::<(), FactoryError>(())
            }),
            r is Err ==> *final(self) == *old(self),
            r is Ok ==> *final(self) == (ImpactProductFactory { paused: false, ..*old(self) }),
    {
        if caller != self.admin {
            return Err(FactoryError::NotAuthorized);
        }
        self.paused = false;
        Ok(())
    }
}

/// The impact value a creation request ends up with: the base value scaled
/// by its category's multiplier in basis points, truncating.
pub open spec fn scaled_impact_value(f: ImpactProductFactory, d: ImpactProductData) -> u128 {
    (d.base_impact_value * f.params@[params_index(f.params@, d.category@)].base_multiplier
        / 10000) as u128
}

} // verus!
