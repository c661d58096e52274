use rebaz::product_nft::ImpactData;
use rebaz::product_nft::ImpactProductNFT;
use rebaz::product_nft::ProductError;

const BASE_URI: &str = "https://ipfs.io/ipfs/QmegWR31kiQcD9S2katTXKxracbAgLs2QLBRGruFW3NhXC";

const ADMIN: u64 = 1;

fn registry(admin: u64) -> ImpactProductNFT {
    ImpactProductNFT::__constructor(admin, String::from(BASE_URI))
}

fn sample_data() -> ImpactData {
    ImpactData {
        category: String::from("category"),
        impact_value: 99,
        location: String::from("location"),
        start_date: 9999,
        end_date: 10000,
        beneficiaries: String::from("someone"),
        verified: true,
        metadata_uri: String::from(BASE_URI),
    }
}

#[test]
fn test_name() {
    let client = registry(ADMIN);
    assert_eq!(client.name(), String::from("Regen Bazaar Impact Product"));
}

#[test]
fn test_symbol() {
    let client = registry(ADMIN);
    assert_eq!(client.symbol(), String::from("RIP"));
}

#[test]
fn test_token_uri() {
    let client = registry(ADMIN);
    assert_eq!(client.base_uri(), String::from(BASE_URI));
}

#[test]
fn test_token_count() {
    let client = registry(ADMIN);
    assert_eq!(client.token_count(), 0);
}

#[test]
fn test_test_mint() {
    let mut client = registry(ADMIN);
    let to = 2;
    client.create_impact_product(ADMIN, to, sample_data(), 100).unwrap();
    let token_id: u128 = 1;
    assert_eq!(client.owner_of(token_id), to);
    assert_eq!(client.token_count(), 1);
}

#[test]
fn test_owner_of() {
    let mut client = registry(ADMIN);
    let owner = 2;
    client.create_impact_product(ADMIN, owner, sample_data(), 100).unwrap();
    let token_id: u128 = 1;
    assert_eq!(client.owner_of(token_id), owner);
}

#[test]
fn test_test_transfer() {
    let mut client = registry(ADMIN);
    let owner = 2;
    let to = 3;
    client.create_impact_product(ADMIN, owner, sample_data(), 100).unwrap();
    let token_id: u128 = 1;
    client.transfer(owner, to, token_id).unwrap();
    assert_eq!(client.owner_of(token_id), to);
}

#[test]
fn test_approve_and_is_approved() {
    let mut client = registry(ADMIN);
    let owner = 2;
    let operator = 3;
    client.create_impact_product(ADMIN, owner, sample_data(), 100).unwrap();
    let token_id: u128 = 1;
    client.approve(owner, operator, token_id).unwrap();
    assert!(client.is_approved(operator, token_id));
}

#[test]
fn test_is_approved_false() {
    let mut client = registry(ADMIN);
    let owner = 2;
    let operator = 3;
    client.create_impact_product(ADMIN, owner, sample_data(), 100).unwrap();
    let token_id: u128 = 1;
    assert!(!client.is_approved(operator, token_id));
}

#[test]
fn test_transfer_from() {
    let mut client = registry(ADMIN);
    let owner = 2;
    let operator = 3;
    let to = 4;
    client.create_impact_product(ADMIN, owner, sample_data(), 100).unwrap();
    let token_id: u128 = 1;
    client.approve(owner, operator, token_id).unwrap();
    client.transfer_from(operator, owner, to, token_id).unwrap();
    assert_eq!(client.owner_of(token_id), to);
}

#[test]
fn test_transfer_not_owner() {
    let mut client = registry(ADMIN);
    let owner = 2;
    let not_owner = 3;
    let to = 4;
    client.create_impact_product(ADMIN, owner, sample_data(), 100).unwrap();
    let token_id: u128 = 1;
    let result = client.transfer(not_owner, to, token_id);
    assert_eq!(result, Err(ProductError::NotTokenOwner));
    assert_eq!(client.owner_of(token_id), owner);
}

#[test]
fn test_transfer_from_not_approved() {
    let mut client = registry(ADMIN);
    let owner = 2;
    let operator = 3;
    let to = 4;
    client.create_impact_product(ADMIN, owner, sample_data(), 100).unwrap();
    let token_id: u128 = 1;
    let result = client.transfer_from(operator, owner, to, token_id);
    assert_eq!(result, Err(ProductError::NotApproved));
}

#[test]
fn test_transfer_from_wrong_owner() {
    let mut client = registry(ADMIN);
    let owner = 2;
    let wrong_owner = 3;
    let operator = 4;
    let to = 5;
    client.create_impact_product(ADMIN, owner, sample_data(), 100).unwrap();
    let token_id: u128 = 1;
    client.approve(owner, operator, token_id).unwrap();
    let result = client.transfer_from(operator, wrong_owner, to, token_id);
    assert_eq!(result, Err(ProductError::FromNotOwner));
}

#[test]
fn test_create_impact_product_checks() {
    let mut client = registry(ADMIN);
    let to = 2;

    assert_eq!(
        client.create_impact_product(to, to, sample_data(), 100),
        Err(ProductError::NotAuthorized)
    );

    let mut no_category = sample_data();
    no_category.category = String::new();
    assert_eq!(
        client.create_impact_product(ADMIN, to, no_category, 100),
        Err(ProductError::EmptyCategory)
    );

    let mut no_value = sample_data();
    no_value.impact_value = 0;
    assert_eq!(
        client.create_impact_product(ADMIN, to, no_value, 100),
        Err(ProductError::ZeroImpactValue)
    );

    assert_eq!(
        client.create_impact_product(ADMIN, to, sample_data(), 0),
        Err(ProductError::ZeroPrice)
    );

    client.pause(ADMIN).unwrap();
    assert_eq!(
        client.create_impact_product(ADMIN, to, sample_data(), 100),
        Err(ProductError::Paused)
    );
    client.unpause(ADMIN).unwrap();
    assert_eq!(client.pause(to), Err(ProductError::NotAuthorized));

    assert_eq!(client.create_impact_product(ADMIN, to, sample_data(), 100), Ok(1));
    assert_eq!(client.token_count(), 1);
}

#[test]
fn test_supply_cap() {
    let mut client = registry(ADMIN);
    for i in 0..1000u64 {
        client.create_impact_product(ADMIN, 2 + i, sample_data(), 100).unwrap();
    }
    assert_eq!(client.token_count(), 1000);
    assert_eq!(
        client.create_impact_product(ADMIN, 2, sample_data(), 100),
        Err(ProductError::MaxSupplyReached)
    );
}

#[test]
fn test_category_lists_and_metadata() {
    let mut client = registry(ADMIN);
    let mut data_b = sample_data();
    data_b.category = String::from("other");

    client.create_impact_product(ADMIN, 2, sample_data(), 100).unwrap();
    client.create_impact_product(ADMIN, 2, data_b, 100).unwrap();
    client.create_impact_product(ADMIN, 3, sample_data(), 100).unwrap();

    assert_eq!(client.get_tokens_by_category(String::from("category")).unwrap(), vec![1, 3]);
    assert_eq!(client.get_tokens_by_category(String::from("other")).unwrap(), vec![2]);
    assert_eq!(
        client.get_tokens_by_category(String::from("unknown")),
        Err(ProductError::NoTokensForCategory)
    );
    assert_eq!(client.get_tokens_by_creator(2).unwrap(), vec![1, 2]);
    assert_eq!(client.get_tokens_by_creator(3).unwrap(), vec![3]);
    assert_eq!(client.get_tokens_by_creator(9), Err(ProductError::NoTokensForCreator));

    assert_eq!(client.get_token_price(1), Some(100));
    assert_eq!(client.get_impact_data(1).unwrap().impact_value, 99);
    assert_eq!(client.token_uri(1), Some(String::from(BASE_URI)));
}

// Moving a token to another existing category takes its id off the old list
// and appends it to the new one.
#[test]
fn test_update_impact_data_moves_category() {
    let mut client = registry(ADMIN);
    let mut data_b = sample_data();
    data_b.category = String::from("other");

    client.create_impact_product(ADMIN, 2, sample_data(), 100).unwrap();
    client.create_impact_product(ADMIN, 2, data_b, 100).unwrap();

    let mut moved = sample_data();
    moved.category = String::from("other");
    assert_eq!(client.update_impact_data(2, 1, moved), Ok(true));

    assert!(client.get_tokens_by_category(String::from("category")).unwrap().is_empty());
    assert_eq!(client.get_tokens_by_category(String::from("other")).unwrap(), vec![2, 1]);
    assert_eq!(client.get_impact_data(1).unwrap().category, String::from("other"));

    // A move into a category that was never used is rejected.
    let mut nowhere = sample_data();
    nowhere.category = String::from("unknown");
    assert_eq!(client.update_impact_data(2, 1, nowhere), Err(ProductError::CategoryNotFound));
}

#[test]
fn test_update_token_price_roles() {
    let mut client = registry(ADMIN);
    client.create_impact_product(ADMIN, 2, sample_data(), 100).unwrap();

    assert_eq!(client.update_token_price(3, 1, 500), Err(ProductError::NotTokenOwner));
    client.update_token_price(2, 1, 500).unwrap();
    assert_eq!(client.get_token_price(1), Some(500));

    assert_eq!(client.update_token_price_admin(2, 1, 900), Err(ProductError::NotAuthorized));
    client.update_token_price_admin(ADMIN, 1, 900).unwrap();
    assert_eq!(client.get_token_price(1), Some(900));
}

#[test]
fn test_verify_token_eligibility() {
    let mut client = registry(ADMIN);
    let mut unverified = sample_data();
    unverified.verified = false;
    client.create_impact_product(ADMIN, 2, unverified, 100).unwrap();
    client.create_impact_product(ADMIN, 2, sample_data(), 100).unwrap();

    let validators = vec![11, 12, 13, 14, 15];
    let few = vec![11, 12];

    assert_eq!(client.verify_token(2, 1, &validators), Err(ProductError::NotAuthorized));
    assert_eq!(client.verify_token(ADMIN, 1, &few), Err(ProductError::NotEnoughValidators));
    assert_eq!(client.verify_token(ADMIN, 9, &validators), Err(ProductError::TokenNotFound));
    assert_eq!(client.verify_token(ADMIN, 2, &validators), Err(ProductError::AlreadyVerified));
    assert_eq!(client.verify_token(ADMIN, 1, &validators), Ok(true));
}

#[test]
fn test_calculate_impact_score() {
    let mut client = registry(ADMIN);

    // Verified halves the value; a one-second period earns no bonus:
    // 99 * 5 / 10 = 49.
    client.create_impact_product(ADMIN, 2, sample_data(), 100).unwrap();
    assert_eq!(client.calculate_impact_score(1), Ok(49));

    // Unverified, 200-day period: both duration bonuses compound:
    // 100 * 11 / 10 = 110, then 110 * 12 / 10 = 132.
    let mut long_running = sample_data();
    long_running.verified = false;
    long_running.impact_value = 100;
    long_running.start_date = 0;
    long_running.end_date = 200 * 86400;
    client.create_impact_product(ADMIN, 2, long_running, 100).unwrap();
    assert_eq!(client.calculate_impact_score(2), Ok(132));

    assert_eq!(client.calculate_impact_score(9), Err(ProductError::TokenNotFound));
}
