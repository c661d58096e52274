use rebaz::impact_nft::ImpactData;
use rebaz::impact_nft::ImpactProductNFT;

const ADMIN: u64 = 1;
const USER1: u64 = 2;

fn education_data() -> ImpactData {
    ImpactData {
        category: String::from("Education"),
        impact_value: 100,
        location: String::from("Nairobi"),
        start_date: 1_700_000_000,
        end_date: 1_700_086_400,
        beneficiaries: String::from("Children"),
        verified: false,
        metadata_uri: String::from("meta/1.json"),
    }
}

#[test]
fn test_init_and_mint() {
    let base_uri = String::from("https://example.com/nft/");
    let mut client = ImpactProductNFT::init(ADMIN, base_uri);

    // Mint an NFT.
    let impact_data = education_data();
    let price = 1_000_000;
    let royalty_bps = 500;
    let token_id = client.mint(USER1, impact_data, price, ADMIN, royalty_bps);

    // Query NFT info.
    let info = client.get_token_info(token_id).unwrap();
    assert_eq!(info.owner, USER1);
    assert_eq!(info.impact_data.category, String::from("Education"));
    assert_eq!(info.price, price);
    assert_eq!(info.royalty.royalty_bps, royalty_bps);

    // Query by creator.
    let tokens = client.get_tokens_by_creator(USER1);
    assert_eq!(tokens.len(), 1);
    assert_eq!(tokens.first(), Some(&token_id));

    // Query by category.
    let cat_tokens = client.get_tokens_by_category(String::from("Education"));
    assert_eq!(cat_tokens.len(), 1);
    assert_eq!(cat_tokens.first(), Some(&token_id));

    // Query all tokens.
    let all_tokens = client.get_all_tokens();
    assert_eq!(all_tokens.len(), 1);
    assert_eq!(all_tokens.first(), Some(&token_id));
}

#[test]
fn test_mint_assigns_sequential_ids() {
    let mut client = ImpactProductNFT::init(ADMIN, String::from("uri"));
    let id0 = client.mint(USER1, education_data(), 10, ADMIN, 100);
    let id1 = client.mint(ADMIN, education_data(), 20, ADMIN, 100);
    assert_eq!(id0, 0);
    assert_eq!(id1, 1);
    assert_eq!(client.get_tokens_by_creator(USER1), vec![0]);
    assert_eq!(client.get_tokens_by_creator(ADMIN), vec![1]);
    assert_eq!(client.get_all_tokens(), vec![0, 1]);
}

#[test]
fn test_update_price_and_impact_data() {
    let mut client = ImpactProductNFT::init(ADMIN, String::from("uri"));
    let id = client.mint(USER1, education_data(), 10, ADMIN, 100);

    assert!(client.update_price(id, 25));
    assert_eq!(client.get_token_info(id).unwrap().price, 25);
    assert!(!client.update_price(id + 1, 25));

    let mut new_data = education_data();
    new_data.category = String::from("Health");
    new_data.impact_value = 7;
    assert!(client.update_impact_data(id, new_data));
    let stored = client.get_impact_data(id).unwrap();
    assert_eq!(stored.category, String::from("Health"));
    assert_eq!(stored.impact_value, 7);

    // The category index keeps the mint-time category.
    assert_eq!(client.get_tokens_by_category(String::from("Education")), vec![id]);
    assert!(client.get_tokens_by_category(String::from("Health")).is_empty());
}

#[test]
fn test_verify_token_sets_flag() {
    let mut client = ImpactProductNFT::init(ADMIN, String::from("uri"));
    let id = client.mint(USER1, education_data(), 10, ADMIN, 100);

    assert!(!client.get_impact_data(id).unwrap().verified);
    assert!(client.verify_token(id));
    assert!(client.get_impact_data(id).unwrap().verified);
    assert!(!client.verify_token(id + 1));
}

#[test]
fn test_missing_token_queries() {
    let client = ImpactProductNFT::init(ADMIN, String::from("uri"));
    assert!(client.get_token_info(0).is_none());
    assert!(client.get_impact_data(3).is_none());
    assert!(client.get_tokens_by_creator(USER1).is_empty());
    assert!(client.get_tokens_by_category(String::from("Education")).is_empty());
    assert!(client.get_all_tokens().is_empty());
}
