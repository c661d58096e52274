use rebaz::factory::FactoryError;
use rebaz::factory::ImpactProductData;
use rebaz::factory::ImpactProductFactory;
use rebaz::product_nft::ImpactProductNFT;
use rebaz::product_nft::ProductError;

const BASE_URI: &str = "https://ipfs.io/ipfs/QmegWR31kiQcD9S2katTXKxracbAgLs2QLBRGruFW3NhXC";

const ADMIN: u64 = 1;

fn factory() -> ImpactProductFactory {
    let nft = ImpactProductNFT::__constructor(ADMIN, String::from(BASE_URI));
    ImpactProductFactory::__constructor(ADMIN, nft)
}

fn garden_product(base_impact_value: u128) -> ImpactProductData {
    ImpactProductData {
        category: String::from("Community gardens"),
        location: String::from("location"),
        start_date: 0,
        end_date: 86400,
        beneficiaries: String::from("someone"),
        base_impact_value,
        listing_price: 100,
        metadata_uri: String::from(BASE_URI),
    }
}

#[test]
fn test_factory() {
    let client = factory();

    let impact_categories = vec![
        String::from("Community gardens"),
        String::from("Tree preservation"),
        String::from("Eco tourism"),
        String::from("Educational programs"),
        String::from("Wildlife Conservation"),
        String::from("CO2 Emissions Reduction"),
        String::from("Waste Management"),
    ];

    assert_eq!(client.get_supported_categories(), impact_categories)
}

// The base impact value is scaled by the category's multiplier in basis
// points: 100 at 1000 bps becomes 10.
#[test]
fn test_create_impact_product() {
    let mut client = factory();
    let token_id = client.create_impact_product(ADMIN, garden_product(100)).unwrap();
    assert_eq!(token_id, 1);

    let data = client.nft.get_impact_data(token_id).unwrap();
    assert_eq!(data.impact_value, 10);
    assert!(!data.verified);
    assert_eq!(data.category, String::from("Community gardens"));
    assert_eq!(client.nft.owner_of(token_id), ADMIN);
    assert_eq!(client.nft.get_token_price(token_id), Some(100));
}

#[test]
fn test_factory_create_checks() {
    let mut client = factory();

    assert_eq!(
        client.create_impact_product(5, garden_product(100)),
        Err(FactoryError::NotAuthorized)
    );

    assert_eq!(
        client.create_impact_product(ADMIN, garden_product(0)),
        Err(FactoryError::ZeroImpactValue)
    );

    let mut free = garden_product(100);
    free.listing_price = 0;
    assert_eq!(client.create_impact_product(ADMIN, free), Err(FactoryError::ZeroPrice));

    let mut unnamed = garden_product(100);
    unnamed.category = String::new();
    assert_eq!(client.create_impact_product(ADMIN, unnamed), Err(FactoryError::EmptyCategory));

    let mut unknown = garden_product(100);
    unknown.category = String::from("Anything else");
    assert_eq!(
        client.create_impact_product(ADMIN, unknown),
        Err(FactoryError::UnsupportedCategory)
    );

    client.pause(ADMIN).unwrap();
    assert_eq!(client.create_impact_product(ADMIN, garden_product(100)), Err(FactoryError::Paused));
    client.unpause(ADMIN).unwrap();

    // A base value so small that the scaled impact truncates to zero is
    // rejected by the registry.
    assert_eq!(
        client.create_impact_product(ADMIN, garden_product(9)),
        Err(FactoryError::Nft(ProductError::ZeroImpactValue))
    );

    assert_eq!(client.create_impact_product(ADMIN, garden_product(100)), Ok(1));
}

#[test]
fn test_category_management() {
    let mut client = factory();

    assert_eq!(
        client.add_impact_category(5, String::from("Solar"), 2000),
        Err(FactoryError::NotAuthorized)
    );
    assert_eq!(
        client.add_impact_category(ADMIN, String::new(), 2000),
        Err(FactoryError::EmptyCategory)
    );
    assert_eq!(
        client.add_impact_category(ADMIN, String::from("Solar"), 0),
        Err(FactoryError::ZeroMultiplier)
    );
    assert_eq!(
        client.add_impact_category(ADMIN, String::from("Eco tourism"), 2000),
        Err(FactoryError::CategoryExists)
    );

    client.add_impact_category(ADMIN, String::from("Solar"), 20000).unwrap();
    assert_eq!(client.get_supported_categories().len(), 8);

    // Products can now be created under the new category, scaled by its
    // multiplier (200%).
    let mut solar = garden_product(100);
    solar.category = String::from("Solar");
    let id = client.create_impact_product(ADMIN, solar).unwrap();
    assert_eq!(client.nft.get_impact_data(id).unwrap().impact_value, 200);
}

#[test]
fn test_update_impact_params() {
    let mut client = factory();

    assert_eq!(
        client.update_impact_params(5, String::from("Eco tourism"), 9000),
        Err(FactoryError::NotAuthorized)
    );
    assert_eq!(
        client.update_impact_params(ADMIN, String::from("Solar"), 9000),
        Err(FactoryError::CategoryNotFound)
    );
    assert_eq!(
        client.update_impact_params(ADMIN, String::from("Eco tourism"), 0),
        Err(FactoryError::ZeroMultiplier)
    );

    client.update_impact_params(ADMIN, String::from("Eco tourism"), 30000).unwrap();
    let mut eco = garden_product(10);
    eco.category = String::from("Eco tourism");
    let id = client.create_impact_product(ADMIN, eco).unwrap();
    assert_eq!(client.nft.get_impact_data(id).unwrap().impact_value, 30);
}

// Removing a category only unlists it: products can still be created under
// it, and it cannot be added back.
#[test]
fn test_remove_impact_category() {
    let mut client = factory();

    assert_eq!(
        client.remove_impact_category(5, String::from("Eco tourism")),
        Err(FactoryError::NotAuthorized)
    );
    assert_eq!(
        client.remove_impact_category(ADMIN, String::from("Solar")),
        Err(FactoryError::CategoryNotFound)
    );

    client.remove_impact_category(ADMIN, String::from("Eco tourism")).unwrap();
    assert_eq!(client.get_supported_categories().len(), 6);
    assert!(!client
        .get_supported_categories()
        .contains(&String::from("Eco tourism")));

    let mut eco = garden_product(100);
    eco.category = String::from("Eco tourism");
    assert!(client.create_impact_product(ADMIN, eco).is_ok());
    assert_eq!(
        client.add_impact_category(ADMIN, String::from("Eco tourism"), 1500),
        Err(FactoryError::CategoryExists)
    );
}

#[test]
fn test_verify_impact_product() {
    let mut client = factory();
    let id = client.create_impact_product(ADMIN, garden_product(100)).unwrap();

    let validators = vec![11, 12, 13, 14, 15];
    assert_eq!(
        client.verify_impact_product(5, id, &validators),
        Err(FactoryError::Nft(ProductError::NotAuthorized))
    );
    assert_eq!(client.verify_impact_product(ADMIN, id, &validators), Ok(true));
}

#[test]
fn test_grant_creator_role() {
    let mut client = factory();
    let producer = 9;

    assert_eq!(client.grant_creator_role(producer, producer), Err(FactoryError::NotAuthorized));
    client.grant_creator_role(ADMIN, producer).unwrap();

    // The old creator may no longer create; the new one may, and the
    // product is minted to the new creator.
    assert_eq!(
        client.create_impact_product(ADMIN, garden_product(100)),
        Err(FactoryError::NotAuthorized)
    );
    let id = client.create_impact_product(producer, garden_product(100)).unwrap();
    assert_eq!(client.nft.owner_of(id), producer);
}
