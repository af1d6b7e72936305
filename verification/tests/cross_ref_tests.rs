use price_oracle::{
    add_reference_oracle, get_cross_ref_deviation_threshold, get_cross_reference,
    get_reference_oracles, remove_reference_oracle, resume_cross_reference,
    set_cross_ref_deviation_threshold, Address, CrossRefDeviationEvent, CrossReferenceResult,
    CrossReferenceStep, KeyedMap, MockReferenceOracle, PriceOracleContract,
};

// ---------------------------------------------------------------------------
// Mock external reference oracle
// ---------------------------------------------------------------------------

struct DeployedMock {
    id: Address,
    oracle: MockReferenceOracle,
}

fn address(tag: &str) -> Address {
    Address::new(&format!("{:A<56}", tag))
}

fn deploy_mock_oracle(tag: &str) -> DeployedMock {
    DeployedMock { id: address(tag), oracle: MockReferenceOracle::new() }
}

// ---------------------------------------------------------------------------
// Helpers
// ---------------------------------------------------------------------------

fn setup_oracle() -> (Address, PriceOracleContract) {
    let admin = address("GADMIN");
    let mut client = PriceOracleContract::new();
    client
        .initialize(admin.clone(), 1, 10, 7, b"Test Oracle".to_vec())
        .unwrap();
    (admin, client)
}

/// Gives `asset` the aggregate `price` (timestamp 1 000 000, one source,
/// 7 decimals) through a source of its own.
fn store_aggregate(client: &mut PriceOracleContract, asset: &Address, price: i128) {
    let feed = address("GSTOREFEED");
    client.register_asset(asset.clone()).unwrap();
    client.add_source(feed.clone(), b"feed".to_vec()).unwrap();
    client
        .submit_price(feed, asset.clone(), price, 1_000_000, 1)
        .unwrap();
}

fn mapping(ours: &Address, theirs: &Address) -> KeyedMap<Address, Address> {
    let mut m = KeyedMap::new();
    m.insert(ours.clone(), theirs.clone());
    m
}

/// Runs the comparison, answering each query from the mock deployed at the
/// queried contract.
fn cross_reference(
    client: &PriceOracleContract,
    asset: &Address,
    mocks: &[&DeployedMock],
) -> (Option<CrossReferenceResult>, Option<CrossRefDeviationEvent>) {
    let mut step = get_cross_reference(client, asset);
    loop {
        match step {
            CrossReferenceStep::Query { position, contract_id, asset: mapped } => {
                let price = mocks
                    .iter()
                    .find(|m| m.id == contract_id)
                    .map(|m| m.oracle.lastprice(&mapped))
                    .unwrap_or(0);
                step = resume_cross_reference(client, asset, position, price);
            }
            CrossReferenceStep::Done { result, event } => return (result, event),
        }
    }
}

// ---------------------------------------------------------------------------
// Tests
// ---------------------------------------------------------------------------

#[test]
fn test_add_reference_oracle_stores_entry() {
    let (_, mut client) = setup_oracle();
    let mock = deploy_mock_oracle("CMOCK");

    let asset_a = address("CASSETA");
    let asset_b = address("CASSETB");
    add_reference_oracle(&mut client, mock.id.clone(), mapping(&asset_a, &asset_b));

    let oracles = get_reference_oracles(&client);
    assert_eq!(oracles.len(), 1);
    assert_eq!(oracles[0], mock.id);
}

#[test]
fn test_remove_reference_oracle() {
    let (_, mut client) = setup_oracle();
    let mock = deploy_mock_oracle("CMOCK");

    let asset_a = address("CASSETA");
    let asset_b = address("CASSETB");
    add_reference_oracle(&mut client, mock.id.clone(), mapping(&asset_a, &asset_b));
    assert_eq!(get_reference_oracles(&client).len(), 1);

    remove_reference_oracle(&mut client, &mock.id);
    assert_eq!(get_reference_oracles(&client).len(), 0);
}

#[test]
fn test_cross_ref_deviation_threshold_default() {
    let (_, client) = setup_oracle();
    assert_eq!(get_cross_ref_deviation_threshold(&client), 500);
}

#[test]
fn test_set_cross_ref_deviation_threshold() {
    let (_, mut client) = setup_oracle();
    set_cross_ref_deviation_threshold(&mut client, 200).unwrap();
    assert_eq!(get_cross_ref_deviation_threshold(&client), 200);
}

#[test]
#[should_panic]
fn test_set_cross_ref_deviation_threshold_too_high() {
    let (_, mut client) = setup_oracle();
    set_cross_ref_deviation_threshold(&mut client, 100_001).unwrap();
}

#[test]
fn test_get_cross_reference_no_oracle_returns_none() {
    let (_, client) = setup_oracle();
    let asset = address("CASSET");
    assert!(cross_reference(&client, &asset, &[]).0.is_none());
}

#[test]
fn test_get_cross_reference_no_local_price_returns_none() {
    let (_, mut client) = setup_oracle();
    let mut mock = deploy_mock_oracle("CMOCK");

    let our_asset = address("COURS");
    let ref_asset = address("CREF");
    add_reference_oracle(&mut client, mock.id.clone(), mapping(&our_asset, &ref_asset));
    mock.oracle.set_price(ref_asset.clone(), 1_000_000);

    // No local aggregate stored — should return None.
    assert!(cross_reference(&client, &our_asset, &[&mock]).0.is_none());
}

#[test]
fn test_get_cross_reference_returns_prices_no_deviation() {
    let (_, mut client) = setup_oracle();
    let mut mock = deploy_mock_oracle("CMOCK");

    let our_asset = address("COURS");
    let ref_asset = address("CREF");
    add_reference_oracle(&mut client, mock.id.clone(), mapping(&our_asset, &ref_asset));

    let price = 1_000_000_i128;
    mock.oracle.set_price(ref_asset.clone(), price);
    store_aggregate(&mut client, &our_asset, price);

    let result = cross_reference(&client, &our_asset, &[&mock]).0.unwrap();
    assert_eq!(result.our_price, price);
    assert_eq!(result.ref_price, price);
    assert_eq!(result.deviation_bps, 0);
    assert_eq!(result.ref_contract, mock.id);
}

#[test]
fn test_get_cross_reference_detects_deviation_below_threshold() {
    let (_, mut client) = setup_oracle();
    let mut mock = deploy_mock_oracle("CMOCK");

    let our_asset = address("COURS");
    let ref_asset = address("CREF");
    add_reference_oracle(&mut client, mock.id.clone(), mapping(&our_asset, &ref_asset));

    // 1% deviation, threshold is 5% — should not emit an event.
    let ref_price = 1_000_000_i128;
    let our_price = 1_010_000_i128; // +1%
    mock.oracle.set_price(ref_asset.clone(), ref_price);
    store_aggregate(&mut client, &our_asset, our_price);

    let (result, event) = cross_reference(&client, &our_asset, &[&mock]);
    assert_eq!(result.unwrap().deviation_bps, 100); // 1% = 100 bps
    // No event should be emitted (deviation < threshold).
    assert_eq!(event.iter().count(), 0);
}

#[test]
fn test_get_cross_reference_emits_event_on_deviation() {
    let (_, mut client) = setup_oracle();
    let mut mock = deploy_mock_oracle("CMOCK");

    let our_asset = address("COURS");
    let ref_asset = address("CREF");
    add_reference_oracle(&mut client, mock.id.clone(), mapping(&our_asset, &ref_asset));

    // 10% deviation, threshold is 5% — should emit CrossRefDeviationEvent.
    let ref_price = 1_000_000_i128;
    let our_price = 1_100_000_i128; // +10%
    mock.oracle.set_price(ref_asset.clone(), ref_price);
    store_aggregate(&mut client, &our_asset, our_price);

    let (result, event) = cross_reference(&client, &our_asset, &[&mock]);
    assert_eq!(result.unwrap().deviation_bps, 1_000); // 10% = 1000 bps

    assert!(event.is_some(), "expected CrossRefDeviationEvent to be emitted");
}

#[test]
fn test_get_cross_reference_no_mapping_for_asset_returns_none() {
    let (_, mut client) = setup_oracle();
    let mock = deploy_mock_oracle("CMOCK");

    let registered_asset = address("CREGISTERED");
    let unregistered_asset = address("CUNREGISTERED");
    let ref_asset = address("CREF");
    add_reference_oracle(&mut client, mock.id.clone(), mapping(&registered_asset, &ref_asset));

    // No mapping for `unregistered_asset`.
    assert!(cross_reference(&client, &unregistered_asset, &[&mock]).0.is_none());
}

#[test]
fn test_multiple_reference_oracles_uses_first_match() {
    let (_, mut client) = setup_oracle();
    let mut mock_1 = deploy_mock_oracle("CMOCKONE");
    let mut mock_2 = deploy_mock_oracle("CMOCKTWO");

    let our_asset = address("COURS");
    let ref_asset_1 = address("CREFONE");
    let ref_asset_2 = address("CREFTWO");

    add_reference_oracle(&mut client, mock_1.id.clone(), mapping(&our_asset, &ref_asset_1));
    add_reference_oracle(&mut client, mock_2.id.clone(), mapping(&our_asset, &ref_asset_2));

    mock_1.oracle.set_price(ref_asset_1.clone(), 1_000_000);
    mock_2.oracle.set_price(ref_asset_2.clone(), 2_000_000);
    store_aggregate(&mut client, &our_asset, 1_000_000);

    let result = cross_reference(&client, &our_asset, &[&mock_1, &mock_2]).0.unwrap();
    // First matching oracle wins.
    assert_eq!(result.ref_price, 1_000_000);
    assert_eq!(result.ref_contract, mock_1.id);
}
