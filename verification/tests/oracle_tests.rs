use price_oracle::{
    Call,
    add_reference_oracle, compute_deviation_bps, compute_median, get_cross_reference,
    get_reference_oracles, remove_reference_oracle, resume_cross_reference, sort_prices, Address,
    AggregatePrice, CrossReferenceStep, ErrorCode, KeyedMap, MockReferenceOracle,
    PriceHistoryEntry, PriceOracleContract,
};

fn address(tag: &str) -> Address {
    Address::new(&format!("{:A<56}", tag))
}

fn initialized(min_sources: u32) -> PriceOracleContract {
    let mut oracle = PriceOracleContract::new();
    oracle
        .initialize(address("GADMIN"), min_sources, 0, 7, b"Oracle".to_vec())
        .unwrap();
    oracle
}

#[test]
fn defaults_before_initialization() {
    let oracle = PriceOracleContract::new();
    assert!(!oracle.is_initialized());
    assert_eq!(oracle.get_min_sources_required(), 1);
    assert_eq!(oracle.get_max_history_length(), 100);
    assert_eq!(oracle.get_decimals(), 18);
    assert_eq!(oracle.get_description(), b"Stellar Price Oracle".to_vec());
    assert!(!oracle.is_source(&address("GSRC")));
    assert!(!oracle.is_asset_registered(&address("CASSET")));
}

#[test]
fn initialize_stores_settings_once() {
    let mut oracle = PriceOracleContract::new();
    assert_eq!(
        oracle.initialize(address("GADMIN"), 0, 0, 6, b"Desc".to_vec()),
        Ok(())
    );
    assert_eq!(oracle.get_min_sources_required(), 1);
    assert_eq!(oracle.get_max_history_length(), 100);
    assert_eq!(oracle.get_decimals(), 6);
    assert_eq!(oracle.get_description(), b"Desc".to_vec());
    assert_eq!(*oracle.get_admin_address(), address("GADMIN"));
    assert_eq!(
        oracle.initialize(address("GOTHER"), 3, 3, 3, b"Other".to_vec()),
        Err(ErrorCode::AlreadyInitialized)
    );
    assert_eq!(*oracle.get_admin_address(), address("GADMIN"));
    assert_eq!(oracle.get_decimals(), 6);
}

#[test]
fn settings_read_back() {
    let mut oracle = initialized(2);
    oracle.set_admin(address("GNEWADMIN"));
    oracle.set_min_sources_required(4);
    oracle.set_max_history_length(50);
    oracle.set_decimals(9);
    oracle.set_description(b"New".to_vec());
    assert_eq!(*oracle.get_admin_address(), address("GNEWADMIN"));
    assert_eq!(oracle.get_min_sources_required(), 4);
    assert_eq!(oracle.get_max_history_length(), 50);
    assert_eq!(oracle.get_decimals(), 9);
    assert_eq!(oracle.get_description(), b"New".to_vec());
}

#[test]
fn register_and_unregister_assets() {
    let mut oracle = initialized(1);
    let asset = address("CASSET");
    assert_eq!(oracle.register_asset(asset.clone()), Ok(()));
    assert!(oracle.is_asset_registered(&asset));
    assert_eq!(
        oracle.get_price(&asset),
        Ok(AggregatePrice { price: 0, timestamp: 0, num_sources: 0, decimals: 7 })
    );
    assert_eq!(
        oracle.register_asset(asset.clone()),
        Err(ErrorCode::AssetAlreadyRegistered)
    );
    assert_eq!(oracle.unregister_asset(&asset), Ok(()));
    assert!(!oracle.is_asset_registered(&asset));
    assert_eq!(oracle.get_price(&asset), Err(ErrorCode::AssetNotRegistered));
    assert_eq!(oracle.unregister_asset(&asset), Err(ErrorCode::AssetNotRegistered));
}

#[test]
fn add_and_remove_sources() {
    let mut oracle = initialized(1);
    let a = address("GSRCA");
    let b = address("GSRCB");
    assert_eq!(oracle.add_source(a.clone(), b"alpha".to_vec()), Ok(()));
    assert_eq!(oracle.add_source(b.clone(), b"beta".to_vec()), Ok(()));
    assert_eq!(
        oracle.add_source(a.clone(), b"again".to_vec()),
        Err(ErrorCode::SourceAlreadyExists)
    );
    assert!(oracle.is_source(&a) && oracle.is_source(&b));
    let sources = oracle.get_oracle_sources();
    assert_eq!(sources.sources, vec![a.clone(), b.clone()]);
    assert_eq!(sources.metadata.get(&a), Some(&b"alpha".to_vec()));
    assert_eq!(oracle.remove_source(&a), Ok(()));
    assert!(!oracle.is_source(&a));
    assert!(oracle.is_source(&b));
    assert_eq!(oracle.get_oracle_sources().sources, vec![b.clone()]);
    assert_eq!(oracle.get_oracle_sources().metadata.get(&a), None);
    assert_eq!(oracle.remove_source(&a), Err(ErrorCode::SourceNotFound));
}

#[test]
fn submission_errors_in_order() {
    let mut oracle = initialized(1);
    let src = address("GSRC");
    let asset = address("CASSET");
    assert_eq!(
        oracle.submit_price(src.clone(), asset.clone(), -5, 1, 1),
        Err(ErrorCode::NotAuthorized)
    );
    oracle.add_source(src.clone(), b"s".to_vec()).unwrap();
    assert_eq!(
        oracle.submit_price(src.clone(), asset.clone(), -5, 1, 1),
        Err(ErrorCode::AssetNotRegistered)
    );
    oracle.register_asset(asset.clone()).unwrap();
    assert_eq!(
        oracle.submit_price(src.clone(), asset.clone(), 0, 1, 1),
        Err(ErrorCode::InvalidPrice)
    );
    assert_eq!(
        oracle.submit_price(src.clone(), asset.clone(), -5, 1, 1),
        Err(ErrorCode::InvalidPrice)
    );
    assert!(!oracle.has_source_price(&asset, &src));
}

#[test]
fn aggregate_is_median_once_enough_sources() {
    let mut oracle = initialized(3);
    let asset = address("CASSET");
    oracle.register_asset(asset.clone()).unwrap();
    let srcs = [address("GS1"), address("GS2"), address("GS3"), address("GS4")];
    for (i, s) in srcs.iter().enumerate() {
        oracle.add_source(s.clone(), format!("s{}", i).into_bytes()).unwrap();
    }
    oracle.submit_price(srcs[0].clone(), asset.clone(), 300, 10, 100).unwrap();
    oracle.submit_price(srcs[1].clone(), asset.clone(), 100, 30, 101).unwrap();
    // Only two sources so far: the aggregate is untouched.
    assert_eq!(oracle.get_price(&asset).unwrap().num_sources, 0);
    assert!(!oracle.has_historical_price(&asset, 101));
    oracle.submit_price(srcs[2].clone(), asset.clone(), 200, 20, 102).unwrap();
    assert_eq!(
        oracle.get_price(&asset),
        Ok(AggregatePrice { price: 200, timestamp: 30, num_sources: 3, decimals: 7 })
    );
    assert_eq!(
        oracle.get_historical_price(&asset, 102),
        Ok(PriceHistoryEntry { price: 200, timestamp: 30, ledger: 102, num_sources: 3 })
    );
    // Four prices 300, 100, 200, 251: the median is (200 + 251) / 2.
    oracle.submit_price(srcs[3].clone(), asset.clone(), 251, 5, 103).unwrap();
    assert_eq!(oracle.get_price(&asset).unwrap().price, 225);
    assert_eq!(oracle.get_price(&asset).unwrap().num_sources, 4);
    let all = oracle.get_all_prices(&asset).unwrap();
    let prices: Vec<i128> = all.iter().map(|e| e.price).collect();
    assert_eq!(prices, vec![300, 100, 200, 251]);
    assert_eq!(all[1].source, srcs[1]);
    assert_eq!(all[1].decimals, 7);
}

#[test]
fn history_only_records_changes() {
    let mut oracle = initialized(1);
    let asset = address("CASSET");
    let src = address("GSRC");
    oracle.register_asset(asset.clone()).unwrap();
    oracle.add_source(src.clone(), b"s".to_vec()).unwrap();
    oracle.submit_price(src.clone(), asset.clone(), 50, 7, 10).unwrap();
    oracle.submit_price(src.clone(), asset.clone(), 50, 7, 11).unwrap();
    oracle.submit_price(src.clone(), asset.clone(), 60, 8, 12).unwrap();
    assert!(oracle.has_historical_price(&asset, 10));
    assert!(!oracle.has_historical_price(&asset, 11));
    assert!(oracle.has_historical_price(&asset, 12));
    let range = oracle.get_historical_prices(&asset, 9, 13).unwrap();
    let ledgers: Vec<u32> = range.iter().map(|h| h.ledger).collect();
    assert_eq!(ledgers, vec![10, 12]);
    assert_eq!(range[1].price, 60);
    assert_eq!(oracle.get_historical_prices(&asset, 13, 9).unwrap().len(), 0);
    assert_eq!(
        oracle.get_historical_prices(&address("COTHER"), 0, 5),
        Err(ErrorCode::AssetNotRegistered)
    );
}

#[test]
fn source_price_lookups() {
    let mut oracle = initialized(1);
    let asset = address("CASSET");
    let src = address("GSRC");
    let stranger = address("GSTRANGER");
    assert_eq!(oracle.get_source_price(&asset, &src), Err(ErrorCode::AssetNotRegistered));
    oracle.register_asset(asset.clone()).unwrap();
    assert_eq!(oracle.get_source_price(&asset, &stranger), Err(ErrorCode::NotAuthorized));
    oracle.add_source(src.clone(), b"s".to_vec()).unwrap();
    oracle.submit_price(src.clone(), asset.clone(), 42, 3, 4).unwrap();
    let entry = oracle.get_source_price(&asset, &src).unwrap();
    assert_eq!(entry.price, 42);
    assert_eq!(entry.timestamp, 3);
    assert_eq!(entry.source, src);
    assert_eq!(entry.decimals, 7);
}

#[test]
fn removed_source_no_longer_counts() {
    let mut oracle = initialized(1);
    let asset = address("CASSET");
    let a = address("GSRCA");
    let b = address("GSRCB");
    oracle.register_asset(asset.clone()).unwrap();
    oracle.add_source(a.clone(), b"a".to_vec()).unwrap();
    oracle.add_source(b.clone(), b"b".to_vec()).unwrap();
    oracle.submit_price(a.clone(), asset.clone(), 10, 1, 1).unwrap();
    oracle.remove_source(&a).unwrap();
    oracle.submit_price(b.clone(), asset.clone(), 30, 2, 2).unwrap();
    assert_eq!(oracle.get_price(&asset).unwrap().price, 30);
    assert_eq!(oracle.get_price(&asset).unwrap().num_sources, 1);
}

#[test]
fn huge_prices_cannot_be_aggregated() {
    let mut oracle = initialized(2);
    let asset = address("CASSET");
    let a = address("GSRCA");
    let b = address("GSRCB");
    oracle.register_asset(asset.clone()).unwrap();
    oracle.add_source(a.clone(), b"a".to_vec()).unwrap();
    oracle.add_source(b.clone(), b"b".to_vec()).unwrap();
    assert!(oracle.submission_fits(&a, &asset, i128::MAX, 1));
    oracle.submit_price(a.clone(), asset.clone(), i128::MAX, 1, 1).unwrap();
    assert!(!oracle.submission_fits(&b, &asset, i128::MAX, 1));
    assert!(!oracle.submission_fits(&b, &asset, 1, 1));
    assert!(oracle.submission_fits(&b, &asset, -1, 1));
    oracle.set_min_sources_required(3);
    assert!(oracle.submission_fits(&b, &asset, i128::MAX, 1));
}

#[test]
fn median_values() {
    assert_eq!(compute_median(&vec![]), 0);
    assert_eq!(compute_median(&vec![7]), 7);
    assert_eq!(compute_median(&vec![9, 1, 5]), 5);
    assert_eq!(compute_median(&vec![4, 1, 3, 2]), 2);
    assert_eq!(compute_median(&vec![-3, -4]), -3);
    assert_eq!(compute_median(&vec![10, 20]), 15);
    let mut v = vec![5, -1, 3, 3, 0];
    sort_prices(&mut v);
    assert_eq!(v, vec![-1, 0, 3, 3, 5]);
}

#[test]
fn deviation_values() {
    assert_eq!(compute_deviation_bps(1_010_000, 1_000_000), 100);
    assert_eq!(compute_deviation_bps(990_000, 1_000_000), 100);
    assert_eq!(compute_deviation_bps(3, 2), 5_000);
    assert_eq!(compute_deviation_bps(0, 5), 0);
    assert_eq!(compute_deviation_bps(5, 0), 0);
    assert_eq!(compute_deviation_bps(7, -2), 45_000);
    assert_eq!(compute_deviation_bps(i128::MAX, 1), u32::MAX);
}

#[test]
fn reference_oracle_listed_once_and_removed() {
    let mut oracle = initialized(1);
    let r = address("CREF");
    let mut m = KeyedMap::new();
    m.insert(address("CA"), address("CB"));
    add_reference_oracle(&mut oracle, r.clone(), m);
    add_reference_oracle(&mut oracle, r.clone(), KeyedMap::new());
    assert_eq!(get_reference_oracles(&oracle), vec![r.clone()]);
    remove_reference_oracle(&mut oracle, &r);
    assert!(get_reference_oracles(&oracle).is_empty());
}

#[test]
fn cross_reference_skips_oracles_without_data() {
    let mut oracle = initialized(1);
    let asset = address("CASSET");
    let src = address("GSRC");
    oracle.register_asset(asset.clone()).unwrap();
    oracle.add_source(src.clone(), b"s".to_vec()).unwrap();
    oracle.submit_price(src, asset.clone(), 2_000, 1, 1).unwrap();
    let first = address("CFIRST");
    let second = address("CSECOND");
    let mut m1 = KeyedMap::new();
    m1.insert(asset.clone(), address("CX"));
    let mut m2 = KeyedMap::new();
    m2.insert(asset.clone(), address("CY"));
    add_reference_oracle(&mut oracle, first.clone(), m1);
    add_reference_oracle(&mut oracle, second.clone(), m2);
    let (position, contract_id, mapped) = match get_cross_reference(&oracle, &asset) {
        CrossReferenceStep::Query { position, contract_id, asset } => (position, contract_id, asset),
        CrossReferenceStep::Done { .. } => panic!("expected a query"),
    };
    assert_eq!(position, 0);
    assert_eq!(contract_id, first);
    assert_eq!(mapped, address("CX"));
    // The first oracle has no price: the second is asked.
    let step = resume_cross_reference(&oracle, &asset, position, 0);
    let position = match step {
        CrossReferenceStep::Query { position, contract_id, asset } => {
            assert_eq!(contract_id, second);
            assert_eq!(asset, address("CY"));
            position
        }
        CrossReferenceStep::Done { .. } => panic!("expected a query"),
    };
    match resume_cross_reference(&oracle, &asset, position, 1_000) {
        CrossReferenceStep::Done { result, event } => {
            let result = result.unwrap();
            assert_eq!(result.our_price, 2_000);
            assert_eq!(result.deviation_bps, 10_000);
            assert_eq!(result.ref_contract, second);
            let event = event.unwrap();
            assert_eq!(event.threshold_bps, 500);
            assert_eq!(event.asset, asset);
        }
        CrossReferenceStep::Query { .. } => panic!("expected the end"),
    }
}

#[test]
fn mock_oracle_answers_last_price() {
    let mut mock = MockReferenceOracle::new();
    let a = address("CA");
    assert_eq!(mock.lastprice(&a), 0);
    mock.set_price(a.clone(), 5);
    mock.set_price(a.clone(), 6);
    assert_eq!(mock.lastprice(&a), 6);
    assert_eq!(mock.lastprice(&address("CB")), 0);
}

#[test]
fn keyed_map_insert_get_remove() {
    let mut m: KeyedMap<Address, i128> = KeyedMap::new();
    m.insert(address("CA"), 1);
    m.insert(address("CB"), 2);
    m.insert(address("CA"), 3);
    assert_eq!(m.len(), 2);
    assert_eq!(m.get(&address("CA")), Some(&3));
    m.remove(&address("CA"));
    assert_eq!(m.get(&address("CA")), None);
    assert!(m.contains_key(&address("CB")));
    assert_eq!(m.len(), 1);
}

#[test]
fn threshold_above_limit_is_rejected_and_kept() {
    let mut oracle = initialized(1);
    assert_eq!(
        price_oracle::set_cross_ref_deviation_threshold(&mut oracle, 100_000),
        Ok(())
    );
    assert_eq!(
        price_oracle::set_cross_ref_deviation_threshold(&mut oracle, 100_001),
        Err(ErrorCode::InvalidConfiguration)
    );
    assert_eq!(price_oracle::get_cross_ref_deviation_threshold(&oracle), 100_000);
}

#[test]
fn restoring_from_parts_checks_the_parts() {
    let mut aggregates = KeyedMap::new();
    aggregates.insert(
        address("CASSET"),
        AggregatePrice { price: -1, timestamp: 0, num_sources: 0, decimals: 0 },
    );
    let config = price_oracle::oracle::OracleConfig {
        admin: address("GADMIN"),
        min_sources_required: 1,
        max_history_length: 100,
        decimals: 7,
        description: b"d".to_vec(),
        sources: price_oracle::OracleSources { sources: vec![], metadata: KeyedMap::new() },
    };
    assert!(PriceOracleContract::from_parts(
        Some(config),
        aggregates,
        KeyedMap::new(),
        KeyedMap::new(),
        KeyedMap::new(),
        vec![],
        None,
    )
    .is_none());

    let mut aggregates = KeyedMap::new();
    aggregates.insert(
        address("CASSET"),
        AggregatePrice { price: 3, timestamp: 0, num_sources: 1, decimals: 0 },
    );
    // Registered assets need an initialized oracle.
    assert!(PriceOracleContract::from_parts(
        None,
        aggregates,
        KeyedMap::new(),
        KeyedMap::new(),
        KeyedMap::new(),
        vec![],
        None,
    )
    .is_none());

    let mut aggregates = KeyedMap::new();
    aggregates.insert(
        address("CASSET"),
        AggregatePrice { price: 3, timestamp: 0, num_sources: 1, decimals: 0 },
    );
    let config = price_oracle::oracle::OracleConfig {
        admin: address("GADMIN"),
        min_sources_required: 1,
        max_history_length: 100,
        decimals: 7,
        description: b"d".to_vec(),
        sources: price_oracle::OracleSources { sources: vec![], metadata: KeyedMap::new() },
    };
    let restored = PriceOracleContract::from_parts(
        Some(config),
        aggregates,
        KeyedMap::new(),
        KeyedMap::new(),
        KeyedMap::new(),
        vec![],
        Some(42),
    )
    .unwrap();
    assert_eq!(restored.get_price(&address("CASSET")).unwrap().price, 3);
    assert_eq!(price_oracle::get_cross_ref_deviation_threshold(&restored), 42);
}

#[test]
fn removing_an_added_source_restores_the_sources() {
    let mut oracle = initialized(1);
    oracle.add_source(address("GSRCA"), b"a".to_vec()).unwrap();
    oracle.add_source(address("GSRCB"), b"b".to_vec()).unwrap();
    oracle.add_source(address("GSRCC"), b"c".to_vec()).unwrap();
    oracle.remove_source(&address("GSRCC")).unwrap();
    let sources = oracle.get_oracle_sources();
    assert_eq!(sources.sources, vec![address("GSRCA"), address("GSRCB")]);
    assert_eq!(sources.metadata.len(), 2);
    assert_eq!(sources.metadata.get(&address("GSRCC")), None);
    assert!(!oracle.is_source(&address("GSRCC")));
}

#[test]
fn aggregate_does_not_depend_on_source_order() {
    let prices = [(address("GS1"), 40), (address("GS2"), 10), (address("GS3"), 30)];
    let mut forward = initialized(3);
    let mut backward = initialized(3);
    let asset = address("CASSET");
    forward.register_asset(asset.clone()).unwrap();
    backward.register_asset(asset.clone()).unwrap();
    for (s, _) in prices.iter() {
        forward.add_source(s.clone(), b"f".to_vec()).unwrap();
    }
    for (s, _) in prices.iter().rev() {
        backward.add_source(s.clone(), b"b".to_vec()).unwrap();
    }
    for (i, (s, p)) in prices.iter().enumerate() {
        forward.submit_price(s.clone(), asset.clone(), *p, i as u64, 5).unwrap();
        backward.submit_price(s.clone(), asset.clone(), *p, i as u64, 5).unwrap();
    }
    let a = forward.get_price(&asset).unwrap();
    assert_eq!(a, backward.get_price(&asset).unwrap());
    assert_eq!(a.price, 30);
    assert!(a.price >= 10 && a.price <= 40);
}

#[test]
fn restoring_rejects_inconsistent_sources() {
    let config = |sources: Vec<Address>, names: &[&str]| {
        let mut metadata = KeyedMap::new();
        for n in names {
            metadata.insert(address(n), n.as_bytes().to_vec());
        }
        price_oracle::oracle::OracleConfig {
            admin: address("GADMIN"),
            min_sources_required: 1,
            max_history_length: 100,
            decimals: 7,
            description: b"d".to_vec(),
            sources: price_oracle::OracleSources { sources, metadata },
        }
    };
    let restore = |c| {
        PriceOracleContract::from_parts(
            Some(c),
            KeyedMap::new(),
            KeyedMap::new(),
            KeyedMap::new(),
            KeyedMap::new(),
            vec![],
            None,
        )
    };
    // A source listed twice.
    assert!(restore(config(vec![address("GA"), address("GA")], &["GA"])).is_none());
    // A source without a name.
    assert!(restore(config(vec![address("GA"), address("GB")], &["GA"])).is_none());
    // A name without a source.
    assert!(restore(config(vec![address("GA")], &["GA", "GB"])).is_none());
    assert!(restore(config(vec![address("GA"), address("GB")], &["GB", "GA"])).is_some());
}

#[test]
fn authorizers_follow_the_admin() {
    let mut oracle = PriceOracleContract::new();
    assert_eq!(oracle.authorizer(&Call::Administer), None);
    assert_eq!(
        oracle.authorizer(&Call::Initialize { admin: address("GADMIN") }),
        Some(address("GADMIN"))
    );
    oracle
        .initialize(address("GADMIN"), 1, 1, 7, b"d".to_vec())
        .unwrap();
    assert_eq!(oracle.authorizer(&Call::Administer), Some(address("GADMIN")));
    oracle.set_admin(address("GNEW"));
    assert_eq!(oracle.authorizer(&Call::Administer), Some(address("GNEW")));
    assert_eq!(
        oracle.authorizer(&Call::SubmitPrice { source: address("GSRC") }),
        Some(address("GSRC"))
    );
}
