use vdb_router::errors::Error;
use vdb_router::vdb::{DatabaseMapping, DistributionMethod, VDBKind, VDB};

fn setup_test_vdb(kind: VDBKind) -> VDB {
    let mut vdb = VDB::new("testVDB".to_string(), kind);
    vdb.add_engine(0, "foo".to_string());
    vdb.add_engine(1, "bar".to_string());
    vdb
}

#[test]
fn basic_combinator() -> Result<(), String> {
    let vdb = setup_test_vdb(VDBKind::Combinator);
    let result = vdb.select_database();
    match result {
        Ok(result_mapping) => {
            assert_eq!(result_mapping.len(), 2);
            assert_eq!(result_mapping[0].engine, 0);
            assert_eq!(result_mapping[0].databasematch, "foo");
            assert_eq!(result_mapping[1].engine, 1);
            assert_eq!(result_mapping[1].databasematch, "bar");
            Ok(())
        }
        Err(e) => Err(format!("{:?}", e)),
    }
}

#[test]
fn basic_distributor_failover() -> Result<(), String> {
    let vdb = setup_test_vdb(VDBKind::Distributor(DistributionMethod::FailOver(0)));
    let result = vdb.select_database();
    match result {
        Ok(result_mapping) => {
            assert_eq!(result_mapping.len(), 1);
            assert_eq!(result_mapping[0].engine, 0);
            assert_eq!(result_mapping[0].databasematch, "foo");
            Ok(())
        }
        Err(e) => Err(format!("{:?}", e)),
    }
}

#[test]
fn basic_distributor_failover_set_primary() -> Result<(), String> {
    let mut vdb = setup_test_vdb(VDBKind::Distributor(DistributionMethod::FailOver(0)));
    vdb.set_primary_engine(1).map_err(|e| format!("{:?}", e))?;
    let result = vdb.select_database();
    match result {
        Ok(result_mapping) => {
            assert_eq!(result_mapping.len(), 1);
            assert_eq!(result_mapping[0].engine, 1);
            assert_eq!(result_mapping[0].databasematch, "bar");
            Ok(())
        }
        Err(e) => Err(format!("{:?}", e)),
    }
}

#[test]
fn combinator_is_deterministic_across_calls() {
    let vdb = setup_test_vdb(VDBKind::Combinator);
    for _ in 0..10 {
        let result = vdb.select_database().unwrap();
        assert_eq!(result.len(), 2);
        assert_eq!(result[0].engine, 0);
        assert_eq!(result[0].databasematch, "foo");
        assert_eq!(result[1].engine, 1);
        assert_eq!(result[1].databasematch, "bar");
    }
}

#[test]
fn combinator_empty_mapping_selects_nothing() {
    let vdb = VDB::new("empty".to_string(), VDBKind::Combinator);
    let result = vdb.select_database().unwrap();
    assert!(result.is_empty());
}

#[test]
fn set_primary_engine_rejects_non_key() {
    // The mapping's keys are {0, 1}; 2 equals the entry count but is not a
    // key, so the mutation must be rejected.
    let mut vdb = setup_test_vdb(VDBKind::Distributor(DistributionMethod::FailOver(0)));
    let result = vdb.set_primary_engine(2);
    assert_eq!(result, Err(Error::OutOfRange));
    // The policy is unchanged: selection still serves the old primary.
    let selected = vdb.select_database().unwrap();
    assert_eq!(selected.len(), 1);
    assert_eq!(selected[0].engine, 0);
    assert_eq!(selected[0].databasematch, "foo");
}

#[test]
fn set_primary_engine_accepts_sparse_key() {
    // A key need not be dense: key 7 is valid even though only 2 entries exist.
    let mut vdb = VDB::new("sparse".to_string(), VDBKind::Distributor(DistributionMethod::FailOver(7)));
    vdb.add_engine(7, "seven".to_string());
    vdb.add_engine(9, "nine".to_string());
    vdb.set_primary_engine(9).unwrap();
    let selected = vdb.select_database().unwrap();
    assert_eq!(selected.len(), 1);
    assert_eq!(selected[0].engine, 9);
    assert_eq!(selected[0].databasematch, "nine");
}

#[test]
fn set_primary_engine_rejected_on_combinator() {
    let mut vdb = setup_test_vdb(VDBKind::Combinator);
    assert_eq!(vdb.set_primary_engine(0), Err(Error::InvalidOperation));
    // State is unchanged.
    let result = vdb.select_database().unwrap();
    assert_eq!(result.len(), 2);
    assert_eq!(result[0].databasematch, "foo");
    assert_eq!(result[1].databasematch, "bar");
}

#[test]
fn set_primary_engine_rejected_on_loadbalance() {
    let mut vdb = setup_test_vdb(VDBKind::Distributor(DistributionMethod::LoadBalance));
    assert_eq!(vdb.set_primary_engine(0), Err(Error::InvalidOperation));
    // Selection still draws from the unchanged mapping.
    let result = vdb.select_database().unwrap();
    assert_eq!(result.len(), 1);
    assert!(result[0].engine == 0 || result[0].engine == 1);
}

#[test]
fn failover_missing_primary_is_reported() {
    let vdb = setup_test_vdb(VDBKind::Distributor(DistributionMethod::FailOver(7)));
    let result = vdb.select_database();
    assert_eq!(
        result.unwrap_err(),
        Error::EngineNotConfigured { engine: 7, vdb: "testVDB".to_string() }
    );
}

#[test]
fn loadbalance_empty_mapping_is_reported() {
    let vdb = VDB::new("lb".to_string(), VDBKind::Distributor(DistributionMethod::LoadBalance));
    let result = vdb.select_database();
    assert_eq!(result.unwrap_err(), Error::SelectionEmpty { vdb: "lb".to_string() });
}

#[test]
fn loadbalance_covers_mapping_and_stays_inside() {
    let vdb = setup_test_vdb(VDBKind::Distributor(DistributionMethod::LoadBalance));
    let mut seen = [false, false];
    for _ in 0..400 {
        let result = vdb.select_database().unwrap();
        assert_eq!(result.len(), 1);
        let engine = result[0].engine;
        // Never a value outside the mapping's keys.
        assert!(engine == 0 || engine == 1);
        let expected = if engine == 0 { "foo" } else { "bar" };
        assert_eq!(result[0].databasematch, expected);
        seen[engine] = true;
    }
    // Over many trials every key is chosen at least once.
    assert!(seen[0] && seen[1]);
}

#[test]
fn add_engine_replaces_in_place() {
    let mut vdb = setup_test_vdb(VDBKind::Combinator);
    vdb.add_engine(0, "patched".to_string());
    let result = vdb.select_database().unwrap();
    assert_eq!(result.len(), 2);
    assert_eq!(result[0].engine, 0);
    assert_eq!(result[0].databasematch, "patched");
    assert_eq!(result[1].engine, 1);
    assert_eq!(result[1].databasematch, "bar");
}
