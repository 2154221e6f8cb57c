use vdb_router::collection::{VDBCollection, VDBResolver};
use vdb_router::errors::Error;
use vdb_router::vdb::{DistributionMethod, VDBKind, VDB};

fn combinator(name: &str, entries: &[(usize, &str)]) -> VDB {
    let mut vdb = VDB::new(name.to_string(), VDBKind::Combinator);
    for (engine, database) in entries {
        vdb.add_engine(*engine, database.to_string());
    }
    vdb
}

#[test]
fn resolve_single_combinator() {
    let mut collection = VDBCollection::new();
    collection.add_vdb(combinator("a", &[(0, "x"), (1, "y")]));
    let result = collection.resolve("a".to_string()).unwrap();
    assert_eq!(result.len(), 2);
    assert_eq!(result[0].engine, 0);
    assert_eq!(result[0].databasematch, "x");
    assert_eq!(result[1].engine, 1);
    assert_eq!(result[1].databasematch, "y");
}

#[test]
fn resolve_joins_by_engine_in_request_order() {
    let mut collection = VDBCollection::new();
    collection.add_vdb(combinator("a", &[(0, "x")]));
    collection.add_vdb(combinator("b", &[(0, "y")]));
    let result = collection.resolve("a,b".to_string()).unwrap();
    assert_eq!(result.len(), 1);
    assert_eq!(result[0].engine, 0);
    assert_eq!(result[0].databasematch, "x,y");
}

#[test]
fn resolve_orders_engines_by_first_reference() {
    // Engine 1 is referenced before engine 0, so it comes first in the output,
    // not in numeric order.
    let mut collection = VDBCollection::new();
    collection.add_vdb(combinator("a", &[(1, "x"), (0, "y")]));
    collection.add_vdb(combinator("b", &[(0, "z")]));
    let result = collection.resolve("a,b".to_string()).unwrap();
    assert_eq!(result.len(), 2);
    assert_eq!(result[0].engine, 1);
    assert_eq!(result[0].databasematch, "x");
    assert_eq!(result[1].engine, 0);
    assert_eq!(result[1].databasematch, "y,z");
}

#[test]
fn resolve_reports_missing_name() {
    let mut collection = VDBCollection::new();
    collection.add_vdb(combinator("a", &[(0, "x")]));
    let result = collection.resolve("a,zzz".to_string());
    assert_eq!(result.unwrap_err(), Error::UnknownVDB { names: vec!["zzz".to_string()] });
}

#[test]
fn resolve_reports_every_missing_name() {
    let mut collection = VDBCollection::new();
    collection.add_vdb(combinator("a", &[(0, "x")]));
    let result = collection.resolve("zzz,a,yyy".to_string());
    assert_eq!(
        result.unwrap_err(),
        Error::UnknownVDB { names: vec!["zzz".to_string(), "yyy".to_string()] }
    );
}

#[test]
fn resolve_treats_empty_token_as_unknown() {
    let mut collection = VDBCollection::new();
    collection.add_vdb(combinator("a", &[(0, "x")]));
    let result = collection.resolve("a,".to_string());
    assert_eq!(result.unwrap_err(), Error::UnknownVDB { names: vec!["".to_string()] });
}

#[test]
fn resolve_empty_request_is_unknown() {
    let collection = VDBCollection::new();
    let result = collection.resolve("".to_string());
    assert_eq!(result.unwrap_err(), Error::UnknownVDB { names: vec!["".to_string()] });
}

#[test]
fn resolve_propagates_selection_failure() {
    // A load balancer over an empty mapping fails its selection; the error is
    // returned to the caller, it does not abort the process.
    let mut collection = VDBCollection::new();
    collection.add_vdb(combinator("a", &[(0, "x")]));
    collection.add_vdb(VDB::new(
        "b".to_string(),
        VDBKind::Distributor(DistributionMethod::LoadBalance),
    ));
    let result = collection.resolve("a,b".to_string());
    assert_eq!(result.unwrap_err(), Error::SelectionEmpty { vdb: "b".to_string() });
}

#[test]
fn resolve_propagates_failover_misconfiguration() {
    let mut collection = VDBCollection::new();
    let mut vdb = VDB::new("f".to_string(), VDBKind::Distributor(DistributionMethod::FailOver(3)));
    vdb.add_engine(0, "x".to_string());
    collection.add_vdb(vdb);
    let result = collection.resolve("f".to_string());
    assert_eq!(
        result.unwrap_err(),
        Error::EngineNotConfigured { engine: 3, vdb: "f".to_string() }
    );
}

#[test]
fn resolve_is_read_only_and_repeatable() {
    let mut collection = VDBCollection::new();
    collection.add_vdb(combinator("a", &[(0, "x"), (2, "y")]));
    let mut failover = VDB::new(
        "b".to_string(),
        VDBKind::Distributor(DistributionMethod::FailOver(2)),
    );
    failover.add_engine(2, "z".to_string());
    collection.add_vdb(failover);
    let first = collection.resolve("a,b".to_string()).unwrap();
    for _ in 0..5 {
        let again = collection.resolve("a,b".to_string()).unwrap();
        assert_eq!(again, first);
    }
    assert_eq!(first.len(), 2);
    assert_eq!(first[0].engine, 0);
    assert_eq!(first[0].databasematch, "x");
    assert_eq!(first[1].engine, 2);
    assert_eq!(first[1].databasematch, "y,z");
}

#[test]
fn resolve_loadbalance_stays_inside_mapping() {
    let mut collection = VDBCollection::new();
    let mut lb = VDB::new(
        "lb".to_string(),
        VDBKind::Distributor(DistributionMethod::LoadBalance),
    );
    lb.add_engine(4, "four".to_string());
    lb.add_engine(5, "five".to_string());
    collection.add_vdb(lb);
    for _ in 0..100 {
        let result = collection.resolve("lb".to_string()).unwrap();
        assert_eq!(result.len(), 1);
        assert!(result[0].engine == 4 || result[0].engine == 5);
        let expected = if result[0].engine == 4 { "four" } else { "five" };
        assert_eq!(result[0].databasematch, expected);
    }
}

#[test]
fn add_vdb_replaces_by_name() {
    let mut collection = VDBCollection::new();
    collection.add_vdb(combinator("a", &[(0, "old")]));
    collection.add_vdb(combinator("a", &[(0, "new")]));
    let result = collection.resolve("a".to_string()).unwrap();
    assert_eq!(result.len(), 1);
    assert_eq!(result[0].databasematch, "new");
}
