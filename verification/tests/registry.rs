use vector_db::errors::{IndexError, IndexNotFoundError};
use vector_db::index_factory::{
    get_index, init_index, GlobalIndexFactory, IndexInstance, IndexType, MetricType, VectorIndex,
};
use vector_db::indexes::hnsw_index::Distance;
use vector_db::ranking::Neighbor;
use vector_db::vector_database::{insert, search, VectorDatabase};

#[test]
fn registry_starts_empty() {
    let factory = GlobalIndexFactory::new();
    assert!(get_index(&factory, IndexType::FLAT).is_none());
    assert!(get_index(&factory, IndexType::HNSW).is_none());
    assert!(get_index(&factory, IndexType::FILTER).is_none());
    assert!(get_index(&factory, IndexType::UNKNOWN).is_none());
}

#[test]
fn registry_initializes_each_type_with_its_kind() {
    let mut factory = GlobalIndexFactory::new();
    assert_eq!(init_index(&mut factory, IndexType::FLAT, 3, 1000, MetricType::IP), Ok(()));
    assert_eq!(init_index(&mut factory, IndexType::HNSW, 4, 1000, MetricType::L2), Ok(()));
    match get_index(&factory, IndexType::FLAT) {
        Some(IndexInstance::Flat(index)) => {
            assert_eq!(index.dimension(), 3);
            assert_eq!(index.metric(), MetricType::IP);
            assert_eq!(index.slot_count(), 0);
        }
        _ => panic!("no flat index"),
    }
    match get_index(&factory, IndexType::HNSW) {
        Some(IndexInstance::Graph(index)) => {
            assert_eq!(index.dimension(), 4);
            assert_eq!(index.metric(), Distance::Euclidean);
            assert_eq!(index.len(), 0);
        }
        _ => panic!("no graph index"),
    }
}

#[test]
fn registry_maps_inner_product_to_the_graph_metric() {
    let mut factory = GlobalIndexFactory::new();
    init_index(&mut factory, IndexType::HNSW, 1, 0, MetricType::IP).unwrap();
    match get_index(&factory, IndexType::HNSW) {
        Some(IndexInstance::Graph(index)) => assert_eq!(index.metric(), Distance::InnerProduct),
        _ => panic!("no graph index"),
    }
    assert_eq!(Distance::from_metric(MetricType::L2), Distance::Euclidean);
    assert_eq!(Distance::from_metric(MetricType::IP), Distance::InnerProduct);
}

#[test]
fn registry_refuses_types_without_an_algorithm() {
    let mut factory = GlobalIndexFactory::new();
    assert_eq!(
        init_index(&mut factory, IndexType::FILTER, 1, 1000, MetricType::L2),
        Err(IndexError::UnknownIndexType)
    );
    assert_eq!(
        init_index(&mut factory, IndexType::UNKNOWN, 1, 1000, MetricType::L2),
        Err(IndexError::UnknownIndexType)
    );
    assert!(get_index(&factory, IndexType::FILTER).is_none());
    assert!(get_index(&factory, IndexType::UNKNOWN).is_none());
}

#[test]
fn registry_reinitializing_drops_the_contents() {
    let mut factory = GlobalIndexFactory::new();
    init_index(&mut factory, IndexType::FLAT, 1, 1000, MetricType::L2).unwrap();
    insert(&mut factory, vec![1.0f32.to_bits()], 1, IndexType::FLAT).unwrap();
    init_index(&mut factory, IndexType::FLAT, 2, 1000, MetricType::L2).unwrap();
    match get_index(&factory, IndexType::FLAT) {
        Some(IndexInstance::Flat(index)) => {
            assert_eq!(index.dimension(), 2);
            assert_eq!(index.slot_count(), 0);
        }
        _ => panic!("no flat index"),
    }
}

#[test]
fn registry_types_are_independent() {
    let mut factory = GlobalIndexFactory::new();
    init_index(&mut factory, IndexType::FLAT, 1, 1000, MetricType::L2).unwrap();
    init_index(&mut factory, IndexType::HNSW, 1, 1000, MetricType::L2).unwrap();
    assert_eq!(insert(&mut factory, vec![5], 42, IndexType::FLAT), Ok(42));
    assert_eq!(insert(&mut factory, vec![5], 42, IndexType::HNSW), Ok(0));
    assert_eq!(insert(&mut factory, vec![6], 42, IndexType::HNSW), Ok(1));
    assert_eq!(insert(&mut factory, vec![6], 42, IndexType::FLAT), Err(IndexError::DuplicateId));
    match get_index(&factory, IndexType::FLAT) {
        Some(IndexInstance::Flat(index)) => assert_eq!(index.slot_count(), 1),
        _ => panic!("no flat index"),
    }
    match get_index(&factory, IndexType::HNSW) {
        Some(IndexInstance::Graph(index)) => assert_eq!(index.len(), 2),
        _ => panic!("no graph index"),
    }
}

#[test]
fn registry_mutable_handle_reaches_the_registered_index() {
    let mut factory = GlobalIndexFactory::new();
    init_index(&mut factory, IndexType::FLAT, 1, 1000, MetricType::L2).unwrap();
    insert(&mut factory, vec![7], 3, IndexType::FLAT).unwrap();
    assert!(factory.get_index_mut(IndexType::HNSW).is_none());
    let index = factory.get_index_mut(IndexType::FLAT).unwrap();
    assert_eq!(index.remove(&[3]), Ok(()));
    let scored = vec![Neighbor { index: 0, distance: 0 }];
    assert_eq!(search(&factory, vec![7], 1, IndexType::FLAT, &scored), Ok((vec![], vec![])));
}

#[test]
fn facade_reports_index_not_found_for_uninitialized_types() {
    let mut factory = GlobalIndexFactory::new();
    init_index(&mut factory, IndexType::FLAT, 1, 1000, MetricType::L2).unwrap();
    let expected = IndexError::IndexNotFound(IndexNotFoundError::new());
    assert_eq!(insert(&mut factory, vec![1], 1, IndexType::HNSW), Err(expected.clone()));
    assert_eq!(insert(&mut factory, vec![1], 1, IndexType::FILTER), Err(expected.clone()));
    assert_eq!(search(&factory, vec![1], 1, IndexType::HNSW, &vec![]), Err(expected.clone()));
    assert_eq!(search(&factory, vec![1], 1, IndexType::UNKNOWN, &vec![]), Err(expected.clone()));
    let empty = GlobalIndexFactory::new();
    assert_eq!(search(&empty, vec![1], 1, IndexType::FLAT, &vec![]), Err(expected));
}

#[test]
fn facade_methods_agree_with_the_free_functions() {
    let mut factory = GlobalIndexFactory::new();
    init_index(&mut factory, IndexType::FLAT, 1, 1000, MetricType::L2).unwrap();
    let database = VectorDatabase {};
    assert_eq!(database.insert(&mut factory, vec![9], 11, IndexType::FLAT), Ok(11));
    assert_eq!(database.insert(&mut factory, vec![4], 12, IndexType::FLAT), Ok(12));
    let scored = vec![Neighbor { index: 0, distance: 9 }, Neighbor { index: 1, distance: 4 }];
    let by_method = database.search(&factory, vec![0], 2, IndexType::FLAT, &scored);
    let by_function = search(&factory, vec![0], 2, IndexType::FLAT, &scored);
    assert_eq!(by_method, Ok((vec![12, 11], vec![4, 9])));
    assert_eq!(by_method, by_function);
}

#[test]
fn facade_passes_index_failures_through() {
    let mut factory = GlobalIndexFactory::new();
    init_index(&mut factory, IndexType::FLAT, 2, 1000, MetricType::L2).unwrap();
    init_index(&mut factory, IndexType::HNSW, 2, 1000, MetricType::L2).unwrap();
    assert_eq!(insert(&mut factory, vec![1], 1, IndexType::FLAT), Err(IndexError::DimensionMismatch));
    assert_eq!(insert(&mut factory, vec![1], 1, IndexType::HNSW), Err(IndexError::DimensionMismatch));
    assert_eq!(
        search(&factory, vec![1], 1, IndexType::FLAT, &vec![]),
        Err(IndexError::DimensionMismatch)
    );
    assert_eq!(
        search(&factory, vec![1, 2], 1, IndexType::FLAT, &vec![Neighbor { index: 0, distance: 0 }]),
        Err(IndexError::InvalidCandidates)
    );
}
