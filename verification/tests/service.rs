use vector_db::http_server::{insert_handler, search_handler, Reply, ReplyBody};
use vector_db::index_factory::{
    get_index, init_index, GlobalIndexFactory, IndexInstance, IndexType, MetricType,
};
use vector_db::ranking::Neighbor;
use vector_db::vector_database::{insert, search};

fn service_words(v: &[f32]) -> Vec<u32> {
    v.iter().map(|x| x.to_bits()).collect()
}

fn service_distance(a: &[f32], b: &[f32]) -> f32 {
    a.iter().zip(b.iter()).map(|(x, y)| (x - y).powi(2)).sum::<f32>().sqrt()
}

/// Scores every slot of the registered flat index against `query`.
fn service_score(factory: &GlobalIndexFactory, query: &[f32]) -> Vec<Neighbor> {
    match get_index(factory, IndexType::FLAT) {
        Some(IndexInstance::Flat(index)) => (0..index.slot_count())
            .map(|slot| {
                let stored: Vec<f32> =
                    index.vector(slot).unwrap().iter().map(|w| f32::from_bits(*w)).collect();
                Neighbor { index: slot, distance: service_distance(query, &stored).to_bits() }
            })
            .collect(),
        _ => Vec::new(),
    }
}

fn service_search(factory: &GlobalIndexFactory, query: &[f32], k: usize) -> (Vec<i64>, Vec<f32>) {
    let scored = service_score(factory, query);
    let (ids, keys) = search(factory, service_words(query), k, IndexType::FLAT, &scored).unwrap();
    (ids, keys.iter().map(|w| f32::from_bits(*w)).collect())
}

#[test]
fn flat_service_returns_both_vectors_nearest_first() {
    let mut factory = GlobalIndexFactory::new();
    init_index(&mut factory, IndexType::FLAT, 2, 1000, MetricType::L2).unwrap();
    assert_eq!(insert(&mut factory, service_words(&[0.0, 0.0]), 1, IndexType::FLAT), Ok(1));
    assert_eq!(insert(&mut factory, service_words(&[3.0, 4.0]), 2, IndexType::FLAT), Ok(2));
    let (ids, distances) = service_search(&factory, &[0.0, 0.0], 2);
    assert_eq!(ids, vec![1, 2]);
    assert_eq!(distances, vec![0.0, 5.0]);
}

#[test]
fn flat_service_forgets_a_removed_vector() {
    let mut factory = GlobalIndexFactory::new();
    init_index(&mut factory, IndexType::FLAT, 2, 1000, MetricType::L2).unwrap();
    assert_eq!(insert(&mut factory, service_words(&[1.0, 1.0]), 5, IndexType::FLAT), Ok(5));
    match factory.get_index_mut(IndexType::FLAT) {
        Some(IndexInstance::Flat(index)) => {
            assert_eq!(vector_db::index_factory::VectorIndex::remove(index, &[5]), Ok(()))
        }
        _ => panic!("no flat index"),
    }
    let (ids, distances) = service_search(&factory, &[1.0, 1.0], 1);
    assert!(ids.is_empty());
    assert!(distances.is_empty());
}

#[test]
fn flat_service_search_order_does_not_depend_on_insertion_order() {
    let points: [[f32; 2]; 5] = [[9.0, 9.0], [1.0, 1.0], [4.0, 4.0], [2.0, 2.0], [7.0, 7.0]];
    let mut forward = GlobalIndexFactory::new();
    let mut backward = GlobalIndexFactory::new();
    init_index(&mut forward, IndexType::FLAT, 2, 1000, MetricType::L2).unwrap();
    init_index(&mut backward, IndexType::FLAT, 2, 1000, MetricType::L2).unwrap();
    for (i, p) in points.iter().enumerate() {
        insert(&mut forward, service_words(p), i as i64, IndexType::FLAT).unwrap();
    }
    for (i, p) in points.iter().enumerate().rev() {
        insert(&mut backward, service_words(p), i as i64, IndexType::FLAT).unwrap();
    }
    for k in 0..=5usize {
        assert_eq!(service_search(&forward, &[0.0, 0.0], k), service_search(&backward, &[0.0, 0.0], k));
    }
    assert_eq!(service_search(&forward, &[0.0, 0.0], 5).0, vec![1, 3, 2, 4, 0]);
}

#[test]
fn requests_are_served_end_to_end() {
    let mut factory = GlobalIndexFactory::new();
    init_index(&mut factory, IndexType::FLAT, 1, 1000, MetricType::L2).unwrap();
    for (id, x) in [(10i64, 2.0f32), (11, -1.0), (12, 0.5)] {
        assert_eq!(
            insert_handler(&mut factory, service_words(&[x]), id, "FLAT"),
            Reply { status: 200, body: ReplyBody::Inserted(id) }
        );
    }
    let query = [0.0f32];
    let scored = service_score(&factory, &query);
    let reply = search_handler(&factory, service_words(&query), 2, "FLAT", &scored);
    assert_eq!(
        reply,
        Reply {
            status: 200,
            body: ReplyBody::Found(vec![12, 11], vec![0.5f32.to_bits(), 1.0f32.to_bits()])
        }
    );
}
