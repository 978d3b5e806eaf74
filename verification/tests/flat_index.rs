use vector_db::errors::IndexError;
use vector_db::index_factory::{MetricType, VectorIndex};
use vector_db::indexes::faiss_index::FaissIndex;
use vector_db::ranking::Neighbor;

fn flat_bits(v: &[f32]) -> Vec<u32> {
    v.iter().map(|x| x.to_bits()).collect()
}

fn flat_euclidean(a: &[f32], b: &[f32]) -> f32 {
    a.iter().zip(b.iter()).map(|(x, y)| (x - y).powi(2)).sum::<f32>().sqrt()
}

fn flat_inner_product(a: &[f32], b: &[f32]) -> f32 {
    a.iter().zip(b.iter()).map(|(x, y)| x * y).sum::<f32>().sqrt()
}

/// Scores every slot of `index` against `query`.
fn flat_score(index: &FaissIndex, query: &[f32]) -> Vec<Neighbor> {
    (0..index.slot_count())
        .map(|slot| {
            let stored: Vec<f32> =
                index.vector(slot).unwrap().iter().map(|b| f32::from_bits(*b)).collect();
            let distance = match index.metric() {
                MetricType::L2 => flat_euclidean(query, &stored),
                MetricType::IP => flat_inner_product(query, &stored),
            };
            Neighbor { index: slot, distance: distance.to_bits() }
        })
        .collect()
}

fn flat_search(index: &FaissIndex, query: &[f32], k: usize) -> (Vec<i64>, Vec<f32>) {
    let scored = flat_score(index, query);
    let (ids, keys) = index.search(&flat_bits(query), k, &scored).unwrap();
    (ids, keys.iter().map(|b| f32::from_bits(*b)).collect())
}

#[test]
fn flat_two_vectors_in_distance_order() {
    let mut index = FaissIndex::new(2, MetricType::L2).unwrap();
    assert_eq!(index.insert(&flat_bits(&[0.0, 0.0]), 1), Ok(1));
    assert_eq!(index.insert(&flat_bits(&[3.0, 4.0]), 2), Ok(2));
    let (ids, distances) = flat_search(&index, &[0.0, 0.0], 2);
    assert_eq!(ids, vec![1, 2]);
    assert_eq!(distances, vec![0.0, 5.0]);
}

#[test]
fn flat_removed_vector_is_not_found() {
    let mut index = FaissIndex::new(2, MetricType::L2).unwrap();
    assert_eq!(index.insert(&flat_bits(&[1.0, 1.0]), 5), Ok(5));
    assert_eq!(index.remove(&[5]), Ok(()));
    let (ids, distances) = flat_search(&index, &[1.0, 1.0], 1);
    assert!(ids.is_empty());
    assert!(distances.is_empty());
}

#[test]
fn flat_round_trip_returns_inserted_id_at_distance_zero() {
    let mut index = FaissIndex::new(3, MetricType::L2).unwrap();
    let vectors: [[f32; 3]; 4] =
        [[1.0, 2.0, 3.0], [-4.0, 0.5, 9.0], [0.0, 0.0, 0.0], [7.25, -7.25, 1.0]];
    for (i, v) in vectors.iter().enumerate() {
        let id = 100 + i as i64;
        assert_eq!(index.insert(&flat_bits(v), id), Ok(id));
        let (ids, distances) = flat_search(&index, v, 1);
        assert_eq!(ids, vec![id]);
        assert_eq!(distances, vec![0.0]);
    }
}

#[test]
fn flat_equal_vector_stored_earlier_wins_the_tie() {
    let mut index = FaissIndex::new(2, MetricType::L2).unwrap();
    index.insert(&flat_bits(&[0.0, 0.0]), 1).unwrap();
    index.insert(&flat_bits(&[0.0, 0.0]), 2).unwrap();
    let (ids, distances) = flat_search(&index, &[0.0, 0.0], 1);
    assert_eq!(ids, vec![1]);
    assert_eq!(distances, vec![0.0]);
    let (ids, _) = flat_search(&index, &[0.0, 0.0], 2);
    assert_eq!(ids, vec![1, 2]);
}

#[test]
fn flat_distances_ascend_and_match_brute_force() {
    let mut index = FaissIndex::new(2, MetricType::L2).unwrap();
    let points: [[f32; 2]; 6] =
        [[5.0, 5.0], [1.0, 0.0], [0.0, 2.0], [-3.0, 0.0], [0.5, 0.5], [10.0, -10.0]];
    for (i, p) in points.iter().enumerate() {
        index.insert(&flat_bits(p), i as i64 + 1).unwrap();
    }
    let query = [0.0f32, 0.0];
    let mut expected: Vec<(f32, i64)> = points
        .iter()
        .enumerate()
        .map(|(i, p)| (flat_euclidean(&query, p), i as i64 + 1))
        .collect();
    expected.sort_by(|a, b| a.0.partial_cmp(&b.0).unwrap());
    for k in 0..=6usize {
        let (ids, distances) = flat_search(&index, &query, k);
        assert_eq!(ids.len(), k);
        assert_eq!(ids, expected.iter().take(k).map(|e| e.1).collect::<Vec<i64>>());
        assert_eq!(distances, expected.iter().take(k).map(|e| e.0).collect::<Vec<f32>>());
        assert!(distances.windows(2).all(|w| w[0] <= w[1]));
    }
}

#[test]
fn flat_k_beyond_stored_returns_stored_count() {
    let mut index = FaissIndex::new(1, MetricType::L2).unwrap();
    index.insert(&flat_bits(&[2.0]), 7).unwrap();
    index.insert(&flat_bits(&[1.0]), 8).unwrap();
    index.insert(&flat_bits(&[3.0]), 9).unwrap();
    let (ids, distances) = flat_search(&index, &[0.0], 10);
    assert_eq!(ids, vec![8, 7, 9]);
    assert_eq!(distances, vec![1.0, 2.0, 3.0]);
}

#[test]
fn flat_empty_index_returns_nothing() {
    let index = FaissIndex::new(2, MetricType::L2).unwrap();
    assert_eq!(index.slot_count(), 0);
    let (ids, distances) = flat_search(&index, &[1.0, 1.0], 3);
    assert!(ids.is_empty());
    assert!(distances.is_empty());
}

#[test]
fn flat_rejects_duplicate_id() {
    let mut index = FaissIndex::new(1, MetricType::L2).unwrap();
    assert_eq!(index.insert(&flat_bits(&[1.0]), 4), Ok(4));
    assert_eq!(index.insert(&flat_bits(&[2.0]), 4), Err(IndexError::DuplicateId));
    assert_eq!(index.slot_count(), 1);
    let (ids, distances) = flat_search(&index, &[0.0], 5);
    assert_eq!(ids, vec![4]);
    assert_eq!(distances, vec![1.0]);
}

#[test]
fn flat_rejects_wrong_length_on_insert_and_search() {
    let mut index = FaissIndex::new(2, MetricType::L2).unwrap();
    assert_eq!(index.insert(&flat_bits(&[1.0]), 1), Err(IndexError::DimensionMismatch));
    assert_eq!(index.insert(&flat_bits(&[1.0, 2.0, 3.0]), 1), Err(IndexError::DimensionMismatch));
    assert_eq!(index.slot_count(), 0);
    index.insert(&flat_bits(&[1.0, 2.0]), 1).unwrap();
    let scored = flat_score(&index, &[0.0, 0.0]);
    assert_eq!(index.search(&flat_bits(&[0.0]), 1, &scored), Err(IndexError::DimensionMismatch));
}

#[test]
fn flat_rejects_candidates_that_do_not_cover_the_slots() {
    let mut index = FaissIndex::new(1, MetricType::L2).unwrap();
    index.insert(&flat_bits(&[1.0]), 1).unwrap();
    index.insert(&flat_bits(&[2.0]), 2).unwrap();
    let query = flat_bits(&[0.0]);
    let short = vec![Neighbor { index: 0, distance: 0 }];
    assert_eq!(index.search(&query, 1, &short), Err(IndexError::InvalidCandidates));
    let swapped = vec![Neighbor { index: 1, distance: 0 }, Neighbor { index: 0, distance: 0 }];
    assert_eq!(index.search(&query, 1, &swapped), Err(IndexError::InvalidCandidates));
    let long = vec![
        Neighbor { index: 0, distance: 0 },
        Neighbor { index: 1, distance: 0 },
        Neighbor { index: 2, distance: 0 },
    ];
    assert_eq!(index.search(&query, 1, &long), Err(IndexError::InvalidCandidates));
}

#[test]
fn flat_remove_of_unknown_id_is_accepted_and_changes_nothing() {
    let mut index = FaissIndex::new(1, MetricType::L2).unwrap();
    index.insert(&flat_bits(&[1.0]), 1).unwrap();
    assert_eq!(index.remove(&[99, -3]), Ok(()));
    assert_eq!(index.remove(&[]), Ok(()));
    assert!(index.contains(1));
    let (ids, _) = flat_search(&index, &[1.0], 1);
    assert_eq!(ids, vec![1]);
}

#[test]
fn flat_remove_keeps_the_others_and_their_order() {
    let mut index = FaissIndex::new(1, MetricType::L2).unwrap();
    for id in 1..=5i64 {
        index.insert(&flat_bits(&[id as f32]), id).unwrap();
    }
    assert_eq!(index.remove(&[2, 4, 2]), Ok(()));
    assert_eq!(index.slot_count(), 5);
    assert!(!index.contains(2));
    assert!(!index.is_live(1));
    assert!(index.is_live(2));
    assert!(!index.is_live(5));
    let (ids, distances) = flat_search(&index, &[0.0], 5);
    assert_eq!(ids, vec![1, 3, 5]);
    assert_eq!(distances, vec![1.0, 3.0, 5.0]);
    for _ in 0..3 {
        let (ids, _) = flat_search(&index, &[2.0], 5);
        assert!(!ids.contains(&2));
        assert!(!ids.contains(&4));
    }
}

#[test]
fn flat_removed_id_can_be_stored_again() {
    let mut index = FaissIndex::new(1, MetricType::L2).unwrap();
    index.insert(&flat_bits(&[1.0]), 1).unwrap();
    index.remove(&[1]).unwrap();
    assert!(!index.contains(1));
    assert_eq!(index.insert(&flat_bits(&[8.0]), 1), Ok(1));
    assert_eq!(index.slot_count(), 2);
    let (ids, distances) = flat_search(&index, &[0.0], 3);
    assert_eq!(ids, vec![1]);
    assert_eq!(distances, vec![8.0]);
}

#[test]
fn flat_accessors_report_what_was_stored() {
    let mut index = FaissIndex::new(2, MetricType::IP).unwrap();
    assert_eq!(index.dimension(), 2);
    assert_eq!(index.metric(), MetricType::IP);
    index.insert(&flat_bits(&[1.5, -2.0]), 3).unwrap();
    assert_eq!(index.vector(0), Some(&flat_bits(&[1.5, -2.0])));
    assert_eq!(index.vector(1), None);
    assert!(index.is_live(0));
    assert!(!index.is_live(1));
    assert!(index.contains(3));
    assert!(!index.contains(4));
}

#[test]
fn flat_inner_product_distance_is_root_of_the_product_sum() {
    let mut index = FaissIndex::new(2, MetricType::IP).unwrap();
    index.insert(&flat_bits(&[3.0, 0.0]), 1).unwrap();
    index.insert(&flat_bits(&[1.0, 1.0]), 2).unwrap();
    let (ids, distances) = flat_search(&index, &[3.0, 1.0], 2);
    assert_eq!(ids, vec![2, 1]);
    assert_eq!(distances, vec![2.0, 3.0]);
}

#[test]
fn flat_agrees_with_a_list_model_over_many_operations() {
    let mut index = FaissIndex::new(1, MetricType::L2).unwrap();
    // The model: every slot ever filled, with its id, value and liveness.
    let mut model: Vec<(i64, f32, bool)> = Vec::new();
    let mut state: u32 = 2024;
    for _ in 0..400 {
        state = state.wrapping_mul(1664525).wrapping_add(1013904223);
        let id = ((state >> 16) % 23) as i64 - 3;
        state = state.wrapping_mul(1664525).wrapping_add(1013904223);
        let value = ((state >> 16) % 50) as f32 * 0.5;
        state = state.wrapping_mul(1664525).wrapping_add(1013904223);
        if (state >> 16) % 3 == 0 {
            let ids = [id, id + 1];
            assert_eq!(index.remove(&ids), Ok(()));
            for entry in model.iter_mut() {
                if ids.contains(&entry.0) {
                    entry.2 = false;
                }
            }
        } else {
            let stored = model.iter().any(|e| e.2 && e.0 == id);
            assert_eq!(index.contains(id), stored);
            let result = index.insert(&flat_bits(&[value]), id);
            if stored {
                assert_eq!(result, Err(IndexError::DuplicateId));
            } else {
                assert_eq!(result, Ok(id));
                model.push((id, value, true));
            }
        }
        assert_eq!(index.slot_count(), model.len());
        let query = [7.25f32];
        let mut expected: Vec<(f32, usize)> = model
            .iter()
            .enumerate()
            .filter(|(_, e)| e.2)
            .map(|(slot, e)| ((e.1 - query[0]).abs(), slot))
            .collect();
        expected.sort_by(|a, b| a.partial_cmp(b).unwrap());
        let (ids, distances) = flat_search(&index, &query, 4);
        assert_eq!(ids, expected.iter().take(4).map(|e| model[e.1].0).collect::<Vec<i64>>());
        assert_eq!(distances, expected.iter().take(4).map(|e| e.0).collect::<Vec<f32>>());
    }
}
