use repo_link::model::ids::TaskId;
use repo_link::search::lane::{order_fused, place_all, RankEntry, Weighted};
use std::collections::HashMap;

const RRF_K: f64 = 60.0;

fn tid(last: u32) -> TaskId {
    TaskId(u128::from(last))
}

fn rrf_fuse(lanes: &[&HashMap<TaskId, usize>]) -> HashMap<TaskId, f64> {
    let mut fused: HashMap<TaskId, f64> = HashMap::new();
    for lane in lanes {
        for (id, rank) in lane.iter() {
            *fused.entry(*id).or_insert(0.0) += 1.0 / (RRF_K + *rank as f64);
        }
    }
    fused
}

/// A fused score is finite and not negative, so its bits order as it does.
fn weighted(fused: &HashMap<TaskId, f64>) -> Vec<Weighted> {
    fused
        .iter()
        .map(|(id, score)| Weighted {
            task_id: *id,
            weight: u128::from(score.to_bits()),
        })
        .collect()
}

#[test]
fn fusion_ranks_present_in_all_lanes_first() {
    let a: HashMap<TaskId, usize> = [(tid(1), 1), (tid(2), 2)].into_iter().collect();
    let b: HashMap<TaskId, usize> = [(tid(1), 2), (tid(2), 1)].into_iter().collect();
    let fused = rrf_fuse(&[&a, &b]);
    let ordered = order_fused(&weighted(&fused));
    assert_eq!(ordered.len(), 2);
    assert!(ordered.contains(&tid(1)) && ordered.contains(&tid(2)));
}

#[test]
fn single_lane_uses_rrf_of_its_ranks() {
    let a: HashMap<TaskId, usize> = [(tid(1), 1), (tid(2), 2)].into_iter().collect();
    let fused = rrf_fuse(&[&a]);
    assert_eq!(fused[&tid(1)], 1.0 / (RRF_K + 1.0), "a must score 1/(k+1)");
    assert_eq!(fused[&tid(2)], 1.0 / (RRF_K + 2.0), "b must score 1/(k+2)");
    assert_eq!(order_fused(&weighted(&fused)), vec![tid(1), tid(2)]);
}

#[test]
fn ties_break_by_task_id() {
    let a: HashMap<TaskId, usize> = [(tid(11), 1), (tid(1), 1)].into_iter().collect();
    let fused = rrf_fuse(&[&a]);
    let ordered = order_fused(&weighted(&fused));
    // Equal scores: lower uuid wins.
    assert_eq!(ordered, vec![tid(1), tid(11)]);
}

#[test]
fn heavier_tasks_come_first() {
    let w = |id: u32, weight: u128| Weighted {
        task_id: tid(id),
        weight,
    };
    assert_eq!(
        order_fused(&vec![w(1, 5), w(2, 9), w(3, 5), w(4, 0)]),
        vec![tid(2), tid(1), tid(3), tid(4)]
    );
    assert!(order_fused(&Vec::new()).is_empty());
}

#[test]
fn places_count_from_one() {
    assert_eq!(
        place_all(&vec![tid(7), tid(3)]),
        vec![
            RankEntry {
                task_id: tid(7),
                rank: 1
            },
            RankEntry {
                task_id: tid(3),
                rank: 2
            },
        ]
    );
}
