use stealth_sidecar::common::SubnetId;
use stealth_sidecar::cover::{cover_candidates, partition, select_cover};
use stealth_sidecar::prng::Prng;
use stealth_sidecar::subnet_set::SubnetSet;

#[test]
fn set_operations() {
    let mut set = SubnetSet::new();
    assert!(set.is_empty());
    assert!(set.insert(SubnetId(5)));
    assert!(!set.insert(SubnetId(5)));
    assert!(!set.insert(SubnetId(64)));
    assert!(set.insert(SubnetId(63)));
    assert_eq!(set.len(), 2);
    assert!(set.contains(&SubnetId(5)));
    assert!(!set.contains(&SubnetId(6)));
    assert_eq!(set.to_vec(), vec![SubnetId(5), SubnetId(63)]);
    assert!(set.remove(&SubnetId(5)));
    assert!(!set.remove(&SubnetId(5)));
    assert_eq!(set.to_vec(), vec![SubnetId(63)]);
    let built = SubnetSet::from_list(&vec![SubnetId(3), SubnetId(200), SubnetId(3), SubnetId(1)]);
    assert_eq!(built.to_vec(), vec![SubnetId(3), SubnetId(1)]);
    let other = SubnetSet::from_list(&vec![SubnetId(1), SubnetId(9)]);
    assert_eq!(built.union(&other).to_vec(), vec![SubnetId(3), SubnetId(1), SubnetId(9)]);
    assert_eq!(built.without(&other).to_vec(), vec![SubnetId(3)]);
    assert_eq!(built.duplicate().to_vec(), built.to_vec());
}

#[test]
fn candidates_and_choice() {
    let mandatory = SubnetSet::from_list(&vec![SubnetId(0), SubnetId(1)]);
    let held = SubnetSet::from_list(&vec![SubnetId(10)]);
    let candidates = cover_candidates(&mandatory, &held);
    assert_eq!(candidates.len(), 61);
    let expected: Vec<SubnetId> = (2u8..64).filter(|id| *id != 10).map(SubnetId).collect();
    assert_eq!(candidates, expected);
    let mut rng = Prng::from_seed(1);
    let chosen = select_cover(candidates.clone(), 5, &mut rng);
    assert_eq!(chosen.len(), 5);
    assert!(chosen.iter().all(|s| candidates.contains(s)));
    let all = select_cover(candidates.clone(), 100, &mut rng);
    assert_eq!(all.len(), 61);
    assert_ne!(all, candidates);
    assert!(select_cover(candidates, 0, &mut rng).is_empty());
}

#[test]
fn partition_by_flags() {
    let list = vec![SubnetId(1), SubnetId(2), SubnetId(3), SubnetId(4)];
    let (yes, no) = partition(&list, &vec![true, false, true]);
    assert_eq!(yes, vec![SubnetId(1), SubnetId(3)]);
    assert_eq!(no, vec![SubnetId(2), SubnetId(4)]);
}
