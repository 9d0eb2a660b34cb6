use mentat::partition::{Partition, PartitionMap};

fn parts() -> PartitionMap {
    let mut map = PartitionMap::new();
    assert!(map.insert(":db.part/db", Partition::new(0, 65536, 41, false)));
    assert!(map.insert(":db.part/user", Partition::new(65536, 268435456, 65536, true)));
    assert!(map.insert(
        ":db.part/tx",
        Partition::new(268435456, i64::MAX, 268435456, false)
    ));
    map
}

#[test]
fn allocation_is_dense_and_increasing() {
    let mut map = parts();
    assert_eq!(map.allocate_entid(":db.part/user"), Some(65536));
    assert_eq!(map.allocate_entids(":db.part/user", 3), Some((65537, 65540)));
    assert_eq!(map.allocate_entids(":db.part/user", 0), Some((65540, 65540)));
    assert_eq!(map.allocate_entid(":db.part/user"), Some(65540));
    assert_eq!(map.allocate_entid(":db.part/tx"), Some(268435456));
    assert_eq!(map.allocate_entid(":db.part/tx"), Some(268435457));
    assert_eq!(map.allocate_entid(":db.part/nowhere"), None);
    assert_eq!(map.get(":db.part/user").unwrap().next_entid(), 65541);
}

#[test]
fn a_full_partition_allocates_nothing() {
    let mut p = Partition::new(10, 13, 11, false);
    assert_eq!(p.allocate_entids(3), None);
    assert_eq!(p.next_entid(), 11);
    assert_eq!(p.allocate_entids(2), Some((11, 13)));
    assert_eq!(p.allocate_entids(1), None);
    assert_eq!(p.allocate_entids(usize::MAX), None);
    assert!(p.contains_entid(12));
    assert!(!p.contains_entid(13));
    assert!(!p.contains_entid(9));
    assert!(p.allows_entid(13));
    assert!(!p.allows_entid(14));
    let mut q = Partition::new(0, 100, 5, true);
    q.set_next_entid(50);
    assert_eq!(q.next_entid(), 50);
    assert_eq!(Partition::checked(5, 4, 5, false), None);
    assert_eq!(
        Partition::checked(1, 4, 2, false),
        Some(Partition::new(1, 4, 2, false))
    );
}

#[test]
fn an_id_belongs_to_one_partition() {
    let mut map = parts();
    map.allocate_entids(":db.part/user", 5);
    assert_eq!(map.partition_of(40), Some(0));
    assert_eq!(map.partition_of(41), None);
    assert_eq!(map.partition_of(65538), Some(1));
    assert_eq!(map.name_at(1), ":db.part/user");
    assert_eq!(map.partition_of(65541), None);
    assert!(map.contains_entid(65540));
    assert!(!map.contains_entid(268435456));
    assert!(!map.contains_entid(-1));
}

#[test]
fn partitions_do_not_overlap() {
    let mut map = parts();
    assert!(!map.insert("overlap", Partition::new(65000, 66000, 65000, false)));
    assert!(!map.insert(":db.part/db", Partition::new(-10, -5, -10, false)));
    assert!(map.insert("below", Partition::new(-10, 0, -10, false)));
    assert_eq!(map.len(), 4);
}

#[test]
fn merge_moves_cursors_forward_only() {
    let mut ours = parts();
    ours.allocate_entids(":db.part/user", 10);
    let mut theirs = PartitionMap::new();
    assert!(theirs.insert(":db.part/user", Partition::new(65536, 268435456, 65540, true)));
    assert!(theirs.insert(
        ":db.part/tx",
        Partition::new(268435456, i64::MAX, 268435500, false)
    ));
    assert!(theirs.insert(":db.part/db", Partition::new(0, 100, 50, false)));
    assert!(theirs.insert("extra", Partition::new(-100, -50, -70, false)));
    assert!(theirs.insert("clash", Partition::new(-40, -30, -40, false)));
    let mut blocker = PartitionMap::new();
    assert!(blocker.insert("blocker", Partition::new(-45, -35, -45, false)));
    assert_eq!(ours.merge(&blocker), 0);
    let left_out = ours.merge(&theirs);
    assert_eq!(left_out, 2);
    assert_eq!(ours.get(":db.part/user").unwrap().next_entid(), 65546);
    assert_eq!(ours.get(":db.part/tx").unwrap().next_entid(), 268435500);
    assert_eq!(ours.get(":db.part/db").unwrap().next_entid(), 41);
    assert_eq!(ours.get("extra").unwrap().next_entid(), -70);
    assert_eq!(ours.get("clash"), None);
}

#[test]
fn one_id_is_allocated_while_the_partition_has_room() {
    let mut map = PartitionMap::new();
    assert!(map.insert("small", Partition::new(10, 12, 10, false)));
    assert_eq!(map.allocate_entid("other"), None);
    assert_eq!(map.allocate_entid("small"), Some(10));
    assert_eq!(map.allocate_entid("small"), Some(11));
    assert_eq!(map.get("small").map(|p| p.next_entid()), Some(12));
    // No id is left: nothing is allocated, and the map stays as it was.
    assert_eq!(map.allocate_entid("small"), None);
    assert_eq!(map.get("small").map(|p| p.next_entid()), Some(12));
    assert_eq!(map.len(), 1);
}
