use evk::clock::{Global, Lamport, ReplicaId};
use std::cmp::Ordering;

#[test]
fn replica_ids() {
    assert_eq!(ReplicaId::new(7).as_u16(), 7);
    assert_eq!(ReplicaId::local().as_u16(), 0);
    assert_eq!(ReplicaId::remote_server().as_u16(), 1);
    assert_eq!(ReplicaId::agent().as_u16(), 2);
    assert_eq!(ReplicaId::local_branch().as_u16(), 3);
    assert_eq!(ReplicaId::first_collab_id().as_u16(), 8);
    assert_eq!(ReplicaId::default(), ReplicaId::local());
}

#[test]
fn remote_replicas() {
    assert!(!ReplicaId::new(0).is_remote());
    assert!(ReplicaId::new(1).is_remote());
    assert!(!ReplicaId::new(2).is_remote());
    assert!(!ReplicaId::new(7).is_remote());
    assert!(ReplicaId::new(8).is_remote());
    assert!(ReplicaId::new(500).is_remote());
}

#[test]
fn replica_debug_text() {
    assert_eq!(ReplicaId::new(0).debug_string(), "<local>");
    assert_eq!(ReplicaId::new(1).debug_string(), "<remote>");
    assert_eq!(ReplicaId::new(2).debug_string(), "<agent>");
    assert_eq!(ReplicaId::new(3).debug_string(), "<branch>");
    assert_eq!(ReplicaId::new(4).debug_string(), "4");
    assert_eq!(ReplicaId::new(65535).debug_string(), "65535");
}

#[test]
fn lamport_debug_text() {
    assert_eq!(Lamport::max_timestamp().debug_string(), "Lamport {MAX}");
    assert_eq!(Lamport::min_timestamp().debug_string(), "Lamport {MIN}");
    let t = Lamport { value: 42, replica_id: ReplicaId::new(9) };
    assert_eq!(t.debug_string(), "Lamport {9: 42}");
    let t = Lamport { value: 0, replica_id: ReplicaId::new(1) };
    assert_eq!(t.debug_string(), "Lamport {<remote>: 0}");
}

#[test]
fn lamport_order() {
    let a = Lamport { value: 1, replica_id: ReplicaId::new(5) };
    let b = Lamport { value: 2, replica_id: ReplicaId::new(0) };
    let c = Lamport { value: 2, replica_id: ReplicaId::new(3) };
    assert_eq!(a.partial_cmp(&b), Some(Ordering::Less));
    assert_eq!(c.partial_cmp(&b), Some(Ordering::Greater));
    assert_eq!(b.partial_cmp(&b), Some(Ordering::Equal));
    assert!(a < b && b < c && a < c);
    assert!(Lamport::min_timestamp() < a);
    assert!(c < Lamport::max_timestamp());
}

#[test]
fn empty_version_vector() {
    let g = Global::default();
    assert!(g.iter().is_empty());
    assert_eq!(g.debug_string(), "Global {}");
    assert!(g.clone().iter().is_empty());
}
