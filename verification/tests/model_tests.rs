use evk::clock::{Lamport, ReplicaId};
use evk::geometry::{Anchor, Axis, Bounds, BoundsExt, Point, Size};
use evk::insertion_slice::InsertionSlice;
use evk::language::{Capability, LanguageServerId};
use evk::title_bar_drag::{title_bar_drag_step, DragEvent};
use evk::remote::{ConnectionState, Project, ProjectClientState, RemoteClient, State};
use evk::text_ops::{
    BufferOperation, EditOperation, FullOffset, InsertionFragmentKey, OperationItem,
    OperationKey, OperationSummary,
};
use evk::theme::{Appearance, WindowAppearance};
use evk::tree_map::{MapKey, TreeMap};
use std::cmp::Ordering;

#[test]
fn other_side_along_axes() {
    assert_eq!(Anchor::TopLeft.other_side_along(Axis::Horizontal), Anchor::TopRight);
    assert_eq!(Anchor::TopLeft.other_side_along(Axis::Vertical), Anchor::BottomLeft);
    assert_eq!(Anchor::LeftCenter.other_side_along(Axis::Vertical), Anchor::LeftCenter);
    assert_eq!(Anchor::LeftCenter.other_side_along(Axis::Horizontal), Anchor::RightCenter);
    assert_eq!(Anchor::TopCenter.other_side_along(Axis::Vertical), Anchor::BottomCenter);
    for a in [
        Anchor::TopLeft,
        Anchor::TopRight,
        Anchor::BottomLeft,
        Anchor::BottomRight,
        Anchor::TopCenter,
        Anchor::BottomCenter,
        Anchor::LeftCenter,
        Anchor::RightCenter,
    ] {
        for axis in [Axis::Horizontal, Axis::Vertical] {
            assert_eq!(a.other_side_along(axis).other_side_along(axis), a);
        }
    }
}

#[test]
fn bounds_from_anchor() {
    let origin = Point { x: 100, y: 50 };
    let size = Size { width: 21, height: 10 };
    let b = |a| Bounds::<i32>::from_anchor_and_size(a, origin, size);
    assert_eq!(b(Anchor::TopLeft).origin, Point { x: 100, y: 50 });
    assert_eq!(b(Anchor::TopRight).origin, Point { x: 79, y: 50 });
    assert_eq!(b(Anchor::BottomLeft).origin, Point { x: 100, y: 40 });
    assert_eq!(b(Anchor::BottomRight).origin, Point { x: 79, y: 40 });
    assert_eq!(b(Anchor::TopCenter).origin, Point { x: 90, y: 50 });
    assert_eq!(b(Anchor::BottomCenter).origin, Point { x: 90, y: 40 });
    assert_eq!(b(Anchor::LeftCenter).origin, Point { x: 100, y: 45 });
    assert_eq!(b(Anchor::RightCenter).origin, Point { x: 79, y: 45 });
    assert_eq!(b(Anchor::RightCenter).size, size);
}

#[test]
fn capability_and_appearance() {
    assert!(Capability::ReadWrite.editable());
    assert!(!Capability::Read.editable());
    assert!(!Capability::ReadOnly.editable());
    assert!(Appearance::Light.is_light());
    assert!(!Appearance::Light.is_dark());
    assert!(Appearance::Dark.is_dark());
    assert_eq!(Appearance::from(WindowAppearance::VibrantDark), Appearance::Dark);
    assert_eq!(Appearance::from(WindowAppearance::Dark), Appearance::Dark);
    assert_eq!(Appearance::from(WindowAppearance::VibrantLight), Appearance::Light);
    assert_eq!(Appearance::from(WindowAppearance::Light), Appearance::Light);
}

#[test]
fn connection_states() {
    assert_eq!(ConnectionState::from(&State::Connecting), ConnectionState::Connecting);
    assert_eq!(ConnectionState::from(&State::Connected), ConnectionState::Connected);
    assert_eq!(
        ConnectionState::from(&State::HeartbeatMissed { missed_heartbeats: 2 }),
        ConnectionState::HeartbeatMissed
    );
    assert_eq!(
        ConnectionState::from(&State::ReconnectFailed { error: "timeout".to_string(), attempts: 3 }),
        ConnectionState::Reconnecting
    );
    assert_eq!(ConnectionState::from(&State::ReconnectExhausted), ConnectionState::Disconnected);
    assert_eq!(ConnectionState::from(&State::ServerNotRunning), ConnectionState::Disconnected);
    assert!(RemoteClient::new(None).is_disconnected());
    assert_eq!(RemoteClient::new(Some(State::Reconnecting)).connection_state(), ConnectionState::Reconnecting);
}

#[test]
fn project_connection() {
    let local = Project { remote_client: None, client_state: ProjectClientState::Local };
    assert!(!local.is_via_remote_server());
    assert!(!local.is_disconnected());
    let remote_down = Project {
        remote_client: Some(RemoteClient::new(Some(State::ServerNotRunning))),
        client_state: ProjectClientState::Local,
    };
    assert!(remote_down.is_via_remote_server());
    assert!(remote_down.is_disconnected());
    let remote_up = Project {
        remote_client: Some(RemoteClient::new(Some(State::Connected))),
        client_state: ProjectClientState::Shared { remote_id: 4 },
    };
    assert!(remote_up.is_via_remote_server());
    assert!(!remote_up.is_disconnected());
    let collab = Project {
        remote_client: Some(RemoteClient::new(None)),
        client_state: ProjectClientState::Collab {
            sharing_has_stopped: true,
            capability: Capability::Read,
            remote_id: 1,
            replica_id: ReplicaId::new(9),
        },
    };
    assert!(!collab.is_via_remote_server());
    assert!(collab.is_disconnected());
}

#[test]
fn operation_summaries() {
    let t1 = Lamport { value: 1, replica_id: ReplicaId::new(0) };
    let t2 = Lamport { value: 1, replica_id: ReplicaId::new(4) };
    let mut s = OperationSummary::zero();
    assert_eq!(s.len, 0);
    assert_eq!(s.key, OperationKey::new(Lamport::min_timestamp()));
    s.add_summary(&OperationSummary { key: OperationKey::new(t1), len: 1 });
    s.add_summary(&OperationSummary { key: OperationKey::new(t2), len: 2 });
    assert_eq!(s, OperationSummary { key: OperationKey::new(t2), len: 3 });

    let op = BufferOperation::Edit(EditOperation {
        timestamp: t2,
        version: Default::default(),
        ranges: vec![FullOffset(0)..FullOffset(3)],
        new_text: vec!["abc".into()],
    });
    let item = OperationItem(op);
    assert_eq!(item.summary(), OperationSummary { key: OperationKey::new(t2), len: 1 });

    let mut key = InsertionFragmentKey::zero();
    assert_eq!(key, InsertionFragmentKey { timestamp: Lamport::min_timestamp(), split_offset: 0 });
    key.add_summary(&InsertionFragmentKey { timestamp: t1, split_offset: 5 });
    assert_eq!(key.split_offset, 5);

    let mut offset = FullOffset(4);
    offset.add_assign(6);
    assert_eq!(offset, FullOffset(10));
}

fn slice(edit: (u32, u16), insertion: (u32, u16), start: u32, end: u32) -> InsertionSlice {
    InsertionSlice {
        edit_id_value: edit.0,
        edit_id_replica_id: ReplicaId::new(edit.1),
        insertion_id_value: insertion.0,
        insertion_id_replica_id: ReplicaId::new(insertion.1),
        range: start..end,
    }
}

#[test]
fn insertion_slice_order() {
    let a = slice((1, 0), (5, 0), 0, 4);
    assert_eq!(a.cmp(&slice((2, 0), (0, 0), 0, 0)), Ordering::Less);
    assert_eq!(a.cmp(&slice((1, 1), (0, 0), 0, 0)), Ordering::Less);
    assert_eq!(a.cmp(&slice((1, 0), (4, 9), 9, 9)), Ordering::Greater);
    assert_eq!(a.cmp(&slice((1, 0), (5, 0), 1, 0)), Ordering::Less);
    assert_eq!(a.cmp(&slice((1, 0), (5, 0), 0, 3)), Ordering::Greater);
    assert_eq!(a.cmp(&a.clone()), Ordering::Equal);
}

#[test]
fn tree_map_keys() {
    let map: TreeMap<u32, &str> = TreeMap::default();
    assert!(map.iter().is_empty());
    let mut key: MapKey<u32> = MapKey::zero();
    assert_eq!(key, MapKey(None));
    key.add_summary(&MapKey(Some(7)));
    assert_eq!(key, MapKey(Some(7)));
    key.add_summary(&MapKey(None));
    assert_eq!(key, MapKey::default());
}

#[test]
fn tree_map_clone_keeps_entries() {
    let map: TreeMap<u32, String> = TreeMap::default();
    let copy = map.clone();
    assert!(copy.iter().is_empty());
    assert!(copy == map);
}

#[test]
fn title_bar_drag_moves_once_per_press() {
    use_drag();
}

fn use_drag() {
    let (armed, starts) = title_bar_drag_step(false, DragEvent::LeftMouseDown);
    assert!(armed && !starts);
    let (armed, starts) = title_bar_drag_step(armed, DragEvent::MouseMove);
    assert!(!armed && starts);
    let (armed, starts) = title_bar_drag_step(armed, DragEvent::MouseMove);
    assert!(!armed && !starts);
    let (armed, _) = title_bar_drag_step(true, DragEvent::LeftMouseUp);
    assert!(!armed);
    let (armed, _) = title_bar_drag_step(true, DragEvent::MouseDownOutside);
    assert!(!armed);
}

#[test]
fn language_server_ids_round_trip() {
    let id = LanguageServerId::from_proto(42);
    assert_eq!(id, LanguageServerId(42));
    assert_eq!(id.to_proto(), 42);
    assert_eq!(LanguageServerId::from_proto(LanguageServerId(7).to_proto()), LanguageServerId(7));
}
