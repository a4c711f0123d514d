use bevy_royal::identity::{BindError, IdentityMap};

#[test]
fn bind_and_resolve_both_directions() {
    let mut map = IdentityMap::new();
    assert_eq!(map.bind(100, 7), Ok(()));
    assert_eq!(map.bind(101, 8), Ok(()));
    assert_eq!(map.resolve_identity(100), Some(7));
    assert_eq!(map.resolve_identity(101), Some(8));
    assert_eq!(map.resolve_handle(7), Some(100));
    assert_eq!(map.resolve_handle(8), Some(101));
    assert_eq!(map.resolve_identity(102), None);
    assert_eq!(map.resolve_handle(9), None);
}

#[test]
fn double_bind_is_a_logic_error_not_an_overwrite() {
    let mut map = IdentityMap::new();
    assert_eq!(map.bind(100, 7), Ok(()));
    assert_eq!(map.bind(100, 8), Err(BindError::HandleInUse));
    assert_eq!(map.bind(101, 7), Err(BindError::IdentityInUse));
    // the refused binds changed nothing
    assert_eq!(map.resolve_identity(100), Some(7));
    assert_eq!(map.resolve_handle(7), Some(100));
    assert_eq!(map.resolve_handle(8), None);
}

#[test]
fn unbind_removes_both_directions_at_once() {
    let mut map = IdentityMap::new();
    map.bind(100, 7).unwrap();
    map.bind(101, 8).unwrap();
    map.unbind(7);
    assert_eq!(map.resolve_handle(7), None);
    assert_eq!(map.resolve_identity(100), None);
    // the other pair is untouched
    assert_eq!(map.resolve_handle(8), Some(101));
    assert_eq!(map.resolve_identity(101), Some(8));
    // absent identity: a no-op
    map.unbind(7);
    assert_eq!(map.resolve_handle(8), Some(101));
}

#[test]
fn rebind_after_unbind_is_allowed() {
    let mut map = IdentityMap::new();
    map.bind(100, 7).unwrap();
    map.unbind(7);
    assert_eq!(map.bind(100, 9), Ok(()));
    assert_eq!(map.resolve_identity(100), Some(9));
    assert_eq!(map.resolve_handle(9), Some(100));
}

#[test]
fn symmetry_survives_a_mixed_operation_sequence() {
    let mut map = IdentityMap::new();
    for k in 0u64..20 {
        map.bind(k, 1000 + k as u128).unwrap();
    }
    for k in (0u64..20).step_by(2) {
        map.unbind(1000 + k as u128);
    }
    for k in 0u64..20 {
        let id = 1000 + k as u128;
        if k % 2 == 0 {
            assert_eq!(map.resolve_handle(id), None);
            assert_eq!(map.resolve_identity(k), None);
        } else {
            // every forward entry has its matching reverse entry
            assert_eq!(map.resolve_handle(id), Some(k));
            assert_eq!(map.resolve_identity(k), Some(id));
        }
    }
}
