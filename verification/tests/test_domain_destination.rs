use hidshift::domain::destination::{
    DESTINATION_CAPACITY, DestinationError, DestinationId, DestinationRegistry,
};

fn peer(value: u8) -> [u8; 16] {
    [value; 16]
}

#[test]
fn eight_destinations_are_retained_but_only_four_sessions_connect() {
    let mut registry = DestinationRegistry::new();
    let mut ids = Vec::<DestinationId>::with_capacity(DESTINATION_CAPACITY);
    for value in 1..=8 {
        ids.push(registry.register(peer(value), value as u64).unwrap());
    }
    assert_eq!(
        registry.register(peer(9), 9),
        Err(DestinationError::RegistryFull)
    );
    for id in ids.iter().take(4) {
        registry.connect(*id, 20).unwrap();
    }
    assert_eq!(
        registry.connect(ids[4], 20),
        Err(DestinationError::SessionCapacity)
    );
    assert_eq!(registry.connected().len(), 4);
    assert_eq!(registry.registered().len(), 4);
}

#[test]
fn disconnected_destination_returns_to_registered_list_and_keeps_identity() {
    let mut registry = DestinationRegistry::new();
    let id = registry.register(peer(1), 1).unwrap();
    registry.connect(id, 2).unwrap();
    assert!(registry.disconnect(id));
    assert_eq!(registry.connected().len(), 0);
    assert_eq!(registry.registered()[0].id, id);
}

#[test]
fn disabling_auto_connect_disconnects_and_rejects_new_sessions() {
    let mut registry = DestinationRegistry::new();
    let id = registry.register(peer(1), 1).unwrap();
    registry.connect(id, 2).unwrap();
    registry.set_auto_connect(id, false).unwrap();
    assert_eq!(
        registry.connect(id, 3),
        Err(DestinationError::AutoConnectDisabled)
    );
    assert!(!registry.destinations()[0].connected());
}

#[test]
fn registry_reuses_a_forgotten_id_without_moving_other_identities() {
    let mut registry = DestinationRegistry::new();
    let first = registry.register(peer(1), 1).unwrap();
    let second = registry.register(peer(2), 2).unwrap();
    registry.forget(first).unwrap();
    let replacement = registry.register(peer(3), 3).unwrap();
    assert_eq!(replacement, first);
    assert!(registry.destinations().iter().any(|item| item.id == second));
}
