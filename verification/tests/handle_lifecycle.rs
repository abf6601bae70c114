use sgx_trts::veh::{rsgx_register_exception_handler, rsgx_unregister_exception_handler};
use sgx_trts::{ExceptionHandle, HandlerRegistry};

#[test]
fn new_registry_is_empty_and_open() {
    let registry: HandlerRegistry<u8> = HandlerRegistry::new();
    assert_eq!(registry.len(), 0);
    assert_eq!(registry.limit(), usize::MAX);
    assert!(registry.can_register());
    assert!(registry.chain().is_empty());
    assert_eq!(registry.handles(), Vec::<ExceptionHandle>::new());
}

#[test]
fn register_then_unregister_restores_the_chain() {
    let mut registry: HandlerRegistry<u8> = HandlerRegistry::new();
    let a = registry.register(false, 1).unwrap();
    let b = registry.register(true, 2).unwrap();
    let before = registry.handles();
    assert_eq!(before, vec![b, a]);

    for is_first in [true, false] {
        let handle = registry.register(is_first, 9).unwrap();
        assert_eq!(registry.len(), 3);
        assert!(registry.contains(handle));
        assert!(registry.unregister(handle));
        assert_eq!(registry.handles(), before);
        assert_eq!(registry.chain()[0].handler, 2);
        assert_eq!(registry.chain()[1].handler, 1);
        assert!(!registry.contains(handle));
    }
}

#[test]
fn round_trip_on_an_empty_registry() {
    let mut registry: HandlerRegistry<u8> = HandlerRegistry::new();
    let handle = registry.register(true, 5).unwrap();
    assert_eq!(registry.handles(), vec![handle]);
    assert!(registry.unregister(handle));
    assert_eq!(registry.len(), 0);
    assert!(registry.chain().is_empty());
}

#[test]
fn unregister_of_a_handle_never_issued_here_fails() {
    let mut other: HandlerRegistry<u8> = HandlerRegistry::new();
    let mut foreign = other.register(false, 0).unwrap();
    for _ in 0..5 {
        foreign = other.register(false, 0).unwrap();
    }

    let mut registry: HandlerRegistry<u8> = HandlerRegistry::new();
    assert!(!registry.unregister(foreign));
    assert_eq!(registry.len(), 0);

    let a = registry.register(false, 1).unwrap();
    let b = registry.register(false, 2).unwrap();
    assert!(!registry.contains(foreign));
    assert_eq!(registry.position(foreign), None);
    assert!(!registry.unregister(foreign));
    assert_eq!(registry.handles(), vec![a, b]);
    assert_eq!(registry.chain()[0].handler, 1);
    assert_eq!(registry.chain()[1].handler, 2);
}

#[test]
fn unregister_of_a_removed_handle_fails_and_changes_nothing() {
    let mut registry: HandlerRegistry<u8> = HandlerRegistry::new();
    let a = registry.register(false, 1).unwrap();
    let b = registry.register(false, 2).unwrap();
    let c = registry.register(true, 3).unwrap();
    assert!(registry.unregister(b));
    for _ in 0..3 {
        assert!(!registry.unregister(b));
        assert_eq!(registry.handles(), vec![c, a]);
        assert_eq!(registry.len(), 2);
    }
}

#[test]
fn stale_handle_does_not_remove_a_later_entry() {
    let mut registry: HandlerRegistry<u8> = HandlerRegistry::new();
    let old = registry.register(false, 1).unwrap();
    assert!(registry.unregister(old));
    let new = registry.register(false, 2).unwrap();
    assert_ne!(old, new);
    assert!(!registry.unregister(old));
    assert_eq!(registry.handles(), vec![new]);
    assert_eq!(registry.chain()[0].handler, 2);
}

#[test]
fn back_to_back_registrations_return_distinct_handles() {
    let mut registry: HandlerRegistry<u8> = HandlerRegistry::new();
    let a = registry.register(true, 1).unwrap();
    let b = registry.register(true, 1).unwrap();
    assert_ne!(a, b);
    assert!(registry.contains(a));
    assert!(registry.contains(b));

    let mut seen: Vec<ExceptionHandle> = vec![a, b];
    for k in 0..50u8 {
        let handle = registry.register(k % 3 == 0, k).unwrap();
        assert!(!seen.contains(&handle));
        seen.push(handle);
    }
    let chain = registry.handles();
    for (i, x) in chain.iter().enumerate() {
        for y in chain.iter().skip(i + 1) {
            assert_ne!(x, y);
        }
    }
}

#[test]
fn handles_stay_distinct_across_a_removal() {
    let mut registry: HandlerRegistry<u8> = HandlerRegistry::new();
    let h1 = rsgx_register_exception_handler(&mut registry, 0, 1).unwrap();
    let h2 = rsgx_register_exception_handler(&mut registry, 1, 2).unwrap();
    let h3 = rsgx_register_exception_handler(&mut registry, 0, 3).unwrap();
    assert_ne!(h1, h2);
    assert_ne!(h2, h3);
    assert_ne!(h1, h3);

    assert!(rsgx_unregister_exception_handler(&mut registry, h2));
    let h4 = rsgx_register_exception_handler(&mut registry, 1, 4).unwrap();
    assert_ne!(h4, h1);
    assert_ne!(h4, h2);
    assert_ne!(h4, h3);
    assert_eq!(registry.handles(), vec![h4, h1, h3]);
}

#[test]
fn identities_are_numbered_in_order_of_issue() {
    let mut registry: HandlerRegistry<u8> = HandlerRegistry::new();
    let a = registry.register(true, 1).unwrap();
    let b = registry.register(false, 2).unwrap();
    let c = registry.register(true, 3).unwrap();
    assert_eq!(a.id(), 0);
    assert_eq!(b.id(), 1);
    assert_eq!(c.id(), 2);

    assert!(registry.unregister(b));
    assert!(registry.unregister(c));
    let d = registry.register(false, 4).unwrap();
    assert_eq!(d.id(), 3);
}

#[test]
fn full_registry_refuses_a_registration() {
    let mut registry: HandlerRegistry<u8> = HandlerRegistry::with_limit(2);
    assert_eq!(registry.limit(), 2);
    assert!(registry.can_register());
    let a = registry.register(false, 1).unwrap();
    assert!(registry.can_register());
    let b = registry.register(true, 2).unwrap();
    assert!(!registry.can_register());

    assert_eq!(registry.register(true, 3), None);
    assert_eq!(registry.register(false, 3), None);
    assert_eq!(rsgx_register_exception_handler(&mut registry, 1, 3), None);
    assert_eq!(registry.handles(), vec![b, a]);
    assert_eq!(registry.chain()[0].handler, 2);
    assert_eq!(registry.chain()[1].handler, 1);

    assert!(registry.unregister(a));
    assert!(registry.can_register());
    let c = registry.register(false, 3).unwrap();
    assert_eq!(c.id(), 2);
    assert_eq!(registry.handles(), vec![b, c]);
}

#[test]
fn registry_without_room_never_registers() {
    let mut registry: HandlerRegistry<u8> = HandlerRegistry::with_limit(0);
    assert!(!registry.can_register());
    assert_eq!(registry.register(true, 1), None);
    assert_eq!(registry.register(false, 1), None);
    assert_eq!(registry.len(), 0);
}

#[test]
fn contains_follows_registration_and_removal() {
    let mut registry: HandlerRegistry<u8> = HandlerRegistry::new();
    let a = registry.register(false, 1).unwrap();
    let b = registry.register(false, 2).unwrap();
    assert!(registry.contains(a));
    assert!(registry.contains(b));
    assert_eq!(registry.len(), 2);
    assert!(registry.unregister(a));
    assert!(!registry.contains(a));
    assert!(registry.contains(b));
    assert_eq!(registry.len(), 1);
}
