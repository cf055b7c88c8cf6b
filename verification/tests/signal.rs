use kernel_core::task::process::ProcessId;
use kernel_core::task::signal::{Signal, SignalManager};

fn signal(ty: usize, first: u64) -> Signal {
    Signal { ty, data: [first, 0, 0, 0, 0, 0, 0, 0] }
}

#[test]
fn new_manager_has_no_signal() {
    let manager = SignalManager::new(64, ProcessId(3));
    assert_eq!(manager.capacity(), 512);
    for ty in 0..512 {
        assert!(!manager.has_signal(ty));
        assert!(manager.get_signal(ty).is_none());
    }
}

#[test]
fn register_and_get_earliest() {
    let mut manager = SignalManager::new(64, ProcessId(3));
    assert_eq!(manager.register_signal(5, signal(5, 100)), None);
    assert_eq!(manager.register_signal(6, signal(6, 200)), None);
    assert_eq!(manager.register_signal(5, signal(5, 300)), None);
    assert!(manager.has_signal(5));
    assert!(manager.has_signal(6));
    assert!(!manager.has_signal(7));
    assert_eq!(manager.get_signal(5).unwrap().data[0], 100);
    assert_eq!(manager.get_signal(5).unwrap().data[0], 100);
    assert_eq!(manager.get_signal(6).unwrap().data[0], 200);
}

#[test]
fn delete_removes_every_signal_of_the_type() {
    let mut manager = SignalManager::new(64, ProcessId(3));
    manager.register_signal(5, signal(5, 1));
    manager.register_signal(5, signal(5, 2));
    manager.register_signal(6, signal(6, 3));
    manager.register_signal(5, signal(5, 4));
    manager.delete_signal(5);
    assert!(!manager.has_signal(5));
    assert!(manager.get_signal(5).is_none());
    assert_eq!(manager.get_signal(6).unwrap().data[0], 3);
    manager.register_signal(5, signal(5, 9));
    assert_eq!(manager.get_signal(5).unwrap().data[0], 9);
    manager.delete_signal(7);
    assert_eq!(manager.get_signal(6).unwrap().data[0], 3);
}

#[test]
fn waiting_process_is_named_once() {
    let mut manager = SignalManager::new(64, ProcessId(7));
    manager.register_wait_for(5);
    assert_eq!(manager.register_signal(4, signal(4, 0)), None);
    assert_eq!(manager.register_signal(5, signal(5, 0)), Some(ProcessId(7)));
    assert_eq!(manager.register_signal(5, signal(5, 0)), None);
}

#[test]
fn capacity_is_eight_types_for_each_byte() {
    assert_eq!(SignalManager::new(0, ProcessId(0)).capacity(), 0);
    assert_eq!(SignalManager::new(1, ProcessId(0)).capacity(), 8);
    assert_eq!(SignalManager::new(3, ProcessId(0)).capacity(), 24);
}

#[test]
fn signal_is_kept_under_the_type_it_carries() {
    let mut manager = SignalManager::new(64, ProcessId(3));
    manager.register_signal(9, signal(5, 77));
    assert!(manager.has_signal(9));
    assert!(!manager.has_signal(5));
    assert!(manager.get_signal(9).is_none());
    assert!(manager.get_signal(5).is_none());
    manager.register_signal(5, signal(6, 1));
    assert_eq!(manager.get_signal(5).unwrap().data[0], 77);
}
