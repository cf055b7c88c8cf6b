use kernel_core::arch::apic::{
    average_ticks_per_ms, calibrate_timer, hpet_ticks_per_ms, ioapic_entry, periodic_initial_count,
    round_deadline, IrqVector, Redirection,
};
use kernel_core::arch::interrupts::{
    do_irq, fault_action, irq_manager_init, irq_register, irq_unregister, FaultAction,
    InterruptIndex,
};
use kernel_core::arch::pci::{BusDeviceFunction, PciError, SegmentGroupConfiguration, X86_64PciArch};
use kernel_core::arch::smp::{CpuInfo, Cpus, SmpCpu};

#[test]
fn timer_calibration() {
    assert_eq!(hpet_ticks_per_ms(10_000_000), 100_000);
    let readings = vec![u32::MAX - 1000; 100];
    assert_eq!(average_ticks_per_ms(&readings), 1000);
    assert_eq!(periodic_initial_count(1000), Some(5000));
    assert_eq!(calibrate_timer(&readings), Some(5000));
}

#[test]
fn calibration_takes_the_mean() {
    let mut readings = vec![u32::MAX - 1000; 50];
    readings.extend(vec![u32::MAX - 3000; 50]);
    assert_eq!(average_ticks_per_ms(&readings), 2000);
    assert_eq!(calibrate_timer(&readings), Some(10000));
    assert_eq!(average_ticks_per_ms(&vec![0u32; 100]), u32::MAX);
    assert_eq!(calibrate_timer(&vec![0u32; 100]), None);
    assert_eq!(periodic_initial_count(u32::MAX / 5), Some(u32::MAX / 5 * 5));
    assert_eq!(periodic_initial_count(u32::MAX / 5 + 1), None);
}

#[test]
fn round_deadlines() {
    assert_eq!(round_deadline(500, 100_000), Some(100_500));
    assert_eq!(round_deadline(u64::MAX - 5, 6), None);
    assert_eq!(round_deadline(u64::MAX - 5, 5), Some(u64::MAX));
}

#[test]
fn vectors_and_routes() {
    assert_eq!(InterruptIndex::Timer.vector(), 32);
    assert_eq!(InterruptIndex::ApicError.vector(), 33);
    assert_eq!(InterruptIndex::ApicSpurious.vector(), 34);
    assert_eq!(InterruptIndex::Keyboard.vector(), 35);
    assert_eq!(InterruptIndex::Mouse.vector(), 36);
    assert_eq!(IrqVector::Keyboard.line(), 1);
    assert_eq!(IrqVector::Mouse.line(), 12);
    assert_eq!(IrqVector::Mouse.vector(), InterruptIndex::Mouse);
    assert_eq!(ioapic_entry(IrqVector::Keyboard, 2), Redirection { line: 1, vector: 35, dest: 2 });
    assert_eq!(ioapic_entry(IrqVector::Mouse, 0x103), Redirection { line: 12, vector: 36, dest: 3 });
}

#[test]
fn exceptions() {
    assert_eq!(fault_action(3), Some(FaultAction::Resume));
    assert_eq!(fault_action(6), Some(FaultAction::Halt));
    assert_eq!(fault_action(13), Some(FaultAction::Halt));
    assert_eq!(fault_action(14), Some(FaultAction::Halt));
    assert_eq!(fault_action(8), Some(FaultAction::Panic));
    assert_eq!(fault_action(11), Some(FaultAction::Panic));
    assert_eq!(fault_action(0), None);
    assert_eq!(fault_action(32), None);
}

#[test]
fn irq_table() {
    let mut table = irq_manager_init();
    for irq in 0..=255u8 {
        let dispatch = do_irq(&table, irq);
        assert_eq!(dispatch.handler, None);
        assert!(dispatch.end_of_interrupt);
    }
    irq_register(&mut table, 32, 0xdead);
    irq_register(&mut table, 255, 0xbeef);
    assert_eq!(do_irq(&table, 32).handler, Some(0xdead));
    assert_eq!(do_irq(&table, 255).handler, Some(0xbeef));
    assert_eq!(do_irq(&table, 33).handler, None);
    irq_register(&mut table, 32, 0xf00d);
    assert_eq!(do_irq(&table, 32).handler, Some(0xf00d));
    irq_unregister(&mut table, 32);
    assert_eq!(do_irq(&table, 32).handler, None);
    assert_eq!(do_irq(&table, 255).handler, Some(0xbeef));
}

#[test]
fn pci_config_address() {
    let function = BusDeviceFunction { bus: 1, device: 2, function: 3 };
    assert_eq!(X86_64PciArch::config_address(&function, 0x10), 0x8001_1310);
    assert_eq!(X86_64PciArch::config_address(&function, 0x13), 0x8001_1310);
    let wide = BusDeviceFunction { bus: 0xff, device: 0x1f, function: 0xff };
    assert_eq!(X86_64PciArch::config_address(&wide, 0xff), 0x80ff_fffc);
    assert_eq!(X86_64PciArch::address_pci_to_address_memory(77), Ok(77));
}

#[test]
fn pci_ecam_root() {
    let table = vec![
        SegmentGroupConfiguration { base_address: 0xe000_0000, pci_segment_group: 0, bus_number_start: 0, bus_number_end: 255 },
        SegmentGroupConfiguration { base_address: 0xf000_0000, pci_segment_group: 2, bus_number_start: 1, bus_number_end: 9 },
        SegmentGroupConfiguration { base_address: 0xf800_0000, pci_segment_group: 2, bus_number_start: 3, bus_number_end: 4 },
    ];
    let root = X86_64PciArch::ecam_root(&table, 2).unwrap();
    assert_eq!(root.physical_address_base, 0xf000_0000);
    assert_eq!(root.mmio_base, None);
    assert_eq!(root.segement_group_number, 2);
    assert_eq!((root.bus_begin, root.bus_end), (1, 9));
    assert_eq!(X86_64PciArch::ecam_root(&table, 1), Err(PciError::SegmentNotFound));
}

#[test]
fn cpu_records() {
    let mut cpus = Cpus::new(4);
    assert_eq!(cpus.len(), 1);
    assert_eq!(*cpus.get(4), CpuInfo { initialised: false, loaded: false, ring0_rsp: 0 });
    cpus.init_bsp(4);
    assert_eq!(*cpus.get(4), CpuInfo { initialised: true, loaded: true, ring0_rsp: 0 });
    cpus.insert(9, CpuInfo::new());
    cpus.insert(1, CpuInfo { initialised: true, loaded: false, ring0_rsp: 7 });
    cpus.insert(9, CpuInfo { initialised: true, loaded: false, ring0_rsp: 8 });
    assert_eq!(cpus.len(), 3);
    assert_eq!(cpus.iter_id(), vec![1, 4, 9]);
    assert_eq!(cpus.get(9).ring0_rsp, 8);
    assert_eq!(cpus.get(1).ring0_rsp, 7);
    assert!(cpus.contains(4));
    assert!(!cpus.contains(5));
}

#[test]
fn application_processors_get_records() {
    let mut cpus = Cpus::new(0);
    cpus.init_bsp(0);
    let report = vec![
        SmpCpu { id: 7, lapic_id: 0 },
        SmpCpu { id: 0, lapic_id: 2 },
        SmpCpu { id: 2, lapic_id: 4 },
        SmpCpu { id: 3, lapic_id: 6 },
    ];
    let started = cpus.init_ap(&report, 0);
    assert_eq!(started, vec![2, 4, 6]);
    assert_eq!(cpus.len(), 4);
    assert_eq!(cpus.iter_id(), vec![0, 2, 4, 6]);
    assert_eq!(*cpus.get(0), CpuInfo { initialised: true, loaded: true, ring0_rsp: 0 });
    for id in [2, 4, 6] {
        assert_eq!(*cpus.get(id), CpuInfo { initialised: true, loaded: false, ring0_rsp: 0 });
    }
    let mut info = *cpus.get(4);
    info.load();
    info.set_ring0_rsp(0x8000);
    cpus.insert(4, info);
    assert_eq!(*cpus.get(4), CpuInfo { initialised: true, loaded: true, ring0_rsp: 0x8000 });
    cpus.get_mut(6).set_ring0_rsp(0x9000);
    assert_eq!(*cpus.get(6), CpuInfo { initialised: true, loaded: false, ring0_rsp: 0x9000 });
    assert_eq!(*cpus.get(4), CpuInfo { initialised: true, loaded: true, ring0_rsp: 0x8000 });
    assert_eq!(cpus.iter_id(), vec![0, 2, 4, 6]);
}

#[test]
fn bootstrap_cpu_is_known_by_its_local_apic() {
    let mut cpus = Cpus::new(1);
    cpus.init_bsp(1);
    let report = vec![SmpCpu { id: 0, lapic_id: 1 }, SmpCpu { id: 1, lapic_id: 3 }];
    let started = cpus.init_ap(&report, 1);
    assert_eq!(started, vec![3]);
    assert_eq!(cpus.len(), 2);
    assert_eq!(*cpus.get(1), CpuInfo { initialised: true, loaded: true, ring0_rsp: 0 });
    assert_eq!(*cpus.get(3), CpuInfo { initialised: true, loaded: false, ring0_rsp: 0 });
    assert_eq!(cpus.iter_id(), vec![1, 3]);
}

#[test]
fn ids_come_in_rising_order() {
    let mut cpus = Cpus::new(40);
    for id in [7u32, 300, 2, 41, 39, 0] {
        cpus.insert(id, CpuInfo::new());
    }
    assert_eq!(cpus.iter_id(), vec![0, 2, 7, 39, 40, 41, 300]);
    assert_eq!(cpus.len(), 7);
}
