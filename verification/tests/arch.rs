use kernel::arch::x86::acpi::{
    has_bytes, rsdt_address, rsdt_entries, search_rsdp, ACPISDTHeader,
};
use kernel::arch::x86::apic::{
    elapsed_ticks, lapic_base, parse_madt, spurious_enable, EntryIOAPIC, EntrySourceOverride,
};
use kernel::arch::x86::apic;
use kernel::arch::x86::context::{switch, Context, Registers};
use kernel::arch::x86::io::{PortOp, ScriptedPorts};
use kernel::arch::x86::cpu::{byte, Cpu, Flags, FEATURE_APIC, FEATURE_MSR, FEATURE_SSE3};
use kernel::arch::x86::gdt::{format_entry, table, GdtEntry, NENTRIES};
use kernel::arch::x86::iomem::remap_phys;
use kernel::arch::x86::irq::{top_handlers, Handler, IrqTable};
use kernel::arch::x86::lock::RawSpinLock;
use kernel::arch::x86::paging::{page_fault_causes, Cause, PF};
use kernel::error::{Error, MappingError};
use kernel::klib::lock::RwLock;
use kernel::klib::mem::{difference, memcmp, memcpy, memmove, memset, strlen};
use kernel::proc::schedule::{self, new_kernel_thread, schedule, Scheduler, Task};
use kernel::utils::macros::{align_down, align_up, is_aligned, mb, round_page_down, round_page_up};
use kernel::utils::rawbox::RawBox;

#[test]
fn error_codes() {
    assert_eq!(Error::OutOfMemory.code(), 12);
    assert_eq!(Error::Fault.code(), 14);
    assert_eq!(Error::NotImplemented.code(), 38);
    assert_eq!(Error::NotFound.code(), 2);
    assert_eq!(Error::InvalidArgument.code(), 22);
    assert_ne!(MappingError::Unaligned, MappingError::AlreadyMapped);
    assert_ne!(MappingError::NotMapped, MappingError::AlreadyMapped);
}

#[test]
fn gdt_entries_are_packed() {
    let e = format_entry(0x1234_5678, 0x000f_abcd, 0x9a, 0x0c);
    assert_eq!(
        e,
        GdtEntry {
            limit_low: 0xabcd,
            base_low: 0x5678,
            base_mid: 0x34,
            access: 0x9a,
            flags_limit_high: 0xcf,
            base_high: 0x12
        }
    );
    // only twenty bits of the limit and four of the flags count
    let f = format_entry(0, 0xffff_ffff, 0x92, 0xfc);
    assert_eq!(f.limit_low, 0xffff);
    assert_eq!(f.flags_limit_high, 0xcf);
    let t = table();
    assert_eq!(t.len(), NENTRIES);
    assert_eq!(t[0], format_entry(0, 0, 0, 0));
    assert_eq!(t[1].access, 0x9a);
    assert_eq!(t[2].access, 0x92);
    assert_eq!(t[3], t[1]);
    assert_eq!(t[4], t[2]);
}

#[test]
fn spin_lock_states() {
    let mut l = RawSpinLock::new();
    assert!(!l.is_locked());
    l.lock();
    assert!(l.is_locked());
    assert!(!l.try_lock());
    assert!(l.is_locked());
    l.release();
    assert!(!l.is_locked());
    assert!(l.try_lock());
    l.release();
    l.release();
    assert!(!l.is_locked());
}

#[test]
fn rw_lock_counts_readers() {
    let mut l = RwLock::new(5u32);
    assert_eq!(*l.read(), 5);
    assert_eq!(*l.read(), 5);
    l.read_release();
    l.read_release();
    l.write();
    l.set(6);
    l.write_release();
    assert_eq!(*l.read(), 6);
    l.read_release();
}

#[test]
fn remap_needs_the_linear_window() {
    assert_eq!(remap_phys(0xfee0_0000, 0x1000), Err("Could not remap physical address"));
    assert_eq!(remap_phys(0x000e_0000, 0x1000), Ok(0xc00e_0000));
    assert_eq!(remap_phys(0x2fff_ffff, 1), Ok(0xefff_ffff));
    assert!(remap_phys(0x3000_0000, 1).is_err());
}

#[test]
fn root_pointer_is_searched_in_steps_of_sixteen() {
    let mut memory = vec![0u8; 256];
    // a signature that is not aligned does not count
    memory[8..16].copy_from_slice(b"RSD PTR ");
    assert_eq!(search_rsdp(&memory), Err(()));
    memory[64..72].copy_from_slice(b"RSD PTR ");
    memory[128..136].copy_from_slice(b"RSD PTR ");
    assert_eq!(search_rsdp(&memory), Ok(64));
    memory[64 + 16..64 + 20].copy_from_slice(&0x07fe_0000u32.to_le_bytes());
    assert_eq!(rsdt_address(&memory, 64), Ok(0x07fe_0000));
    memory[64 + 15] = 2;
    assert_eq!(rsdt_address(&memory, 64), Err(Error::NotImplemented));
    assert!(has_bytes(&memory, 8, b"RSD"));
    assert!(!has_bytes(&memory, 9, b"RSD"));
    assert!(!has_bytes(&memory, 250, b"RSD PTR "));
    assert_eq!(search_rsdp(&[]), Err(()));
    // a signature cut off by the end does not count
    let mut cut = vec![0u8; 20];
    cut[16..20].copy_from_slice(b"RSD ");
    assert_eq!(search_rsdp(&cut), Err(()));
}

fn header(signature: &[u8; 4], length: u32) -> Vec<u8> {
    let mut h = vec![0u8; 36];
    h[0..4].copy_from_slice(signature);
    h[4..8].copy_from_slice(&length.to_le_bytes());
    h[8] = 1;
    h[9] = 0xaa;
    h[10..16].copy_from_slice(b"BOCHS ");
    h[16..24].copy_from_slice(b"BXPCAPIC");
    h[24..28].copy_from_slice(&1u32.to_le_bytes());
    h[28..32].copy_from_slice(&0x4358_5042u32.to_le_bytes());
    h[32..36].copy_from_slice(&2u32.to_le_bytes());
    h
}

#[test]
fn table_headers_and_root_table() {
    let mut rsdt = header(b"RSDT", 36 + 12);
    rsdt.extend_from_slice(&0x07fe_1000u32.to_le_bytes());
    rsdt.extend_from_slice(&0x07fe_2000u32.to_le_bytes());
    rsdt.extend_from_slice(&0x07fe_3000u32.to_le_bytes());
    rsdt.extend_from_slice(&0xdead_beefu32.to_le_bytes());
    let h = ACPISDTHeader::parse(&rsdt, 0);
    assert_eq!(&h.signature, b"RSDT");
    assert_eq!(h.length, 48);
    assert_eq!(h.revision, 1);
    assert_eq!(h.checksum, 0xaa);
    assert_eq!(&h.oem_id, b"BOCHS ");
    assert_eq!(&h.oem_table_id, b"BXPCAPIC");
    assert_eq!(h.oem_revision, 1);
    assert_eq!(h.creator_id, 0x4358_5042);
    assert_eq!(h.creator_revision, 2);
    // the length says three entries
    assert_eq!(rsdt_entries(&rsdt), vec![0x07fe_1000, 0x07fe_2000, 0x07fe_3000]);
    // no more than the table holds
    assert_eq!(rsdt_entries(&rsdt[..36 + 8]), vec![0x07fe_1000, 0x07fe_2000]);
    assert_eq!(rsdt_entries(&header(b"RSDT", 10)), Vec::<u32>::new());
}

fn madt(entries: &[&[u8]]) -> Vec<u8> {
    let total: usize = entries.iter().map(|e| e.len()).sum();
    let mut t = header(b"APIC", (44 + total) as u32);
    t.extend_from_slice(&0xfee0_0000u32.to_le_bytes());
    t.extend_from_slice(&1u32.to_le_bytes());
    for e in entries {
        t.extend_from_slice(e);
    }
    t
}

const LAPIC: [u8; 8] = [0, 8, 0, 0, 1, 0, 0, 0];
const IOAPIC: [u8; 12] = [1, 12, 2, 0, 0x00, 0x00, 0xc0, 0xfe, 0, 0, 0, 0];
const OVERRIDE0: [u8; 10] = [2, 10, 0, 0, 2, 0, 0, 0, 0, 0];
const OVERRIDE9: [u8; 10] = [2, 10, 0, 9, 9, 0, 0, 0, 0x0d, 0];

#[test]
fn madt_entries_are_collected() {
    let t = madt(&[&LAPIC, &IOAPIC, &OVERRIDE0, &OVERRIDE9]);
    let m = parse_madt(&t).unwrap();
    assert_eq!(m.lapic_address, 0xfee0_0000);
    assert_eq!(m.flags, 1);
    assert_eq!(m.ioapic, Some(EntryIOAPIC { id: 2, address: 0xfec0_0000, gib: 0 }));
    assert_eq!(
        m.overrides,
        vec![
            EntrySourceOverride { bus: 0, irq: 0, gsi: 2, flags: 0 },
            EntrySourceOverride { bus: 0, irq: 9, gsi: 9, flags: 0x0d },
        ]
    );
    let none = parse_madt(&madt(&[])).unwrap();
    assert_eq!(none.ioapic, None);
    assert!(none.overrides.is_empty());
}

#[test]
fn madt_refusals() {
    assert!(matches!(parse_madt(&madt(&[&IOAPIC, &IOAPIC])), Err(Error::NotImplemented)));
    // an entry without length
    assert!(matches!(parse_madt(&madt(&[&[0u8, 0]])), Err(Error::InvalidArgument)));
    // an entry that reaches beyond the table
    assert!(matches!(parse_madt(&madt(&[&[0u8, 9, 0]])), Err(Error::InvalidArgument)));
    // an I/O APIC entry that is too short
    assert!(matches!(parse_madt(&madt(&[&[1u8, 4, 0, 0]])), Err(Error::InvalidArgument)));
    assert!(matches!(parse_madt(&madt(&[&[2u8, 4, 0, 0]])), Err(Error::InvalidArgument)));
    // a single byte left over
    assert!(matches!(parse_madt(&madt(&[&[7u8]])), Err(Error::InvalidArgument)));
    // the length in the header cuts the table
    let mut t = madt(&[&LAPIC, &IOAPIC]);
    t[4..8].copy_from_slice(&52u32.to_le_bytes());
    assert_eq!(parse_madt(&t).unwrap().ioapic, None);
}

#[test]
fn lapic_values() {
    assert_eq!(lapic_base(0xfee0_0900), 0xfee0_0000);
    assert_eq!(spurious_enable(0), 0x1ff);
    assert_eq!(spurious_enable(0xf000_000f), 0xf000_01ff);
    assert_eq!(elapsed_ticks(u32::MAX - 1000), 1000);
}

#[test]
fn cpu_features_and_vendor() {
    let mut cpu = Cpu::new();
    assert!(!cpu.has_feature(Flags::from_bits_retain(FEATURE_MSR)));
    assert!(cpu.has_feature(Flags::empty()));
    // "GenuineIntel"
    cpu.record(0x756e_6547, 0x4965_6e69, 0x6c65_746e, 0x0000_0220, 0x0000_0001);
    assert_eq!(&cpu.vendor_string, b"GenuineIntel");
    assert_eq!(cpu.features.bits(), 0x0000_0220_0000_0001);
    assert!(cpu.has_feature(Flags::from_bits_retain(FEATURE_MSR)));
    assert!(cpu.has_feature(Flags::from_bits_retain(FEATURE_APIC)));
    assert!(cpu.has_feature(Flags::from_bits_retain(FEATURE_MSR | FEATURE_SSE3)));
    assert!(!cpu.has_feature(Flags::from_bits_retain(2)));
    assert_eq!(byte(0x1234_5678, 0), 0x78);
    assert_eq!(byte(0x1234_5678, 3), 0x12);
    assert_eq!(Flags::from_registers(1, 2).bits(), 0x1_0000_0002);
}

#[test]
fn page_fault_error_codes() {
    assert_eq!(page_fault_causes(0), vec![Cause::PageNotPresent, Cause::Read]);
    assert_eq!(page_fault_causes(3), vec![Cause::PageProtection, Cause::Write]);
    assert_eq!(
        page_fault_causes(0x16),
        vec![Cause::PageNotPresent, Cause::Write, Cause::Cpl3, Cause::InstructionFetch]
    );
    assert_eq!(
        page_fault_causes(0xffff_ffff),
        vec![
            Cause::PageProtection,
            Cause::Write,
            Cause::Cpl3,
            Cause::ReservedWriteBits,
            Cause::InstructionFetch,
            Cause::KeyProtection,
            Cause::ShadowStack,
            Cause::SgxViolation,
        ]
    );
    let f = PF::from_bits(0x88).unwrap();
    assert_eq!(f.bits(), 0x88);
    assert!(f.has(3));
    assert!(f.has(7));
    assert!(!f.has(0));
}

#[test]
fn context_stack_grows_down() {
    let mut c = Context::new(0x10_0000);
    assert_eq!(c.esp, 0x10_1000);
    assert_eq!(c.ebp, 0x10_1000);
    c.push(1);
    c.push(2);
    assert_eq!(c.esp, 0x10_0ff8);
    assert_eq!(c.stack[1023], 1);
    assert_eq!(c.stack[1022], 2);
    c.init_stack();
    assert_eq!(c.esp, 0x10_1000);
}

#[test]
fn switch_saves_and_loads_registers() {
    let mut cpu = Registers { ebx: 1, esi: 2, edi: 3, ebp: 4, esp: 5, eflags: 6 };
    let mut prev = Context::new(0x1000);
    prev.eax = 99;
    let mut next = Context::new(0x3000);
    next.ebx = 11;
    next.esi = 12;
    next.edi = 13;
    next.eflags = 0x202;
    switch(&mut cpu, &mut prev, &next);
    assert_eq!(cpu, Registers { ebx: 11, esi: 12, edi: 13, ebp: 0x4000, esp: 0x4000, eflags: 0x202 });
    assert_eq!(prev.registers(), Registers { ebx: 1, esi: 2, edi: 3, ebp: 4, esp: 5, eflags: 6 });
    assert_eq!(prev.eax, 99);
}

#[test]
fn tasks_take_turns() {
    let mut s = Scheduler::new();
    let mut cpu = Registers { ebx: 0, esi: 0, edi: 0, ebp: 0x9000, esp: 0x8ff0, eflags: 2 };
    assert_eq!(schedule(&mut s, &mut cpu), Ok(()));
    assert_eq!(cpu.esp, 0x8ff0);
    new_kernel_thread(&mut s, 0xc010_0000, 0xc010_2000, 0x2, 0x10_0000);
    new_kernel_thread(&mut s, 0xc010_1000, 0xc010_2000, 0x2, 0x20_0000);
    new_kernel_thread(&mut s, 0xc010_1800, 0xc010_2000, 0x2, 0x30_0000);
    assert_eq!(s.tasks.len(), 3);
    let first = &s.tasks[0].context;
    assert_eq!(first.esp, 0x10_1000 - 16);
    assert_eq!(first.stack[1020..].to_vec(), vec![0xc010_2000, 0xc010_0000, 0x8, 0x202]);
    assert_eq!(s.current, 0);
    assert_eq!(schedule(&mut s, &mut cpu), Ok(()));
    assert_eq!(s.current, 1);
    assert_eq!(cpu.esp, 0x20_1000 - 16);
    // the first task got what the CPU held
    assert_eq!(s.tasks[0].context.esp, 0x8ff0);
    assert_eq!(s.tasks[0].context.ebp, 0x9000);
    let _ = schedule(&mut s, &mut cpu);
    assert_eq!(s.current, 2);
    assert_eq!(cpu.esp, 0x30_1000 - 16);
    let _ = schedule(&mut s, &mut cpu);
    assert_eq!(s.current, 0);
    assert_eq!(cpu.esp, 0x8ff0);
    let t = Task::new(0x5000);
    assert_eq!(t.context.base, 0x5000);
    let mut table = IrqTable::new();
    schedule::init(&mut table);
    assert_eq!(top_handlers(&table, 50), Ok(vec![Handler::Schedule]));
}

#[test]
fn memory_operations() {
    let mut dest = vec![9u8; 6];
    memcpy(&mut dest, &[1, 2, 3, 4], 3);
    assert_eq!(dest, vec![1, 2, 3, 9, 9, 9]);
    memset(&mut dest, 7, 2);
    assert_eq!(dest, vec![7, 7, 3, 9, 9, 9]);
    memset(&mut dest, 0, 0);
    assert_eq!(dest, vec![7, 7, 3, 9, 9, 9]);
    // overlapping moves in both directions
    let mut buf = vec![1u8, 2, 3, 4, 5, 6];
    memmove(&mut buf, 2, 0, 4);
    assert_eq!(buf, vec![1, 2, 1, 2, 3, 4]);
    let mut buf = vec![1u8, 2, 3, 4, 5, 6];
    memmove(&mut buf, 0, 2, 4);
    assert_eq!(buf, vec![3, 4, 5, 6, 5, 6]);
    assert_eq!(memcmp(b"abcd", b"abcd", 4), 0);
    assert_eq!(memcmp(b"abcd", b"abzd", 4), -23);
    assert_eq!(memcmp(b"abzd", b"abcd", 4), 23);
    assert_eq!(memcmp(b"abcd", b"abzd", 2), 0);
    assert_eq!(memcmp(b"", b"", 0), 0);
    assert_eq!(difference(0, 255), -255);
    assert_eq!(strlen(b"hello\0world"), 5);
    assert_eq!(strlen(b"\0"), 0);
    assert_eq!(strlen(b"abc"), 3);
}

#[test]
fn sizes_and_alignment() {
    assert_eq!(mb(4), 0x40_0000);
    assert!(is_aligned(0x2000, 0x1000));
    assert!(!is_aligned(0x2001, 0x1000));
    assert_eq!(align_down(0x2fff, 0x1000), 0x2000);
    assert_eq!(align_up(0x2001, 0x1000), Some(0x3000));
    assert_eq!(align_up(0x2000, 0x1000), Some(0x2000));
    assert_eq!(align_up(usize::MAX, 0x1000), None);
    assert_eq!(round_page_up(0x1234), Some(0x2000));
    assert_eq!(round_page_up(0x2000), Some(0x2000));
    assert_eq!(round_page_down(0x1234), 0x1000);
}

#[test]
fn raw_box_holds_an_address() {
    let b: RawBox<u32> = RawBox::from_ptr(0xb8000);
    assert_eq!(b.to_ptr(), 0xb8000);
    assert!(!b.is_null());
    let n = RawBox::new(5u8);
    assert_eq!(n.to_ptr(), 0);
    assert!(n.is_null());
}

#[test]
fn local_apic_is_enabled_through_its_registers() {
    let mut p = ScriptedPorts::new(vec![0x0000_000f]);
    apic::enable_lapic(&mut p, 0xFEE0_0000);
    assert_eq!(
        p.log,
        vec![
            PortOp::Load(0xFEE0_00f0, 0xf),
            PortOp::Store(0xFEE0_00f0, 0x1ff),
            PortOp::Store(0xFEE0_0320, 0x43),
        ]
    );
    let mut q = ScriptedPorts::new(vec![77]);
    apic::end_of_interrupt(&mut q, 0xFEE0_0000);
    assert_eq!(apic::timer::poll(&mut q, 0xFEE0_0000), 77);
    assert_eq!(
        q.log,
        vec![PortOp::Store(0xFEE0_00b0, 0), PortOp::Load(0xFEE0_0390, 77)]
    );
}

#[test]
fn io_apic_registers_are_reached_through_a_window() {
    let mut p = ScriptedPorts::new(vec![5]);
    assert_eq!(apic::ioapic_read_reg(&mut p, 0xFEC0_0000, 0x12), 5);
    apic::ioapic_write_reg(&mut p, 0xFEC0_0000, 0x13, 9);
    assert_eq!(
        p.log,
        vec![
            PortOp::Store(0xFEC0_0000, 0x12),
            PortOp::Load(0xFEC0_0010, 5),
            PortOp::Store(0xFEC0_0000, 0x13),
            PortOp::Store(0xFEC0_0010, 9),
        ]
    );
    let mut q = ScriptedPorts::new(vec![1, 2, 3]);
    apic::enable_ioapic_interrupts(&mut q, 0xFEC0_0000, 0xFEE0_0000);
    assert_eq!(q.log.len(), 7);
    assert_eq!(q.log[4], PortOp::Load(0xFEE0_0020, 3));
    assert_eq!(q.log[5], PortOp::Store(0xFEC0_0000, 0x12));
    assert_eq!(q.log[6], PortOp::Store(0xFEC0_0010, 42));
}

#[test]
fn apic_timer_is_measured_against_the_interval_timer() {
    // the control port holds 0x01; the count has run down at the third question;
    // the APIC's timer has come down to 0xffff_0000 by then
    let mut p = ScriptedPorts::new(vec![0x01, 0x00, 0x10, 0x20, 0xffff_0000]);
    assert_eq!(apic::timer::init(&mut p, 0xFEE0_0000), Some(0xffff));
    assert_eq!(
        p.log,
        vec![
            PortOp::Out8(0x43, 0xb2),
            PortOp::Wait,
            PortOp::Out8(0x42, 0x9b),
            PortOp::Wait,
            PortOp::Out8(0x42, 0x2e),
            PortOp::Wait,
            PortOp::Store(0xFEE0_0380, u32::MAX),
            PortOp::In8(0x61, 0x01),
            PortOp::Out8(0x61, 0x00),
            PortOp::Out8(0x61, 0x01),
            PortOp::Wait,
            PortOp::In8(0x61, 0x00),
            PortOp::Wait,
            PortOp::In8(0x61, 0x10),
            PortOp::Wait,
            PortOp::In8(0x61, 0x20),
            PortOp::Wait,
            PortOp::Load(0xFEE0_0390, 0xffff_0000),
            PortOp::Store(0xFEE0_0380, 0),
            PortOp::Store(0xFEE0_0380, 0xffff),
            PortOp::Store(0xFEE0_0320, 0x20032),
        ]
    );
}

#[test]
fn the_table_of_interrupt_controllers_is_known_by_its_signature() {
    let mut bytes = header(b"APIC", 44);
    assert!(ACPISDTHeader::parse(&bytes, 0).is_madt());
    bytes[3] = b'D';
    assert!(!ACPISDTHeader::parse(&bytes, 0).is_madt());
    assert!(!ACPISDTHeader::parse(&header(b"FACP", 44), 0).is_madt());
}
