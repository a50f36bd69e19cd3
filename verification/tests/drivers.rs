use std::collections::VecDeque;

use kernel::arch::x86::io::{Pio, PortBus, PortIO, PortOp, ScriptedPorts};
use kernel::arch::x86::irq::{request_irq_top, top_handlers, Handler, IrqTable};
use kernel::arch::x86::pci;
use kernel::arch::x86::pic;
use kernel::driver::input::{process_input_events, push_event, InputEvent};
use kernel::driver::kbd;
use kernel::driver::pci::config::{
    read_field, read_reg, write_reg, BarType, Caps, PCICommand, PCIEndpointConfig,
};
use kernel::driver::pci::id;
use kernel::driver::pci::PCIType;
use kernel::driver::pci_ide::{
    parse_identify, Bus, IDEController, Wanted, ATA_CMD_IDENTIFY, IDE_DISK_MASTER, SETTLE_READS,
    SPIN_LIMIT,
};
use kernel::driver::serial::SerialDriver;
use kernel::driver::timer::{self, do_timer, get_jiffies, Timer};
use kernel::driver::vga::{VgaChar, HEIGHT, VGA, WIDTH};
use kernel::error::Error;

#[test]
fn scripted_ports_answer_in_order_and_log() {
    let mut p = ScriptedPorts::new(vec![0x1234_5678, 0xabcd_ef01, 7]);
    p.outb(0x20, 1);
    assert_eq!(p.inb(0x60), 0x78);
    assert_eq!(p.inw(0x1f0), 0xef01);
    assert_eq!(p.inl(0xcfc), 7);
    // answers used up: the bus floats
    assert_eq!(p.inl(0xcfc), 0xffff_ffff);
    assert_eq!(p.inb(0x60), 0xff);
    p.outw(1, 2);
    p.outl(3, 4);
    p.wait();
    assert_eq!(
        p.log,
        vec![
            PortOp::Out8(0x20, 1),
            PortOp::In8(0x60, 0x78),
            PortOp::In16(0x1f0, 0xef01),
            PortOp::In32(0xcfc, 7),
            PortOp::In32(0xcfc, 0xffff_ffff),
            PortOp::In8(0x60, 0xff),
            PortOp::Out16(1, 2),
            PortOp::Out32(3, 4),
            PortOp::Wait,
        ]
    );
}

#[test]
fn pio_reads_and_writes_its_port() {
    let mut p = ScriptedPorts::new(vec![0x11, 0x2222, 0x3333_3333]);
    let b: Pio<u8> = Pio::new(0x10);
    let w: Pio<u16> = Pio::new(0x20);
    let l: Pio<u32> = Pio::new(0x30);
    assert_eq!(b.read(&mut p), 0x11);
    assert_eq!(w.read(&mut p), 0x2222);
    assert_eq!(l.read(&mut p), 0x3333_3333);
    b.write(&mut p, 1);
    w.write(&mut p, 2);
    l.write(&mut p, 3);
    assert_eq!(
        p.log[3..].to_vec(),
        vec![PortOp::Out8(0x10, 1), PortOp::Out16(0x20, 2), PortOp::Out32(0x30, 3)]
    );
}

#[test]
fn pic_setup_remaps_behind_the_exceptions() {
    let mut p = ScriptedPorts::new(vec![]);
    pic::setup(&mut p);
    assert_eq!(
        p.log,
        vec![
            PortOp::Out8(0x20, 0x11),
            PortOp::Wait,
            PortOp::Out8(0xa0, 0x11),
            PortOp::Wait,
            PortOp::Out8(0x21, 0x20),
            PortOp::Wait,
            PortOp::Out8(0xa1, 0x28),
            PortOp::Wait,
            PortOp::Out8(0x21, 4),
            PortOp::Wait,
            PortOp::Out8(0xa1, 2),
            PortOp::Wait,
            PortOp::Out8(0x21, 1),
            PortOp::Wait,
            PortOp::Out8(0xa1, 1),
            PortOp::Wait,
            PortOp::Out8(0x21, 1),
            PortOp::Out8(0xa1, 0),
            PortOp::Wait,
        ]
    );
}

#[test]
fn pic_eoi_and_disable() {
    let mut p = ScriptedPorts::new(vec![]);
    pic::eoi(&mut p, 3);
    assert_eq!(p.log, vec![PortOp::Out8(0x20, 0x20)]);
    pic::eoi(&mut p, 8);
    assert_eq!(p.log[1..].to_vec(), vec![PortOp::Out8(0xa0, 0x20), PortOp::Out8(0x20, 0x20)]);
    let mut q = ScriptedPorts::new(vec![]);
    pic::disable(&mut q);
    assert_eq!(q.log.len(), 22);
    assert_eq!(
        q.log[19..].to_vec(),
        vec![PortOp::Out8(0x21, 0xff), PortOp::Out8(0xa1, 0xff), PortOp::Wait]
    );
}

#[test]
fn pci_addresses() {
    assert_eq!(pci::build_address(0, 0, 0, 0), 0x8000_0000);
    assert_eq!(pci::build_address(1, 2, 3, 0x10), 0x8001_1310);
    assert_eq!(pci::build_address(255, 31, 7, 0xfc), 0x80ff_fffc);
    assert_eq!(id::build_address(1, 2, 3, 0x10), 0x8001_1310);
}

#[test]
fn pci_device_exist_reads_register_zero() {
    let mut p = ScriptedPorts::new(vec![0x1234_8086]);
    assert!(pci::device_exist(&mut p, 0, 1, 0));
    assert!(!pci::device_exist(&mut p, 0, 2, 0));
    assert_eq!(
        p.log,
        vec![
            PortOp::Out32(0xcf8, 0x8000_0800),
            PortOp::In32(0xcfc, 0x1234_8086),
            PortOp::Out32(0xcf8, 0x8000_1000),
            PortOp::In32(0xcfc, 0xffff_ffff),
        ]
    );
    let mut q = ScriptedPorts::new(vec![1]);
    assert!(id::device_exist(&mut q, 3, 4, 5));
    assert_eq!(q.log[0], PortOp::Out32(0xcf8, 0x8003_2500));
}

#[test]
fn pci_header_and_kind() {
    let mut p = ScriptedPorts::new(vec![0x7010_8086, 0x0280_0005, 0x0101_8000, 0x0080_4010]);
    let h = pci::read_header(&mut p, 0x8000_0900);
    assert_eq!(h.vendor, 0x8086);
    assert_eq!(h.id, 0x7010);
    assert_eq!(h.command, 5);
    assert_eq!(h.status, 0x0280);
    assert_eq!(h.revid, 0);
    assert_eq!(h.progif, 0x80);
    assert_eq!(h.class, 0x0101);
    assert_eq!(h.cache_line_size, 0x10);
    assert_eq!(h.latency_timer, 0x40);
    assert_eq!(h.header_type, 0x80);
    assert_eq!(h.bist, 0);
    assert_eq!(p.log[2], PortOp::Out32(0xcf8, 0x8000_0904));
    assert_eq!(p.log[6], PortOp::Out32(0xcf8, 0x8000_090c));
    let mut d = pci::PCIDevice::new(0, 1, 1);
    assert_eq!(d.address, 0x8000_0900);
    d.header = h;
    assert_eq!(pci::investigate_device(&mut d), Ok(()));
    assert_eq!(d.kind, pci::PCIType::IDE);
    d.header.class = 0x106;
    assert_eq!(pci::investigate_device(&mut d), Ok(()));
    assert_eq!(d.kind, pci::PCIType::SATA);
    d.header.class = 0x105;
    let _ = pci::investigate_device(&mut d);
    assert_eq!(d.kind, pci::PCIType::ATA);
    d.header.class = 0x300;
    let _ = pci::investigate_device(&mut d);
    assert_eq!(d.kind, pci::PCIType::Unclassified);
    d.header.header_type = 0x01;
    assert_eq!(pci::investigate_device(&mut d), Err(Error::NotImplemented));
}

#[test]
fn pci_device_bars_and_busmaster() {
    let d = pci::PCIDevice::new(0, 1, 1);
    let mut p = ScriptedPorts::new(vec![0xc001, 0x3, 0x7]);
    assert_eq!(d.get_bar(&mut p, 4), 0xc001);
    d.set_bar(&mut p, 0, 0x1f0);
    d.enable_busmaster(&mut p);
    assert_eq!(
        p.log,
        vec![
            PortOp::Out32(0xcf8, 0x8000_0920),
            PortOp::In32(0xcfc, 0xc001),
            PortOp::Out32(0xcf8, 0x8000_0910),
            PortOp::Out32(0xcfc, 0x1f0),
            PortOp::Out32(0xcf8, 0x8000_0904),
            PortOp::In32(0xcfc, 3),
            PortOp::Out32(0xcf8, 0x8000_0904),
            PortOp::Out32(0xcfc, 7),
            PortOp::Out32(0xcf8, 0x8000_0904),
            PortOp::In32(0xcfc, 7),
        ]
    );
    let mut q = ScriptedPorts::new(vec![5]);
    assert_eq!(pci::read_reg(&mut q, 0x8000_0900, 0x3c), 5);
    pci::write_reg(&mut q, 0x8000_0900, 0x3c, 9);
    assert_eq!(q.log[0], PortOp::Out32(0xcf8, 0x8000_093c));
    assert_eq!(q.log[3], PortOp::Out32(0xcfc, 9));
}

#[test]
fn config_fields_are_cut_from_their_registers() {
    let mut p = ScriptedPorts::new(vec![0x4433_2211, 0x4433_2211, 0x4433_2211, 0x4433_2211]);
    assert_eq!(read_field(&mut p, 0x8000_0000, 0x8), 0x4433_2211);
    assert_eq!(read_field(&mut p, 0x8000_0000, 0x9), 0x44_3322);
    assert_eq!(read_field(&mut p, 0x8000_0000, 0xa), 0x4433);
    assert_eq!(read_field(&mut p, 0x8000_0000, 0xb), 0x44);
    for i in 0..4 {
        assert_eq!(p.log[2 * i], PortOp::Out32(0xcf8, 0x8000_0008));
    }
    let mut q = ScriptedPorts::new(vec![1]);
    assert_eq!(read_reg(&mut q, 0x8000_0000, 4), 1);
    write_reg(&mut q, 0x8000_0000, 4, 2);
    assert_eq!(q.log[2..].to_vec(), vec![PortOp::Out32(0xcf8, 0x8000_0004), PortOp::Out32(0xcfc, 2)]);
}

fn ide_config_answers(status: u32) -> Vec<u32> {
    let mut v = vec![status];
    if (status >> 16) & 0x20 != 0 {
        v.push(0x0000_0050);
    }
    v.extend_from_slice(&[
        0x7010_8086, // vendor
        0x7010_8086, // device
        0x0280_0005, // command
        0x0101_8003, // revision
        0x0101_8003, // progif
        0x0101_8003, // class
        0x0080_4010, // cache line
        0x0080_4010, // latency
        0x0080_4010, // header type
        0xcafe_0001, // cardbus
        0xbbbb_aaaa, // subsystem vendor
        0xbbbb_aaaa, // subsystem
        0x000c_0000, // rom
        0x0403_020b, // interrupt line
        0x0403_020b, // interrupt pin
        0x0403_020b, // min grant
        0x0403_020b, // max latency
    ]);
    v
}

#[test]
fn endpoint_config_is_read_field_by_field() {
    let mut p = ScriptedPorts::new(ide_config_answers(0x0280_0005));
    let c = PCIEndpointConfig::from_io_space(&mut p, 0x8000_0900);
    assert_eq!(p.log.len(), 2 * 18);
    assert_eq!(c.base, 0x8000_0900);
    assert_eq!(c.vendor, 0x8086);
    assert_eq!(c.dev_id, 0x7010);
    assert_eq!(c.command, PCICommand { base: 0x8000_0900, value: 5 });
    assert_eq!(c.rev_id, 3);
    assert_eq!(c.progif, 0x80);
    assert_eq!(c.class, 0x0101);
    assert_eq!(c.cache_line_size, 0x10);
    assert_eq!(c.latency_timer, 0x40);
    assert_eq!(c.header_type, 0x80);
    assert_eq!(c.cardbus, 0xcafe_0001);
    assert_eq!(c.sub_vendor, 0xaaaa);
    assert_eq!(c.sub_system, 0xbbbb);
    assert_eq!(c.rom_base, 0x000c_0000);
    assert_eq!(c.caps, Some(Caps { base: 0 }));
    assert_eq!(c.int_line, 0x0b);
    assert_eq!(c.int_pin, 0x02);
    assert_eq!(c.min_grant, 0x03);
    assert_eq!(c.max_latency, 0x04);
    assert_eq!(p.log[0], PortOp::Out32(0xcf8, 0x8000_0904));
    assert_eq!(p.log[2], PortOp::Out32(0xcf8, 0x8000_0900));
    assert_eq!(p.log[34], PortOp::Out32(0xcf8, 0x8000_093c));
    assert_eq!(id::identify_class(&c), PCIType::IDE);
}

#[test]
fn endpoint_config_with_capabilities() {
    let mut p = ScriptedPorts::new(ide_config_answers(0x0020_0000));
    let c = PCIEndpointConfig::from_io_space(&mut p, 0x8000_0900);
    assert_eq!(p.log.len(), 2 * 19);
    assert_eq!(p.log[2], PortOp::Out32(0xcf8, 0x8000_0934));
    assert_eq!(c.caps, Some(Caps { base: 0x50 }));
    assert_eq!(c.vendor, 0x8086);
    let mut caps = c.caps.unwrap();
    let mut q = ScriptedPorts::new(vec![0x0000_6005, 0x0000_0001]);
    assert_eq!(caps.id(&mut q), 5);
    assert_eq!(caps.next(&mut q), Some(Caps { base: 0 }));
    assert_eq!(caps.next(&mut q), None);
    assert_eq!(q.log.len(), 4);
    assert_eq!(q.log[0], PortOp::Out32(0xcf8, 0x50));
}

#[test]
fn command_register_and_bars() {
    let c = PCIEndpointConfig::from_io_space(
        &mut ScriptedPorts::new(ide_config_answers(0)),
        0x8000_0900,
    );
    let mut command = c.command;
    let mut p = ScriptedPorts::new(vec![0x0280_0001, 0x1, 0x7, 0xc001, 0xfebf_000c, 0x9, 0x0280_0001]);
    assert_eq!(command.get(&mut p), 1);
    command.setf(&mut p, 0x4);
    command.unsetf(&mut p, 0x4);
    assert_eq!(p.log[3], PortOp::In32(0xcfc, 1));
    assert_eq!(p.log[5], PortOp::Out32(0xcfc, 5));
    assert_eq!(p.log[9], PortOp::Out32(0xcfc, 3));
    assert_eq!(c.get_bar(&mut p, 4), BarType::IO(0xc000));
    assert_eq!(c.get_bar(&mut p, 0), BarType::MMIO(0xfebf_0008));
    assert_eq!(c.get_bar_raw(&mut p, 5), 9);
    assert_eq!(p.log[10], PortOp::Out32(0xcf8, 0x8000_0920));
    assert_eq!(p.log[14], PortOp::Out32(0xcf8, 0x8000_0924));
    assert_eq!(c.status(&mut p), 0x0280);
}

fn identify_words() -> Vec<u16> {
    let mut words = vec![0u16; 256];
    let model = b"QEMU HARDDISK                           ";
    for i in 0..20 {
        words[27 + i] = ((model[2 * i] as u16) << 8) | model[2 * i + 1] as u16;
    }
    words[60] = 0x5678;
    words[61] = 0x0012;
    words
}

#[test]
fn identify_answer_is_parsed() {
    let info = parse_identify(&identify_words(), IDE_DISK_MASTER).unwrap();
    assert_eq!(&info.model[..13], b"QEMU HARDDISK");
    assert_eq!(info.model[39], b' ');
    assert_eq!(info.slot, 0xe0);
    assert_eq!(info.seccount, 0x0012_5678);
    let mut none = identify_words();
    none[60] = 0;
    none[61] = 0;
    assert_eq!(parse_identify(&none, IDE_DISK_MASTER), None);
}

#[test]
fn ide_bus_ports_and_slot_selection() {
    let mut bus = Bus::new(0x1f0, 0x3f6, 0xc000);
    assert_eq!(bus.data.port, 0x1f0);
    assert_eq!(bus.error.port, 0x1f1);
    assert_eq!(bus.features.port, 0x1f1);
    assert_eq!(bus.seccount.port, 0x1f2);
    assert_eq!(bus.lba0.port, 0x1f3);
    assert_eq!(bus.lba1.port, 0x1f4);
    assert_eq!(bus.lba2.port, 0x1f5);
    assert_eq!(bus.drive_select.port, 0x1f6);
    assert_eq!(bus.status.port, 0x1f7);
    assert_eq!(bus.command.port, 0x1f7);
    assert_eq!(bus.altstatus.port, 0x3f6);
    assert_eq!(bus.devctrl.port, 0x3f6);
    assert_eq!(bus.driveaddrs.port, 0x3f7);
    assert_eq!(bus.dma_command.port, 0xc000);
    assert_eq!(bus.dma_status.port, 0xc002);
    assert_eq!(bus.dma_prdt[0].port, 0xc004);
    assert_eq!(bus.dma_prdt[3].port, 0xc007);
    let mut p = ScriptedPorts::new(vec![]);
    bus.select_slot(&mut p, IDE_DISK_MASTER);
    assert_eq!(bus.active_drivesel, 0xe0);
    assert_eq!(p.log.len(), 1 + SETTLE_READS);
    assert_eq!(p.log[0], PortOp::Out8(0x1f6, 0xe0));
    assert_eq!(p.log[1], PortOp::In8(0x1f7, 0xff));
    assert_eq!(p.log[SETTLE_READS], PortOp::In8(0x1f7, 0xff));
}

#[test]
fn ide_probe_without_a_drive() {
    let mut bus = Bus::new(0x1f0, 0x3f6, 0xc000);
    let mut p = ScriptedPorts::new(vec![0]);
    assert_eq!(bus.probe(&mut p), None);
    assert_eq!(
        p.log,
        vec![
            PortOp::Out8(0x1f2, 0),
            PortOp::Out8(0x1f3, 0),
            PortOp::Out8(0x1f4, 0),
            PortOp::Out8(0x1f5, 0),
            PortOp::Out8(0x1f7, ATA_CMD_IDENTIFY),
            PortOp::In8(0x1f7, 0),
        ]
    );
}

#[test]
fn ide_probe_gives_up_on_a_busy_drive() {
    let mut bus = Bus::new(0x1f0, 0x3f6, 0xc000);
    // a floating bus reads as busy for ever
    let mut p = ScriptedPorts::new(vec![]);
    assert_eq!(bus.probe(&mut p), None);
    assert_eq!(p.log.len(), 6 + SPIN_LIMIT);
}

#[test]
fn ide_probe_finds_a_drive() {
    let mut bus = Bus::new(0x1f0, 0x3f6, 0xc000);
    bus.active_drivesel = IDE_DISK_MASTER;
    // status: busy, then idle; lba1 and lba2 zero; then busy, then data ready
    let mut answers: Vec<u32> = vec![0x80, 0x80, 0x50, 0, 0, 0x80, 0x58];
    answers.extend(identify_words().iter().map(|w| *w as u32));
    let mut p = ScriptedPorts::new(answers);
    let info = bus.probe(&mut p).unwrap();
    assert_eq!(info.seccount, 0x0012_5678);
    assert_eq!(info.slot, IDE_DISK_MASTER);
    assert_eq!(&info.model[..4], b"QEMU");
    assert_eq!(p.log.len(), 5 + 3 + 2 + 2 + 256);
    assert_eq!(p.log[8], PortOp::In8(0x1f4, 0));
    assert_eq!(p.log[9], PortOp::In8(0x1f5, 0));
    assert_eq!(p.log[12], PortOp::In16(0x1f0, 0));
    // not an ATA drive
    let mut q = ScriptedPorts::new(vec![0x50, 0x50, 0x14, 0xeb]);
    assert_eq!(bus.probe(&mut q), None);
    // the drive reports an error
    let mut r = ScriptedPorts::new(vec![0x50, 0x50, 0, 0, 0x51]);
    assert_eq!(bus.probe(&mut r), None);
    assert_eq!(r.log.len(), 5 + 2 + 2 + 1);
}

#[test]
fn ide_controller_must_be_in_compatibility_mode_with_dma() {
    let mut c = PCIEndpointConfig::from_io_space(
        &mut ScriptedPorts::new(ide_config_answers(0)),
        0x8000_0900,
    );
    for progif in [0x81u8, 0x84, 0x00, 0x7a] {
        c.progif = progif;
        let mut p = ScriptedPorts::new(vec![]);
        assert!(matches!(IDEController::probe_controller(&mut c, &mut p), Err(Error::NotImplemented)));
        assert!(p.log.is_empty());
    }
    c.progif = 0x80;
    // a memory BAR is of no use
    let mut p = ScriptedPorts::new(vec![0xfebf_0000]);
    assert!(matches!(IDEController::probe_controller(&mut c, &mut p), Err(Error::NotImplemented)));
    assert_eq!(p.log.len(), 2);
}

#[test]
fn ide_controller_probes_four_slots() {
    let mut c = PCIEndpointConfig::from_io_space(
        &mut ScriptedPorts::new(ide_config_answers(0)),
        0x8000_0900,
    );
    c.progif = 0x80;
    // BAR 4, then 2000 settle reads, then a master on the first bus
    let mut answers: Vec<u32> = vec![0xc001];
    answers.extend(std::iter::repeat(0x50).take(SETTLE_READS));
    answers.extend_from_slice(&[0x50, 0x50, 0, 0, 0x58]);
    answers.extend(identify_words().iter().map(|w| *w as u32));
    // every later status read says that there is no drive
    answers.extend(std::iter::repeat(0).take(3 * SETTLE_READS + 3 + 2));
    let mut p = ScriptedPorts::new(answers);
    let controller = IDEController::probe_controller(&mut c, &mut p).unwrap();
    assert_eq!(controller.buses[0].disks.len(), 1);
    assert_eq!(controller.buses[0].disks[0].seccount, 0x0012_5678);
    assert_eq!(controller.buses[0].disks[0].slot, IDE_DISK_MASTER);
    assert_eq!(controller.buses[1].disks.len(), 0);
    assert_eq!(controller.buses[0].data.port, 0x1f0);
    assert_eq!(controller.buses[0].dma_command.port, 0xc000);
    assert_eq!(controller.buses[1].data.port, 0x170);
    assert_eq!(controller.buses[1].altstatus.port, 0x376);
    assert_eq!(controller.buses[1].dma_command.port, 0xc008);
    // bus mastering is switched on at the end
    let n = p.log.len();
    assert_eq!(p.log[n - 4], PortOp::Out32(0xcf8, 0x8000_0904));
    assert_eq!(p.log[n - 1], PortOp::Out32(0xcfc, 0x4));
}

#[test]
fn serial_puts_writes_each_byte() {
    let mut s = SerialDriver::new();
    let mut p = ScriptedPorts::new(vec![]);
    s.puts(&mut p, b"ok\n");
    assert_eq!(
        p.log,
        vec![PortOp::Out8(0x3f8, b'o'), PortOp::Out8(0x3f8, b'k'), PortOp::Out8(0x3f8, b'\n')]
    );
}

#[test]
fn keyboard_events_are_queued_in_order() {
    let mut p = ScriptedPorts::new(vec![0x41, 0x1e, 0x9e]);
    let mut table = IrqTable::new();
    assert_eq!(kbd::init(&mut p, &mut table), Ok(()));
    assert_eq!(p.log, vec![PortOp::Out8(0x24, 0x20), PortOp::In8(0x60, 0x41)]);
    assert_eq!(top_handlers(&table, 42), Ok(vec![Handler::Keyboard]));
    let mut queue = VecDeque::new();
    assert_eq!(kbd::int_handler(&mut p, &mut queue), Ok(()));
    assert_eq!(kbd::int_handler(&mut p, &mut queue), Ok(()));
    push_event(&mut queue, InputEvent::Keyboard(1));
    assert_eq!(
        process_input_events(&mut queue),
        vec![InputEvent::Keyboard(0x1e), InputEvent::Keyboard(0x9e), InputEvent::Keyboard(1)]
    );
    assert!(queue.is_empty());
    assert_eq!(kbd::read_data(&mut p), 0xff);
    assert_eq!(kbd::read_conf_byte(&mut p), 0xff);
}

#[test]
fn interrupt_lines_keep_their_handlers_in_order() {
    let mut table = IrqTable::new();
    assert_eq!(top_handlers(&table, 50), Ok(vec![]));
    assert_eq!(request_irq_top(&mut table, 50, Handler::Timer), Ok(()));
    assert_eq!(request_irq_top(&mut table, 50, Handler::Schedule), Ok(()));
    assert_eq!(request_irq_top(&mut table, 255, Handler::Keyboard), Ok(()));
    assert_eq!(request_irq_top(&mut table, 256, Handler::Keyboard), Err(()));
    assert_eq!(top_handlers(&table, 50), Ok(vec![Handler::Timer, Handler::Schedule]));
    assert_eq!(top_handlers(&table, 255), Ok(vec![Handler::Keyboard]));
    assert_eq!(top_handlers(&table, 49), Ok(vec![]));
    assert_eq!(top_handlers(&table, 256), Err(()));
}

#[test]
fn timer_counts_ticks() {
    let mut t = Timer::new();
    assert_eq!(get_jiffies(&t), 0);
    assert_eq!(do_timer(&mut t), Ok(()));
    assert_eq!(do_timer(&mut t), Ok(()));
    assert_eq!(get_jiffies(&t), 2);
    t.jiffies = u64::MAX;
    let _ = do_timer(&mut t);
    assert_eq!(get_jiffies(&t), 0);
    let mut table = IrqTable::new();
    timer::init(&mut table);
    assert_eq!(top_handlers(&table, 50), Ok(vec![Handler::Timer]));
}

#[test]
fn vga_writes_wraps_and_scrolls() {
    let mut v = VGA::new();
    assert_eq!(v.cursor(), (0, 0));
    v.puts(b"hi\x07!\n");
    assert_eq!(v.cell(0, 0), VgaChar { c: b'h', col: 15 });
    assert_eq!(v.cell(0, 1), VgaChar { c: b'i', col: 15 });
    // the bell is dropped
    assert_eq!(v.cell(0, 2), VgaChar { c: b'!', col: 15 });
    assert_eq!(v.cell(0, 3), VgaChar { c: 0, col: 0 });
    assert_eq!(v.cursor(), (0, 1));
    // a full line wraps when the next character comes
    let line = [b'x'; WIDTH];
    v.puts(&line);
    assert_eq!(v.cursor(), (WIDTH, 1));
    v.puts(b"y");
    assert_eq!(v.cursor(), (1, 2));
    assert_eq!(v.cell(1, WIDTH - 1).c, b'x');
    assert_eq!(v.cell(2, 0).c, b'y');
    // a line feed on the last line scrolls
    for _ in 2..HEIGHT - 1 {
        v.new_line();
    }
    assert_eq!(v.cursor(), (0, HEIGHT - 1));
    v.puts(b"last\n");
    assert_eq!(v.cursor(), (0, HEIGHT - 1));
    assert_eq!(v.cell(0, 0).c, b'x');
    assert_eq!(v.cell(1, 0).c, b'y');
    assert_eq!(v.cell(HEIGHT - 2, 0).c, b'l');
    assert_eq!(v.cell(HEIGHT - 1, 0), VgaChar { c: 0, col: 0 });
    v.clear();
    assert_eq!(v.cursor(), (0, 0));
    assert_eq!(v.cell(0, 0), VgaChar { c: 0, col: 0 });
    assert_eq!(v.cell(HEIGHT - 2, 0), VgaChar { c: 0, col: 0 });
}

#[test]
fn pci_scan_of_an_empty_bus() {
    let mut p = ScriptedPorts::new(vec![]);
    let mut devices = Vec::new();
    assert_eq!(pci::enumerate_bus(&mut p, 0, &mut devices), Ok(()));
    assert!(devices.is_empty());
    // each of the 32 devices was asked once
    assert_eq!(p.log.len(), 64);
    assert_eq!(p.log[0], PortOp::Out32(0xcf8, 0x8000_0000));
    assert_eq!(p.log[2], PortOp::Out32(0xcf8, 0x8000_0800));
    assert_eq!(p.log[62], PortOp::Out32(0xcf8, 0x8000_f800));
}

#[test]
fn pci_scan_finds_functions() {
    // device 0: a single function; the device is asked, then its function 0, then the header
    let mut answers: Vec<u32> = vec![
        0x1237_8086,
        0x1237_8086,
        0x1237_8086,
        0x0000_0000,
        0x0600_0002,
        0x0000_0000,
    ];
    // device 1: function 0, an ISA bridge, says that there are several functions;
    // function 1, an IDE controller, does not, so the search of the device ends there
    answers.extend_from_slice(&[
        0x7000_8086,
        0x7000_8086,
        0x7000_8086,
        0x0200_0007,
        0x0601_0000,
        0x0080_0000,
        0x7010_8086,
        0x7010_8086,
        0x0280_0005,
        0x0101_8000,
        0x0000_0000,
    ]);
    let mut p = ScriptedPorts::new(answers);
    let mut devices = Vec::new();
    assert_eq!(pci::enumerate_bus(&mut p, 0, &mut devices), Ok(()));
    assert_eq!(devices.len(), 3);
    assert_eq!((devices[0].dev_num, devices[0].fn_num), (0, 0));
    assert_eq!(devices[0].kind, pci::PCIType::Unclassified);
    assert_eq!(devices[0].header.class, 0x0600);
    assert_eq!((devices[1].dev_num, devices[1].fn_num), (1, 0));
    assert_eq!((devices[2].dev_num, devices[2].fn_num), (1, 1));
    assert_eq!(devices[2].kind, pci::PCIType::IDE);
    assert_eq!(devices[2].address, 0x8000_0900);
    assert_eq!(devices[2].header.progif, 0x80);
    // device 0: 2 + 2 + 8, device 1: 2 + 2 * 10, devices 2 to 31: 2 each
    assert_eq!(p.log.len(), 12 + 22 + 60);
    // the functions behind function 0 of device 0 were not asked
    assert_eq!(p.log[12], PortOp::Out32(0xcf8, 0x8000_0800));
}

#[test]
fn pci_scan_stops_at_a_bridge() {
    let mut p = ScriptedPorts::new(vec![
        0x1237_8086,
        0x1237_8086,
        0x1237_8086,
        0,
        0x0604_0000,
        0x0001_0000,
    ]);
    let mut devices = Vec::new();
    assert_eq!(pci::enumerate_bus(&mut p, 0, &mut devices), Err(Error::NotImplemented));
    assert!(devices.is_empty());
    assert_eq!(p.log.len(), 12);
}

#[test]
fn pci_scan_of_all_buses() {
    let mut p = ScriptedPorts::new(vec![]);
    assert_eq!(pci::collect_devices(&mut p), Ok(vec![]));
    assert_eq!(p.log.len(), 2 * 32 * 256);
    assert_eq!(p.log[2 * 32 * 256 - 2], PortOp::Out32(0xcf8, 0x80ff_f800));
}

/// Ports of a machine on which every read gives the number of the port.
struct Echo {
    writes: usize,
}

impl kernel::arch::x86::io::RawPorts for Echo {
    fn outb(&mut self, _port: u16, _byte: u8) {
        self.writes += 1;
    }

    fn inb(&mut self, port: u16) -> u8 {
        port as u8
    }

    fn outw(&mut self, _port: u16, _word: u16) {
        self.writes += 1;
    }

    fn inw(&mut self, port: u16) -> u16 {
        port
    }

    fn outl(&mut self, _port: u16, _long: u32) {
        self.writes += 1;
    }

    fn inl(&mut self, port: u16) -> u32 {
        port as u32
    }

    fn wait(&mut self) {}
}

#[test]
fn drivers_work_on_the_ports_of_a_machine() {
    let mut p = kernel::arch::x86::io::Traced::new(Echo { writes: 0 });
    pic::setup(&mut p);
    assert_eq!(p.ports.writes, 10);
    assert_eq!(kbd::read_data(&mut p), 0x60);
    assert_eq!(pci::read_reg(&mut p, 0x8000_0000, 0), 0xcfc);
    assert!(pci::device_exist(&mut p, 0, 0, 0));
    assert_eq!(p.ports.writes, 12);
}

#[test]
fn pci_survey_reads_the_configuration_of_each_function() {
    // device 0 on bus 0: asked, function 0 asked, configuration read, one function only
    let mut answers: Vec<u32> = vec![0x7010_8086, 0x7010_8086];
    let mut config = ide_config_answers(0x0280_0005);
    // header type: a plain device with a single function
    config[7] = 0x0000_4010;
    config[8] = 0x0000_4010;
    config[9] = 0x0000_4010;
    answers.extend(config);
    let mut p = ScriptedPorts::new(answers);
    let mut devices = Vec::new();
    assert_eq!(id::enumerate(&mut p, &mut devices), Ok(()));
    assert_eq!(devices.len(), 1);
    let d = &devices[0];
    assert_eq!((d.bus_num, d.dev_num, d.fn_num), (0, 0, 0));
    assert_eq!(d.kind, PCIType::IDE);
    assert_eq!(d.config.base, 0x8000_0000);
    assert_eq!(d.config.vendor, 0x8086);
    assert_eq!(d.config.progif, 0x80);
    assert_eq!(p.log.len(), 2 + 2 + 36 + 2 * (256 * 32 - 1));
    let mut q = ScriptedPorts::new(vec![]);
    assert_eq!(kernel::driver::pci::init(&mut q), Ok(vec![]));
    assert_eq!(q.log.len(), 2 * 256 * 32);
}

#[test]
fn pci_functions_of_one_device() {
    // function 0 says that there are several, and no other function is there
    let mut answers: Vec<u32> = vec![0x7010_8086];
    answers.extend(ide_config_answers(0));
    let mut p = ScriptedPorts::new(answers);
    let mut devices = Vec::new();
    assert_eq!(id::enumerate_functions(&mut p, 2, 3, &mut devices), Ok(()));
    assert_eq!(devices.len(), 1);
    assert_eq!((devices[0].bus_num, devices[0].dev_num, devices[0].fn_num), (2, 3, 0));
    assert_eq!(devices[0].config.base, 0x8002_1800);
    assert_eq!(p.log.len(), 2 + 36 + 2 * 7);
    assert_eq!(p.log[38], PortOp::Out32(0xcf8, 0x8002_1900));
    assert_eq!(p.log[50], PortOp::Out32(0xcf8, 0x8002_1f00));
    // a bridge stops the search
    let mut answers: Vec<u32> = vec![0x7010_8086];
    let mut config = ide_config_answers(0);
    config[9] = 0x0001_0000;
    answers.extend(config);
    let mut q = ScriptedPorts::new(answers);
    assert_eq!(id::enumerate_functions(&mut q, 0, 0, &mut devices), Err(Error::NotImplemented));
    assert_eq!(devices.len(), 1);
}

#[test]
fn first_capability_is_looked_at() {
    let c = PCIEndpointConfig::from_io_space(
        &mut ScriptedPorts::new(ide_config_answers(0x0020_0000)),
        0x8000_0900,
    );
    let mut p = ScriptedPorts::new(vec![0x0000_6005]);
    assert_eq!(c.setup_msi(&mut p), Some((0x50, 5)));
    assert_eq!(p.log, vec![PortOp::Out32(0xcf8, 0x50), PortOp::In32(0xcfc, 0x6005)]);
}

#[test]
fn dma_read_protocol() {
    let mut bus = Bus::new(0x1f0, 0x3f6, 0xc000);
    let mut p = ScriptedPorts::new(vec![]);
    assert_eq!(bus.read_dma(&mut p, 0x1000_0000, 0), Err(()));
    assert!(p.log.is_empty());
    // command reads, drive select read, status idle, DMA status: active, then done
    let mut p = ScriptedPorts::new(vec![0x01, 0x00, 0xe0, 0x08, 0x50, 0x04, 0x05, 0x04]);
    assert_eq!(bus.read_dma(&mut p, 0x0123_4567, 0xaabb_ccdd), Ok(()));
    assert_eq!(
        p.log,
        vec![
            PortOp::In8(0xc000, 0x01),
            PortOp::Out8(0xc000, 0x00),
            PortOp::Out8(0xc004, 0xdd),
            PortOp::Out8(0xc005, 0xcc),
            PortOp::Out8(0xc006, 0xbb),
            PortOp::Out8(0xc007, 0xaa),
            PortOp::In8(0xc000, 0x00),
            PortOp::Out8(0xc000, 0x08),
            PortOp::Out8(0xc002, 0x06),
            PortOp::Out8(0x1f3, 0x67),
            PortOp::Out8(0x1f4, 0x45),
            PortOp::Out8(0x1f5, 0x23),
            PortOp::In8(0x1f6, 0xe0),
            PortOp::Out8(0x1f6, 0xe1),
            PortOp::Out8(0x1f2, 1),
            PortOp::Out8(0x1f7, 0xc8),
            PortOp::In8(0xc000, 0x08),
            PortOp::Out8(0xc000, 0x09),
            PortOp::In8(0x1f7, 0x50),
            PortOp::In8(0xc002, 0x04),
            PortOp::In8(0xc002, 0x05),
            PortOp::In8(0xc002, 0x04),
        ]
    );
    // the engine reports an error
    let mut q = ScriptedPorts::new(vec![0, 0, 0xe0, 0, 0x50, 0, 0x03]);
    assert_eq!(bus.read_dma(&mut q, 1, 0), Err(()));
    // the drive stays busy
    let mut r = ScriptedPorts::new(vec![]);
    assert_eq!(bus.read_dma(&mut r, 1, 0), Err(()));
    assert_eq!(r.log.len(), 18 + SPIN_LIMIT + 1);
    let mut t = ScriptedPorts::new(vec![]);
    bus.set_table(&mut t, 0x0102_0304);
    assert_eq!(t.log[0], PortOp::Out8(0xc004, 4));
    assert_eq!(t.log[3], PortOp::Out8(0xc007, 1));
}

#[test]
fn statuses_that_end_a_wait() {
    assert!(Wanted::Idle.seen_in(0x7f));
    assert!(!Wanted::Idle.seen_in(0x80));
    assert!(Wanted::Settled.seen_in(0x08));
    assert!(Wanted::Settled.seen_in(0x81));
    assert!(!Wanted::Settled.seen_in(0x88));
    assert!(!Wanted::Settled.seen_in(0x00));
    assert!(Wanted::Transferred.seen_in(0x00));
    assert!(Wanted::Transferred.seen_in(0x03));
    assert!(!Wanted::Transferred.seen_in(0x01));
}
