use kcore::uhci::{
    bind_buffers, chain_tds, control_transfer, data_stage_buffer, generate_td, get_link_pointer,
    set_link_pointer, InvalidPacketErr, LinkPointer, Pid, PortResetState, QueueHead,
    RegisterWrite, TimedWrite, TransferDescriptor, TransferDescriptorStorage, Uhci, UsbCmdReg,
    UsbDeviceDescriptor, UsbPoll, UsbPortStatus,
};

#[test]
fn test_td_link_pointer_td() {
    let val = LinkPointer::TD(0xdeadbe00);
    let mut td = TransferDescriptor([0; 8]);
    td.set_link_pointer(&val);
    assert_eq!(td.0[0], 0xdeadbe00u32);
    assert_eq!(td.link_pointer(), val);
}

#[test]
fn test_td_link_pointer_qh() {
    let val = LinkPointer::QH(0xdeadbe00);
    let mut td = TransferDescriptor([0; 8]);
    td.set_link_pointer(&val);
    assert_eq!(td.0[0], 0xdeadbe02u32);
    assert_eq!(td.link_pointer(), val);
}

#[test]
fn test_td_link_pointer_none() {
    let val = LinkPointer::Terminate;
    let mut td = TransferDescriptor([0; 8]);
    td.set_link_pointer(&val);
    assert_eq!(td.0[0], 0x1u32);
    assert_eq!(td.link_pointer(), val);
}

#[test]
fn link_pointer_keeps_reserved_bits() {
    let mut w: u32 = 0x0000_000c;
    set_link_pointer(&mut w, &LinkPointer::TD(0x1230));
    assert_eq!(w, 0x123c);
    assert_eq!(get_link_pointer(w), LinkPointer::TD(0x1230));
    set_link_pointer(&mut w, &LinkPointer::Terminate);
    assert_eq!(w, 0x123d);
    assert_eq!(get_link_pointer(w), LinkPointer::Terminate);
}

#[test]
fn test_td_spd() {
    let mut td = TransferDescriptor([0; 8]);
    td.set_spd(true);
    assert_eq!(td.0[1], 1 << 29);
    assert!(td.spd());
}

#[test]
fn test_td_err_counter() {
    let mut td = TransferDescriptor([0; 8]);
    td.set_err_counter(3);
    assert_eq!(td.0[1], 3 << 27);
    assert_eq!(td.err_counter(), 3);
    for v in 0..=3u8 {
        td.set_err_counter(v);
        assert_eq!(td.err_counter(), v);
    }
}

#[test]
fn test_td_low_speed() {
    let mut td = TransferDescriptor([0; 8]);
    td.set_low_speed(true);
    assert_eq!(td.0[1], 1 << 26);
    assert!(td.low_speed());
}

#[test]
fn test_td_isochronus_select() {
    let mut td = TransferDescriptor([0; 8]);
    td.set_isochronus_select(true);
    assert_eq!(td.0[1], 1 << 25);
    assert!(td.isochronus_select());
}

#[test]
fn test_td_interrupt_on_complete() {
    let mut td = TransferDescriptor([0; 8]);
    td.set_interrupt_on_complete(true);
    assert_eq!(td.0[1], 1 << 24);
    assert!(td.interrupt_on_complete());
}

#[test]
fn test_td_status() {
    let mut td = TransferDescriptor([0; 8]);
    td.set_status(0xef);
    assert_eq!(td.0[1], 0xef << 16);
    assert_eq!(td.status(), 0xef);
    assert!(td.active());
    td.set_status(0x7f);
    assert!(!td.active());
}

#[test]
fn test_td_actlen() {
    let mut td = TransferDescriptor([0; 8]);
    td.set_actlen(0x5ff);
    assert_eq!(td.0[1], 0x5ff);
    assert_eq!(td.actlen(), 0x5ff);
    td.set_actlen(0x7ff);
    assert_eq!(td.actlen(), 0x7ff);
}

#[test]
fn test_td_maxlen() {
    let test_vals = [(1280u16, 0x4ffu32), (0, 0x7ff), (1, 0x00), (300, 299)];
    let mut td = TransferDescriptor([0; 8]);
    for (val, in_mem) in test_vals {
        td.set_maxlen(val);
        assert_eq!(val, td.maxlen());
        assert_eq!((td.0[2] >> 21) & 0x7ff, in_mem);
    }
}

#[test]
fn test_td_data_toggle() {
    let mut td = TransferDescriptor([0; 8]);
    td.set_data_toggle(true);
    assert!(td.data_toggle());
    assert_eq!(td.0[2], 1 << 19);
    td.set_data_toggle(false);
    assert!(!td.data_toggle());
}

#[test]
fn test_td_endpoint() {
    let mut td = TransferDescriptor([0; 8]);
    td.set_endpoint(0xd);
    assert_eq!(td.endpoint(), 0xd);
    assert_eq!(td.0[2], 0xd << 15);
}

#[test]
fn test_td_address() {
    let mut td = TransferDescriptor([0; 8]);
    td.set_address(0x6d);
    assert_eq!(td.address(), 0x6d);
    assert_eq!(td.0[2], 0x6d << 8);
}

#[test]
fn test_td_pid() {
    let mut td = TransferDescriptor([0; 8]);
    td.set_pid(0xfd);
    assert_eq!(td.pid(), 0xfd);
}

#[test]
fn test_td_data() {
    let mut td = TransferDescriptor([0; 8]);
    td.set_data(0xdeadbeef);
    assert_eq!(td.data(), 0xdeadbeef);
}

#[test]
fn fields_do_not_disturb_each_other() {
    let mut td = TransferDescriptor([0; 8]);
    td.set_status(0x80);
    td.set_actlen(0x7ff);
    td.set_err_counter(2);
    td.set_spd(true);
    assert_eq!(td.status(), 0x80);
    assert_eq!(td.actlen(), 0x7ff);
    assert_eq!(td.err_counter(), 2);
    assert!(td.spd());
    assert!(!td.low_speed());
    td.set_maxlen(64);
    td.set_address(0x7e);
    td.set_endpoint(15);
    td.set_pid(0x69);
    td.set_data_toggle(true);
    assert_eq!(td.maxlen(), 64);
    assert_eq!(td.address(), 0x7e);
    assert_eq!(td.endpoint(), 15);
    assert_eq!(td.pid(), 0x69);
    assert!(td.data_toggle());
}

#[test]
fn test_td_full_descriptor() {
    let mut descriptor = [0u32; 8];
    descriptor[0] = 0xdeadbeef & !0xF;
    descriptor[1] = (1 << 26) | (3 << 27) | (0x80 << 16);
    descriptor[2] = (7 << 21) | ((0x23 & 0x7F) << 8) | 0x2D;
    descriptor[3] = 4096;
    let td = TransferDescriptor(descriptor);
    assert_eq!(td.link_pointer(), LinkPointer::TD(0xdeadbee0));
    assert_eq!(td.maxlen(), 8);
    assert!(!td.data_toggle());
    assert!(!td.spd());
    assert_eq!(td.err_counter(), 3);
    assert!(td.low_speed());
    assert!(!td.isochronus_select());
    assert!(!td.interrupt_on_complete());
    assert_eq!(td.status(), 0x80);
    assert_eq!(td.actlen(), 0);
    assert_eq!(td.endpoint(), 0);
    assert_eq!(td.address(), 0x23);
    assert_eq!(td.pid(), 0x2d);
    assert_eq!(td.data(), 4096);
}

#[test]
fn test_queue_head_link_pointer_td() {
    let val = LinkPointer::TD(0xdeadbe00);
    let mut qh = QueueHead([0; 2]);
    qh.set_head_link(&val);
    assert_eq!(qh.0[0], 0xdeadbe00u32);
    assert_eq!(qh.head_link(), val);
}

#[test]
fn test_queue_head_link_pointer_qh() {
    let val = LinkPointer::QH(0xdeadbe00);
    let mut qh = QueueHead([0; 2]);
    qh.set_head_link(&val);
    assert_eq!(qh.0[0], 0xdeadbe02u32);
    assert_eq!(qh.head_link(), val);
}

#[test]
fn test_queue_head_link_pointer_none() {
    let mut qh = QueueHead([0; 2]);
    qh.set_head_link(&LinkPointer::Terminate);
    assert_eq!(qh.0[0], 0x1u32);
    assert_eq!(qh.head_link(), LinkPointer::Terminate);
}

#[test]
fn test_queue_element_link_pointer_td() {
    let val = LinkPointer::TD(0xdeadbe00);
    let mut qh = QueueHead([0; 2]);
    qh.set_element_link(&val);
    assert_eq!(qh.0[1], 0xdeadbe00u32);
    assert_eq!(qh.element_link(), val);
}

#[test]
fn test_queue_element_link_pointer_qh() {
    let val = LinkPointer::QH(0xdeadbe00);
    let mut qh = QueueHead([0; 2]);
    qh.set_element_link(&val);
    assert_eq!(qh.0[1], 0xdeadbe02u32);
    assert_eq!(qh.element_link(), val);
}

#[test]
fn test_queue_element_link_pointer_none() {
    let mut qh = QueueHead([0; 2]);
    qh.set_element_link(&LinkPointer::Terminate);
    assert_eq!(qh.0[1], 0x1u32);
    assert_eq!(qh.element_link(), LinkPointer::Terminate);
}

#[test]
fn usb_cmd_register_values() {
    let none = UsbCmdReg {
        max_packet: false,
        configure: false,
        software_debug: false,
        global_resume: false,
        global_suspend: false,
        global_reset: false,
        host_controller_reset: false,
        run: false,
    };
    assert_eq!(none.to_u16(), 0);
    assert_eq!(UsbCmdReg { global_reset: true, ..none }.to_u16(), 0x04);
    assert_eq!(UsbCmdReg { max_packet: true, configure: true, run: true, ..none }.to_u16(), 0xc1);
    let all = UsbCmdReg {
        max_packet: true,
        configure: true,
        software_debug: true,
        global_resume: true,
        global_suspend: true,
        global_reset: true,
        host_controller_reset: true,
        run: true,
    };
    assert_eq!(all.to_u16(), 0xff);
}

#[test]
fn port_status_bits() {
    let mut p = UsbPortStatus(0);
    p.set_reset(true);
    assert_eq!(p.0, 1 << 9);
    assert!(p.reset());
    p.set_connected(true);
    p.set_port_enabled(true);
    assert_eq!(p.0, (1 << 9) | 0b101);
    assert!(p.connected() && p.port_enabled());
    p.set_line_status(3);
    assert_eq!(p.line_status(), 3);
    assert_eq!(p.0 & 0x30, 0x30);
    p.set_suspend(true);
    assert!(p.suspend());
    p.set_reset(false);
    assert!(!p.reset());
}

#[test]
fn device_descriptor_fields() {
    let bytes = [
        18u8, 1, 0x10, 0x01, 0, 0, 0, 8, 0x27, 0x06, 0x01, 0x00, 0x00, 0x01, 1, 2, 3, 1,
    ];
    let d = UsbDeviceDescriptor(&bytes);
    assert_eq!(d.length(), 18);
    assert_eq!(d.descriptor_type(), 1);
    assert_eq!(d.bcd_usb_version(), 0x0110);
    assert_eq!(d.max_packet_size_endpoint_zero(), 8);
    assert_eq!(d.vendor_id(), 0x0627);
    assert_eq!(d.product_id(), 0x0001);
    assert_eq!(d.device_version(), 0x0100);
    assert_eq!(d.manufacturer_string_id(), 1);
    assert_eq!(d.product_string_id(), 2);
    assert_eq!(d.serial_number_id(), 3);
    assert_eq!(d.num_configurations(), 1);
}

#[test]
fn generate_td_fields_and_limit() {
    let td = generate_td(0x23, 2, Pid::Setup, vec![0; 8]).unwrap();
    let d = td.descriptor;
    assert_eq!(d.link_pointer(), LinkPointer::Terminate);
    assert!(d.low_speed());
    assert_eq!(d.status(), 0x80);
    assert_eq!(d.maxlen(), 8);
    assert_eq!(d.address(), 0x23);
    assert_eq!(d.endpoint(), 2);
    assert_eq!(d.pid(), 0x2d);
    assert_eq!(d.0[1], (1 << 26) | (0x80 << 16));
    assert_eq!(d.0[2], (7 << 21) | (2 << 15) | (0x23 << 8) | 0x2d);
    assert_eq!(generate_td(0, 0, Pid::In, vec![]).unwrap().descriptor.maxlen(), 0);
    assert_eq!(generate_td(0, 0, Pid::Out, vec![]).unwrap().descriptor.pid(), 0xe1);
    assert!(generate_td(0, 0, Pid::In, vec![0; 1024]).is_ok());
    assert_eq!(generate_td(0, 0, Pid::In, vec![0; 1025]).err(), Some(InvalidPacketErr));
}

fn storage(len: usize) -> Box<TransferDescriptorStorage> {
    generate_td(1, 0, Pid::In, vec![0; len]).unwrap()
}

#[test]
fn chain_links_in_order() {
    let mut tds = vec![storage(1), storage(2), storage(3)];
    chain_tds(&mut tds, &[0x1000, 0x2000, 0x3000]);
    assert_eq!(tds[0].descriptor.link_pointer(), LinkPointer::TD(0x2000));
    assert_eq!(tds[1].descriptor.link_pointer(), LinkPointer::TD(0x3000));
    assert_eq!(tds[2].descriptor.link_pointer(), LinkPointer::Terminate);
    assert_eq!(tds[1].buf.len(), 2);
}

#[test]
fn controller_setup_and_registers() {
    let uhci = Uhci::new(0x10_0000, 0x20_0010);
    assert_eq!(uhci.frame_list().len(), 1024);
    assert!(uhci.frame_list().iter().all(|w| *w == 0x20_0012));
    let qh = uhci.master_queue_head();
    assert_eq!(qh.head_link(), LinkPointer::Terminate);
    assert_eq!(qh.element_link(), LinkPointer::Terminate);
    assert_eq!(uhci.set_frame_list_offset(), RegisterWrite::Dword { offset: 0x08, dword: 0x10_0000 });
    assert_eq!(uhci.set_frame_number(0), RegisterWrite::Word { offset: 0x06, value: 0 });
    assert_eq!(uhci.clear_usb_status(), RegisterWrite::Word { offset: 0x02, value: 0x1f });
    assert_eq!(uhci.enable_uhci_card(), RegisterWrite::Word { offset: 0x00, value: 0xc1 });
    assert_eq!(
        uhci.start(),
        vec![
            RegisterWrite::Word { offset: 0x06, value: 0 },
            RegisterWrite::Dword { offset: 0x08, dword: 0x10_0000 },
            RegisterWrite::Word { offset: 0x02, value: 0x1f },
            RegisterWrite::Word { offset: 0x00, value: 0xc1 },
        ]
    );
    assert_eq!(uhci.last_id(), 0);
    assert_eq!(uhci.master_queue_address(), 0x20_0010);
    assert_eq!(
        uhci.reset(),
        vec![
            TimedWrite { write: RegisterWrite::Word { offset: 0, value: 4 }, sleep_ms: 10 },
            TimedWrite { write: RegisterWrite::Word { offset: 0, value: 0 }, sleep_ms: 60 },
            TimedWrite { write: RegisterWrite::Word { offset: 0, value: 2 }, sleep_ms: 10 },
        ]
    );
}

fn clear_active(uhci: &mut Uhci, id: u64, td: &TransferDescriptor) {
    let mut words = td.0;
    words[1] &= !(1 << 23);
    assert!(uhci.sync_descriptor(id, words));
}

#[test]
fn uhci_completion() {
    let mut uhci = Uhci::new(0x10_0000, 0x20_0000);
    let work = vec![storage(8), storage(18), storage(0)];
    let snapshot: Vec<TransferDescriptor> = {
        let mut w = vec![storage(8), storage(18), storage(0)];
        chain_tds(&mut w, &[0x3000, 0x3020, 0x3040]);
        w.iter().map(|t| t.descriptor).collect()
    };
    let fut = uhci.append_work(work, &[0x3000, 0x3020, 0x3040]);
    assert_eq!(fut.first_id, 0);
    assert_eq!(fut.count, 3);
    assert_eq!(uhci.master_queue_head().element_link(), LinkPointer::TD(0x3000));

    match fut.poll(&mut uhci, 0, 1000) {
        UsbPoll::Pending { wake_at } => assert_eq!(wake_at, 100),
        UsbPoll::Ready(_) => panic!("descriptors are still active"),
    }

    for (i, td) in snapshot.iter().enumerate() {
        clear_active(&mut uhci, i as u64, td);
    }
    assert!(!uhci.sync_descriptor(7, [0; 8]));

    match fut.poll(&mut uhci, 100, 1000) {
        UsbPoll::Ready(done) => {
            assert_eq!(done.len(), 3);
            assert_eq!(done[0].buf.len(), 8);
            assert_eq!(done[1].buf.len(), 18);
            assert_eq!(done[2].buf.len(), 0);
            assert_eq!(done[0].descriptor.link_pointer(), LinkPointer::TD(0x3020));
            assert_eq!(done[1].descriptor.link_pointer(), LinkPointer::TD(0x3040));
            assert_eq!(done[2].descriptor.link_pointer(), LinkPointer::Terminate);
            assert!(done.iter().all(|t| !t.descriptor.active()));
        }
        UsbPoll::Pending { .. } => panic!("descriptors are complete"),
    }
}

#[test]
fn append_behind_active_work_links_last_descriptor() {
    let mut uhci = Uhci::new(0, 0x100);
    let first = uhci.append_work(vec![storage(1)], &[0x1000]);
    assert_eq!(first.first_id, 0);
    let second = uhci.append_work(vec![storage(2), storage(3)], &[0x2000, 0x2020]);
    assert_eq!(second.first_id, 1);
    assert_eq!(second.count, 2);
    assert_eq!(uhci.master_queue_head().element_link(), LinkPointer::TD(0x1000));

    let mut words = [0u32; 8];
    words[0] = 0x2000;
    words[1] = 0;
    assert!(uhci.sync_descriptor(0, words));
    let third = uhci.append_work(vec![storage(4)], &[0x4000]);
    assert_eq!(third.first_id, 3);
    assert_eq!(uhci.last_id(), 4);
    assert_eq!(uhci.master_queue_head().element_link(), LinkPointer::TD(0x1000));

    match first.poll(&mut uhci, 5, 1000) {
        UsbPoll::Ready(done) => assert_eq!(done.len(), 1),
        UsbPoll::Pending { .. } => panic!("first run is complete"),
    }
    match second.poll(&mut uhci, 5, 1000) {
        UsbPoll::Pending { wake_at } => assert_eq!(wake_at, 105),
        UsbPoll::Ready(_) => panic!("second run is active"),
    }
}

#[test]
fn append_after_drained_queue_moves_element_link() {
    let mut uhci = Uhci::new(0, 0x100);
    uhci.append_work(vec![storage(1)], &[0x1000]);
    let mut words = [0u32; 8];
    words[0] = 1;
    assert!(uhci.sync_descriptor(0, words));
    uhci.append_work(vec![storage(1)], &[0x5000]);
    assert_eq!(uhci.master_queue_head().element_link(), LinkPointer::TD(0x5000));
}

#[test]
fn control_transfer_shapes() {
    let w = Uhci::get_descriptor(1);
    assert_eq!(w.len(), 3);
    assert_eq!(w[0].buf, vec![0x80, 0x06, 0x00, 0x01, 0x00, 0x00, 0x12, 0x00]);
    assert_eq!(w[0].descriptor.pid(), 0x2d);
    assert!(!w[0].descriptor.data_toggle());
    assert_eq!(w[1].descriptor.pid(), 0x69);
    assert_eq!(w[1].buf.len(), 18);
    assert_eq!(w[1].descriptor.maxlen(), 18);
    assert_eq!(w[2].descriptor.pid(), 0xe1);
    assert!(w[2].descriptor.data_toggle());
    assert_eq!(w[2].descriptor.maxlen(), 0);
    assert_eq!(w[2].descriptor.address(), 1);

    let w = Uhci::set_address(5);
    assert_eq!(w.len(), 2);
    assert_eq!(w[0].buf, vec![0x00, 0x05, 5, 0x00, 0x00, 0x00, 0x00, 0x00]);
    assert_eq!(w[0].descriptor.address(), 0);
    assert_eq!(w[1].descriptor.pid(), 0x69);
    assert!(w[1].descriptor.data_toggle());

    let w = Uhci::set_configuration(1, 1);
    assert_eq!(w[0].buf, vec![0x00, 0x09, 1, 0x00, 0x00, 0x00, 0x00, 0x00]);
    assert_eq!(w.len(), 2);

    let w = Uhci::get_configuration(1);
    assert_eq!(w[1].buf.len(), 128);

    let w = Uhci::hid_report(1);
    assert_eq!(w[0].buf, vec![0xa1, 0x01, 0x00, 0x00, 0x00, 0x00, 0x08, 0x00]);
    assert_eq!(w[1].buf.len(), 8);

    let w = control_transfer(3, [1, 2, 3, 4, 5, 6, 7, 8], Some((Pid::Out, 4)));
    assert_eq!(w[1].descriptor.pid(), 0xe1);
    assert_eq!(w[2].descriptor.pid(), 0x69);
    assert_eq!(data_stage_buffer(w), vec![0, 0, 0, 0]);
}

#[test]
fn port_reset_sequence() {
    let s = Uhci::reset_port(PortResetState::Start, 0x0003);
    assert_eq!(s.next, PortResetState::ReleaseReset);
    assert_eq!(s.writes, vec![0x0203]);
    assert_eq!(s.sleep_ms, 50);

    let s = Uhci::reset_port(PortResetState::ReleaseReset, 0x034f);
    assert_eq!(s.next, PortResetState::Enable);
    assert_eq!(s.writes, vec![0x0001]);
    assert_eq!(s.sleep_ms, 5);

    let s = Uhci::reset_port(PortResetState::Enable, 0x0001);
    assert_eq!(s.next, PortResetState::Check);
    assert_eq!(s.writes, vec![0x0003, 0x0007]);
    assert_eq!(s.sleep_ms, 5);

    let s = Uhci::reset_port(PortResetState::Check, 0x0005);
    assert_eq!(s.next, PortResetState::Done(true));
    assert!(s.writes.is_empty());
    let s = Uhci::reset_port(PortResetState::Check, 0x0004);
    assert_eq!(s.next, PortResetState::Done(false));
    let s = Uhci::reset_port(PortResetState::Done(true), 0);
    assert_eq!(s.next, PortResetState::Done(true));
}

#[test]
fn buffers_are_bound_to_descriptors() {
    let mut tds = vec![storage(1), storage(2)];
    let before = tds[0].descriptor.0;
    bind_buffers(&mut tds, &[0x8000, 0x9000]);
    assert_eq!(tds[0].descriptor.data(), 0x8000);
    assert_eq!(tds[1].descriptor.data(), 0x9000);
    assert_eq!(tds[0].descriptor.0[..3], before[..3]);
    assert_eq!(tds[1].buf.len(), 2);
}
