//! UHCI host controller: the words of frame list, queue heads and transfer
//! descriptors as the controller reads them, and the queueing of transfers.
use vstd::prelude::*;
use crate::bits::{
    bit16, bit32, bits16, bits32, get_bits16, get_bits32, lemma_bits16_same, lemma_bits32_other,
    lemma_bits32_same, lemma_bits32_zero, lemma_mask16_values, lemma_mask32_values, set_bits16,
    set_bits32, with_bit16, with_bit32, with_bits16, with_bits32,
};

verus! {

/// Where a link word points: a transfer descriptor, a queue head, or nowhere.
/// Addresses are physical and 16-byte aligned.
#[derive(Debug, PartialEq, Eq, Clone, Copy, Structural)]
pub enum LinkPointer {
    TD(u32),
    QH(u32),
    Terminate,
}

pub open spec fn link_aligned(l: LinkPointer) -> bool {
    match l {
        LinkPointer::TD(a) => a % 16 == 0,
        LinkPointer::QH(a) => a % 16 == 0,
        LinkPointer::Terminate => true,
    }
}

/// `w` after writing `l` into it: terminate sets bit 0 and keeps the rest; a
/// pointer clears bit 0, sets bit 1 for a queue head, and puts `address >> 4`
/// in bits 4 to 31, keeping the reserved bits 2 and 3.
pub open spec fn link_word(w: u32, l: LinkPointer) -> u32 {
    match l {
        LinkPointer::Terminate => with_bit32(w, 0, true),
        LinkPointer::TD(a) => with_bits32(with_bit32(with_bit32(w, 0, false), 1, false), 4, 28, a >> 4),
        LinkPointer::QH(a) => with_bits32(with_bit32(with_bit32(w, 0, false), 1, true), 4, 28, a >> 4),
    }
}

/// The pointer that link word `w` holds.
pub open spec fn link_of(w: u32) -> LinkPointer {
    if bit32(w, 0) {
        LinkPointer::Terminate
    } else if bit32(w, 1) {
        LinkPointer::QH(w & 0xffff_fff0u32)
    } else {
        LinkPointer::TD(w & 0xffff_fff0u32)
    }
}

/// A link read back after it was written is the link written.
pub proof fn lemma_link_round_trip(w: u32, l: LinkPointer)
    requires
        link_aligned(l),
    ensures
        link_of(link_word(w, l)) == l,
{
    match l {
        LinkPointer::Terminate => {
            lemma_mask32_values();
            lemma_bits32_same(w, 0, 1, 1);
        },
        LinkPointer::TD(a) => {
            let r = link_word(w, l);
            assert(!bit32(r, 0) && !bit32(r, 1) && r & 0xffff_fff0u32 == a) by (bit_vector)
                requires
                    a % 16 == 0,
                    r == with_bits32(with_bit32(with_bit32(w, 0, false), 1, false), 4, 28, a >> 4),
            ;
        },
        LinkPointer::QH(a) => {
            let r = link_word(w, l);
            assert(!bit32(r, 0) && bit32(r, 1) && r & 0xffff_fff0u32 == a) by (bit_vector)
                requires
                    a % 16 == 0,
                    r == with_bits32(with_bit32(with_bit32(w, 0, false), 1, true), 4, 28, a >> 4),
            ;
        },
    }
}

/// Writes `val` into the link word `dest`, keeping the bits that the link does not own.
pub fn set_link_pointer(dest: &mut u32, val: &LinkPointer)
    requires
        link_aligned(*val),
    ensures
        *final(dest) == link_word(*old(dest), *val),
        link_of(*final(dest)) == *val,
{
    proof {
        lemma_link_round_trip(*old(dest), *val);
    }
    let source = *dest;
    match *val {
        LinkPointer::Terminate => {
            *dest = set_bits32(source, 0, 1, 1);
        },
        LinkPointer::TD(a) => {
            let s = set_bits32(set_bits32(source, 0, 1, 0), 1, 1, 0);
            *dest = set_bits32(s, 4, 28, a >> 4);
        },
        LinkPointer::QH(a) => {
            let s = set_bits32(set_bits32(source, 0, 1, 0), 1, 1, 1);
            *dest = set_bits32(s, 4, 28, a >> 4);
        },
    }
}

/// Decodes a link word.
pub fn get_link_pointer(source: u32) -> (r: LinkPointer)
    ensures
        r == link_of(source),
{
    if get_bits32(source, 0, 1) == 1 {
        return LinkPointer::Terminate;
    }
    let ptr = source & 0xffff_fff0;
    if get_bits32(source, 1, 1) == 1 {
        LinkPointer::QH(ptr)
    } else {
        LinkPointer::TD(ptr)
    }
}

/// A queue head: word 0 links to the next queue head, word 1 to its first element.
#[derive(Debug, Clone, Copy)]
pub struct QueueHead(pub [u32; 2]);

impl QueueHead {
    pub fn set_head_link(&mut self, val: &LinkPointer)
        requires
            link_aligned(*val),
        ensures
            final(self).0@ == old(self).0@.update(0, link_word(old(self).0@[0], *val)),
            link_of(final(self).0@[0]) == *val,
    {
        let mut w = self.0[0];
        set_link_pointer(&mut w, val);
        self.0[0] = w;
    }

    pub fn head_link(&self) -> (r: LinkPointer)
        ensures
            r == link_of(self.0@[0]),
    {
        get_link_pointer(self.0[0])
    }

    pub fn set_element_link(&mut self, val: &LinkPointer)
        requires
            link_aligned(*val),
        ensures
            final(self).0@ == old(self).0@.update(1, link_word(old(self).0@[1], *val)),
            link_of(final(self).0@[1]) == *val,
    {
        let mut w = self.0[1];
        set_link_pointer(&mut w, val);
        self.0[1] = w;
    }

    pub fn element_link(&self) -> (r: LinkPointer)
        ensures
            r == link_of(self.0@[1]),
    {
        get_link_pointer(self.0[1])
    }
}

/// A transfer descriptor: eight 32-bit words, of which the controller reads four.
#[derive(Debug, Clone, Copy)]
pub struct TransferDescriptor(pub [u32; 8]);

impl TransferDescriptor {
    pub open spec fn spec_link_pointer(&self) -> LinkPointer {
        link_of(self.0@[0])
    }

    pub fn link_pointer(&self) -> (r: LinkPointer)
        ensures
            r == self.spec_link_pointer(),
    {
        get_link_pointer(self.0[0])
    }

    pub fn set_link_pointer(&mut self, ptr: &LinkPointer)
        requires
            link_aligned(*ptr),
        ensures
            final(self).0@ == old(self).0@.update(0, link_word(old(self).0@[0], *ptr)),
            final(self).spec_link_pointer() == *ptr,
    {
        let mut w = self.0[0];
        set_link_pointer(&mut w, ptr);
        self.0[0] = w;
    }

    /// The short packet detect bit.
    pub open spec fn spec_spd(&self) -> bool {
        bit32(self.0@[1], 29)
    }

    pub fn spd(&self) -> (r: bool)
        ensures
            r == self.spec_spd(),
    {
        get_bits32(self.0[1], 29, 1) == 1
    }

    pub fn set_spd(&mut self, val: bool)
        ensures
            final(self).0@ == old(self).0@.update(1, with_bit32(old(self).0@[1], 29, val)),
            final(self).spec_spd() == val,
    {
        proof {
            lemma_mask32_values();
            lemma_bits32_same(self.0@[1], 29, 1, if val { 1u32 } else { 0u32 });
        }
        self.0[1] = set_bits32(self.0[1], 29, 1, if val { 1 } else { 0 });
    }

    /// The low-speed device bit.
    pub open spec fn spec_low_speed(&self) -> bool {
        bit32(self.0@[1], 26)
    }

    pub fn low_speed(&self) -> (r: bool)
        ensures
            r == self.spec_low_speed(),
    {
        get_bits32(self.0[1], 26, 1) == 1
    }

    pub fn set_low_speed(&mut self, val: bool)
        ensures
            final(self).0@ == old(self).0@.update(1, with_bit32(old(self).0@[1], 26, val)),
            final(self).spec_low_speed() == val,
    {
        proof {
            lemma_mask32_values();
            lemma_bits32_same(self.0@[1], 26, 1, if val { 1u32 } else { 0u32 });
        }
        self.0[1] = set_bits32(self.0[1], 26, 1, if val { 1 } else { 0 });
    }

    /// The isochronous transfer bit.
    pub open spec fn spec_isochronus_select(&self) -> bool {
        bit32(self.0@[1], 25)
    }

    pub fn isochronus_select(&self) -> (r: bool)
        ensures
            r == self.spec_isochronus_select(),
    {
        get_bits32(self.0[1], 25, 1) == 1
    }

    pub fn set_isochronus_select(&mut self, val: bool)
        ensures
            final(self).0@ == old(self).0@.update(1, with_bit32(old(self).0@[1], 25, val)),
            final(self).spec_isochronus_select() == val,
    {
        proof {
            lemma_mask32_values();
            lemma_bits32_same(self.0@[1], 25, 1, if val { 1u32 } else { 0u32 });
        }
        self.0[1] = set_bits32(self.0[1], 25, 1, if val { 1 } else { 0 });
    }

    /// The interrupt on completion bit.
    pub open spec fn spec_interrupt_on_complete(&self) -> bool {
        bit32(self.0@[1], 24)
    }

    pub fn interrupt_on_complete(&self) -> (r: bool)
        ensures
            r == self.spec_interrupt_on_complete(),
    {
        get_bits32(self.0[1], 24, 1) == 1
    }

    pub fn set_interrupt_on_complete(&mut self, val: bool)
        ensures
            final(self).0@ == old(self).0@.update(1, with_bit32(old(self).0@[1], 24, val)),
            final(self).spec_interrupt_on_complete() == val,
    {
        proof {
            lemma_mask32_values();
            lemma_bits32_same(self.0@[1], 24, 1, if val { 1u32 } else { 0u32 });
        }
        self.0[1] = set_bits32(self.0[1], 24, 1, if val { 1 } else { 0 });
    }

    /// The data toggle bit.
    pub open spec fn spec_data_toggle(&self) -> bool {
        bit32(self.0@[2], 19)
    }

    pub fn data_toggle(&self) -> (r: bool)
        ensures
            r == self.spec_data_toggle(),
    {
        get_bits32(self.0[2], 19, 1) == 1
    }

    pub fn set_data_toggle(&mut self, val: bool)
        ensures
            final(self).0@ == old(self).0@.update(2, with_bit32(old(self).0@[2], 19, val)),
            final(self).spec_data_toggle() == val,
    {
        proof {
            lemma_mask32_values();
            lemma_bits32_same(self.0@[2], 19, 1, if val { 1u32 } else { 0u32 });
        }
        self.0[2] = set_bits32(self.0[2], 19, 1, if val { 1 } else { 0 });
    }

    /// The error counter: bits 27 to 28 of word 1.
    pub open spec fn spec_err_counter(&self) -> u8 {
        bits32(self.0@[1], 27, 2) as u8
    }

    pub fn err_counter(&self) -> (r: u8)
        ensures
            r == self.spec_err_counter(),
    {
        proof {
            lemma_mask32_values();
        }
        get_bits32(self.0[1], 27, 2) as u8
    }

    pub fn set_err_counter(&mut self, val: u8)
        requires
            val <= 3,
        ensures
            final(self).0@ == old(self).0@.update(1, with_bits32(old(self).0@[1], 27, 2, val as u32)),
            final(self).spec_err_counter() == val,
    {
        proof {
            lemma_mask32_values();
            lemma_bits32_same(self.0@[1], 27, 2, val as u32);
        }
        self.0[1] = set_bits32(self.0[1], 27, 2, val as u32);
    }

    /// The status byte; bit 7 is "active": bits 16 to 23 of word 1.
    pub open spec fn spec_status(&self) -> u8 {
        bits32(self.0@[1], 16, 8) as u8
    }

    pub fn status(&self) -> (r: u8)
        ensures
            r == self.spec_status(),
    {
        proof {
            lemma_mask32_values();
        }
        get_bits32(self.0[1], 16, 8) as u8
    }

    pub fn set_status(&mut self, val: u8)
        ensures
            final(self).0@ == old(self).0@.update(1, with_bits32(old(self).0@[1], 16, 8, val as u32)),
            final(self).spec_status() == val,
    {
        proof {
            lemma_mask32_values();
            lemma_bits32_same(self.0@[1], 16, 8, val as u32);
        }
        self.0[1] = set_bits32(self.0[1], 16, 8, val as u32);
    }

    /// The actual length: bits 0 to 10 of word 1.
    pub open spec fn spec_actlen(&self) -> u16 {
        bits32(self.0@[1], 0, 11) as u16
    }

    pub fn actlen(&self) -> (r: u16)
        ensures
            r == self.spec_actlen(),
    {
        proof {
            lemma_mask32_values();
        }
        get_bits32(self.0[1], 0, 11) as u16
    }

    pub fn set_actlen(&mut self, val: u16)
        requires
            val < 0x800,
        ensures
            final(self).0@ == old(self).0@.update(1, with_bits32(old(self).0@[1], 0, 11, val as u32)),
            final(self).spec_actlen() == val,
    {
        proof {
            lemma_mask32_values();
            lemma_bits32_same(self.0@[1], 0, 11, val as u32);
        }
        self.0[1] = set_bits32(self.0[1], 0, 11, val as u32);
    }

    /// The endpoint number: bits 15 to 18 of word 2.
    pub open spec fn spec_endpoint(&self) -> u8 {
        bits32(self.0@[2], 15, 4) as u8
    }

    pub fn endpoint(&self) -> (r: u8)
        ensures
            r == self.spec_endpoint(),
    {
        proof {
            lemma_mask32_values();
        }
        get_bits32(self.0[2], 15, 4) as u8
    }

    pub fn set_endpoint(&mut self, val: u8)
        requires
            val < 16,
        ensures
            final(self).0@ == old(self).0@.update(2, with_bits32(old(self).0@[2], 15, 4, val as u32)),
            final(self).spec_endpoint() == val,
    {
        proof {
            lemma_mask32_values();
            lemma_bits32_same(self.0@[2], 15, 4, val as u32);
        }
        self.0[2] = set_bits32(self.0[2], 15, 4, val as u32);
    }

    /// The device address: bits 8 to 14 of word 2.
    pub open spec fn spec_address(&self) -> u8 {
        bits32(self.0@[2], 8, 7) as u8
    }

    pub fn address(&self) -> (r: u8)
        ensures
            r == self.spec_address(),
    {
        proof {
            lemma_mask32_values();
        }
        get_bits32(self.0[2], 8, 7) as u8
    }

    pub fn set_address(&mut self, val: u8)
        requires
            val <= 0x7e,
        ensures
            final(self).0@ == old(self).0@.update(2, with_bits32(old(self).0@[2], 8, 7, val as u32)),
            final(self).spec_address() == val,
    {
        proof {
            lemma_mask32_values();
            lemma_bits32_same(self.0@[2], 8, 7, val as u32);
        }
        self.0[2] = set_bits32(self.0[2], 8, 7, val as u32);
    }

    /// The packet identifier: bits 0 to 7 of word 2.
    pub open spec fn spec_pid(&self) -> u8 {
        bits32(self.0@[2], 0, 8) as u8
    }

    pub fn pid(&self) -> (r: u8)
        ensures
            r == self.spec_pid(),
    {
        proof {
            lemma_mask32_values();
        }
        get_bits32(self.0[2], 0, 8) as u8
    }

    pub fn set_pid(&mut self, val: u8)
        ensures
            final(self).0@ == old(self).0@.update(2, with_bits32(old(self).0@[2], 0, 8, val as u32)),
            final(self).spec_pid() == val,
    {
        proof {
            lemma_mask32_values();
            lemma_bits32_same(self.0@[2], 0, 8, val as u32);
        }
        self.0[2] = set_bits32(self.0[2], 0, 8, val as u32);
    }

    /// Maximum length, stored in bits 21 to 31 of word 2 as length minus one,
    /// with 0x7FF standing for zero.
    pub open spec fn spec_maxlen(&self) -> u16 {
        maxlen_of_field(bits32(self.0@[2], 21, 11))
    }

    pub fn maxlen(&self) -> (r: u16)
        ensures
            r == self.spec_maxlen(),
    {
        proof {
            lemma_mask32_values();
        }
        let raw = get_bits32(self.0[2], 21, 11) as u16;
        if raw == 0x7ff {
            0
        } else {
            raw + 1
        }
    }

    pub fn set_maxlen(&mut self, len: u16)
        requires
            len <= 1280,
        ensures
            final(self).0@ == old(self).0@.update(2, with_bits32(old(self).0@[2], 21, 11, maxlen_field(len))),
            final(self).spec_maxlen() == len,
    {
        proof {
            lemma_mask32_values();
            lemma_bits32_same(self.0@[2], 21, 11, maxlen_field(len));
        }
        let stored: u32 = if len == 0 {
            0x7ff
        } else {
            (len - 1) as u32
        };
        self.0[2] = set_bits32(self.0[2], 21, 11, stored);
    }

    /// Bit 23 of word 1, the top bit of the status byte: the controller has not
    /// yet serviced the descriptor.
    pub open spec fn spec_active(&self) -> bool {
        bit32(self.0@[1], 23)
    }

    pub fn active(&self) -> (r: bool)
        ensures
            r == self.spec_active(),
    {
        get_bits32(self.0[1], 23, 1) == 1
    }

    /// The top bit of the status byte is the active bit.
    pub proof fn lemma_active_is_status_top_bit(&self)
        ensures
            self.spec_active() <==> self.spec_status() >= 0x80,
    {
        let w = self.0@[1];
        assert(bit32(w, 23) <==> (bits32(w, 16, 8) as u8) >= 0x80) by (bit_vector);
    }

    /// The physical address of the data buffer: word 3.
    pub fn data(&self) -> (r: u32)
        ensures
            r == self.0@[3],
    {
        self.0[3]
    }

    pub fn set_data(&mut self, data: u32)
        ensures
            final(self).0@ == old(self).0@.update(3, data),
    {
        self.0[3] = data;
    }
}

/// The stored form of a maximum length.
pub open spec fn maxlen_field(len: u16) -> u32 {
    if len == 0 {
        0x7ffu32
    } else {
        (len - 1) as u32
    }
}

/// The maximum length that a stored field stands for.
pub open spec fn maxlen_of_field(raw: u32) -> u16 {
    if raw == 0x7ff {
        0u16
    } else {
        (raw + 1) as u16
    }
}

/// Bits of the USBCMD register.
#[derive(Debug, Clone, Copy, PartialEq, Eq, Structural)]
pub struct UsbCmdReg {
    pub max_packet: bool,
    pub configure: bool,
    pub software_debug: bool,
    pub global_resume: bool,
    pub global_suspend: bool,
    pub global_reset: bool,
    pub host_controller_reset: bool,
    pub run: bool,
}

pub open spec fn flag(b: bool, weight: int) -> int {
    if b {
        weight
    } else {
        0
    }
}

/// The register value: max packet is bit 7 down to run at bit 0.
pub open spec fn usb_cmd_value(c: UsbCmdReg) -> int {
    flag(c.max_packet, 128) + flag(c.configure, 64) + flag(c.software_debug, 32) + flag(
        c.global_resume,
        16,
    ) + flag(c.global_suspend, 8) + flag(c.global_reset, 4) + flag(c.host_controller_reset, 2)
        + flag(c.run, 1)
}

impl UsbCmdReg {
    pub fn to_u16(&self) -> (r: u16)
        ensures
            r == usb_cmd_value(*self),
    {
        let mut ret: u16 = 0;
        if self.max_packet {
            ret = ret + 128;
        }
        if self.configure {
            ret = ret + 64;
        }
        if self.software_debug {
            ret = ret + 32;
        }
        if self.global_resume {
            ret = ret + 16;
        }
        if self.global_suspend {
            ret = ret + 8;
        }
        if self.global_reset {
            ret = ret + 4;
        }
        if self.host_controller_reset {
            ret = ret + 2;
        }
        if self.run {
            ret = ret + 1;
        }
        ret
    }
}

/// A PORTSC register value.
#[derive(Debug, Clone, Copy, PartialEq, Eq, Structural)]
pub struct UsbPortStatus(pub u16);

impl UsbPortStatus {
    pub open spec fn spec_suspend(&self) -> bool {
        bit16(self.0, 12)
    }

    pub fn suspend(&self) -> (r: bool)
        ensures
            r == self.spec_suspend(),
    {
        get_bits16(self.0, 12, 1) == 1
    }

    pub fn set_suspend(&mut self, val: bool)
        ensures
            final(self).0 == with_bit16(old(self).0, 12, val),
            final(self).spec_suspend() == val,
    {
        proof {
            lemma_mask16_values();
            lemma_bits16_same(self.0, 12, 1, if val { 1u16 } else { 0u16 });
        }
        self.0 = set_bits16(self.0, 12, 1, if val { 1 } else { 0 });
    }

    pub open spec fn spec_reset(&self) -> bool {
        bit16(self.0, 9)
    }

    pub fn reset(&self) -> (r: bool)
        ensures
            r == self.spec_reset(),
    {
        get_bits16(self.0, 9, 1) == 1
    }

    pub fn set_reset(&mut self, val: bool)
        ensures
            final(self).0 == with_bit16(old(self).0, 9, val),
            final(self).spec_reset() == val,
    {
        proof {
            lemma_mask16_values();
            lemma_bits16_same(self.0, 9, 1, if val { 1u16 } else { 0u16 });
        }
        self.0 = set_bits16(self.0, 9, 1, if val { 1 } else { 0 });
    }

    pub open spec fn spec_low_speed(&self) -> bool {
        bit16(self.0, 8)
    }

    pub fn low_speed(&self) -> (r: bool)
        ensures
            r == self.spec_low_speed(),
    {
        get_bits16(self.0, 8, 1) == 1
    }

    pub fn set_low_speed(&mut self, val: bool)
        ensures
            final(self).0 == with_bit16(old(self).0, 8, val),
            final(self).spec_low_speed() == val,
    {
        proof {
            lemma_mask16_values();
            lemma_bits16_same(self.0, 8, 1, if val { 1u16 } else { 0u16 });
        }
        self.0 = set_bits16(self.0, 8, 1, if val { 1 } else { 0 });
    }

    pub open spec fn spec_resume_detected(&self) -> bool {
        bit16(self.0, 6)
    }

    pub fn resume_detected(&self) -> (r: bool)
        ensures
            r == self.spec_resume_detected(),
    {
        get_bits16(self.0, 6, 1) == 1
    }

    pub fn set_resume_detected(&mut self, val: bool)
        ensures
            final(self).0 == with_bit16(old(self).0, 6, val),
            final(self).spec_resume_detected() == val,
    {
        proof {
            lemma_mask16_values();
            lemma_bits16_same(self.0, 6, 1, if val { 1u16 } else { 0u16 });
        }
        self.0 = set_bits16(self.0, 6, 1, if val { 1 } else { 0 });
    }

    pub open spec fn spec_port_enable_changed(&self) -> bool {
        bit16(self.0, 3)
    }

    pub fn port_enable_changed(&self) -> (r: bool)
        ensures
            r == self.spec_port_enable_changed(),
    {
        get_bits16(self.0, 3, 1) == 1
    }

    pub fn set_port_enable_changed(&mut self, val: bool)
        ensures
            final(self).0 == with_bit16(old(self).0, 3, val),
            final(self).spec_port_enable_changed() == val,
    {
        proof {
            lemma_mask16_values();
            lemma_bits16_same(self.0, 3, 1, if val { 1u16 } else { 0u16 });
        }
        self.0 = set_bits16(self.0, 3, 1, if val { 1 } else { 0 });
    }

    pub open spec fn spec_port_enabled(&self) -> bool {
        bit16(self.0, 2)
    }

    pub fn port_enabled(&self) -> (r: bool)
        ensures
            r == self.spec_port_enabled(),
    {
        get_bits16(self.0, 2, 1) == 1
    }

    pub fn set_port_enabled(&mut self, val: bool)
        ensures
            final(self).0 == with_bit16(old(self).0, 2, val),
            final(self).spec_port_enabled() == val,
    {
        proof {
            lemma_mask16_values();
            lemma_bits16_same(self.0, 2, 1, if val { 1u16 } else { 0u16 });
        }
        self.0 = set_bits16(self.0, 2, 1, if val { 1 } else { 0 });
    }

    pub open spec fn spec_connected_changed(&self) -> bool {
        bit16(self.0, 1)
    }

    pub fn connected_changed(&self) -> (r: bool)
        ensures
            r == self.spec_connected_changed(),
    {
        get_bits16(self.0, 1, 1) == 1
    }

    pub fn set_connected_changed(&mut self, val: bool)
        ensures
            final(self).0 == with_bit16(old(self).0, 1, val),
            final(self).spec_connected_changed() == val,
    {
        proof {
            lemma_mask16_values();
            lemma_bits16_same(self.0, 1, 1, if val { 1u16 } else { 0u16 });
        }
        self.0 = set_bits16(self.0, 1, 1, if val { 1 } else { 0 });
    }

    pub open spec fn spec_connected(&self) -> bool {
        bit16(self.0, 0)
    }

    pub fn connected(&self) -> (r: bool)
        ensures
            r == self.spec_connected(),
    {
        get_bits16(self.0, 0, 1) == 1
    }

    pub fn set_connected(&mut self, val: bool)
        ensures
            final(self).0 == with_bit16(old(self).0, 0, val),
            final(self).spec_connected() == val,
    {
        proof {
            lemma_mask16_values();
            lemma_bits16_same(self.0, 0, 1, if val { 1u16 } else { 0u16 });
        }
        self.0 = set_bits16(self.0, 0, 1, if val { 1 } else { 0 });
    }

    /// Line status: bits 4 and 5.
    pub open spec fn spec_line_status(&self) -> u8 {
        bits16(self.0, 4, 2) as u8
    }

    pub fn line_status(&self) -> (r: u8)
        ensures
            r == self.spec_line_status(),
    {
        proof {
            lemma_mask16_values();
        }
        get_bits16(self.0, 4, 2) as u8
    }

    pub fn set_line_status(&mut self, val: u8)
        requires
            val <= 3,
        ensures
            final(self).0 == with_bits16(old(self).0, 4, 2, val as u16),
            final(self).spec_line_status() == val,
    {
        proof {
            lemma_mask16_values();
            lemma_bits16_same(self.0, 4, 2, val as u16);
        }
        self.0 = set_bits16(self.0, 4, 2, val as u16);
    }
}

/// Little-endian 16-bit integer at byte `i` of `s`.
pub open spec fn le16(s: Seq<u8>, i: int) -> int {
    s[i] as int + s[i + 1] as int * 256
}

/// The 18-byte standard device descriptor, read in place.
pub struct UsbDeviceDescriptor<'a>(pub &'a [u8]);

impl<'a> UsbDeviceDescriptor<'a> {
    pub fn length(&self) -> (r: u8)
        requires
            self.0@.len() >= 18,
        ensures
            r == self.0@[0],
    {
        self.0[0]
    }

    pub fn descriptor_type(&self) -> (r: u8)
        requires
            self.0@.len() >= 18,
        ensures
            r == self.0@[1],
    {
        self.0[1]
    }

    pub fn device_class(&self) -> (r: u8)
        requires
            self.0@.len() >= 18,
        ensures
            r == self.0@[4],
    {
        self.0[4]
    }

    pub fn device_sublcass(&self) -> (r: u8)
        requires
            self.0@.len() >= 18,
        ensures
            r == self.0@[5],
    {
        self.0[5]
    }

    pub fn device_protocol(&self) -> (r: u8)
        requires
            self.0@.len() >= 18,
        ensures
            r == self.0@[6],
    {
        self.0[6]
    }

    pub fn max_packet_size_endpoint_zero(&self) -> (r: u8)
        requires
            self.0@.len() >= 18,
        ensures
            r == self.0@[7],
    {
        self.0[7]
    }

    pub fn manufacturer_string_id(&self) -> (r: u8)
        requires
            self.0@.len() >= 18,
        ensures
            r == self.0@[14],
    {
        self.0[14]
    }

    pub fn product_string_id(&self) -> (r: u8)
        requires
            self.0@.len() >= 18,
        ensures
            r == self.0@[15],
    {
        self.0[15]
    }

    pub fn serial_number_id(&self) -> (r: u8)
        requires
            self.0@.len() >= 18,
        ensures
            r == self.0@[16],
    {
        self.0[16]
    }

    pub fn num_configurations(&self) -> (r: u8)
        requires
            self.0@.len() >= 18,
        ensures
            r == self.0@[17],
    {
        self.0[17]
    }

    pub fn bcd_usb_version(&self) -> (r: u16)
        requires
            self.0@.len() >= 18,
        ensures
            r == le16(self.0@, 2),
    {
        (self.0[2] as u16) + (self.0[3] as u16) * 256
    }

    pub fn vendor_id(&self) -> (r: u16)
        requires
            self.0@.len() >= 18,
        ensures
            r == le16(self.0@, 8),
    {
        (self.0[8] as u16) + (self.0[9] as u16) * 256
    }

    pub fn product_id(&self) -> (r: u16)
        requires
            self.0@.len() >= 18,
        ensures
            r == le16(self.0@, 10),
    {
        (self.0[10] as u16) + (self.0[11] as u16) * 256
    }

    pub fn device_version(&self) -> (r: u16)
        requires
            self.0@.len() >= 18,
        ensures
            r == le16(self.0@, 12),
    {
        (self.0[12] as u16) + (self.0[13] as u16) * 256
    }
}

#[derive(Debug, PartialEq, Eq, Clone, Copy, Structural)]
pub struct InvalidPacketErr;

/// Direction and stage of a USB transaction.
#[derive(Debug, PartialEq, Eq, Clone, Copy, Structural)]
pub enum Pid {
    Setup,
    In,
    Out,
}

pub open spec fn pid_code(p: Pid) -> u8 {
    match p {
        Pid::Setup => 0x2d,
        Pid::In => 0x69,
        Pid::Out => 0xe1,
    }
}

/// A descriptor together with the buffer that it transfers.
pub struct TransferDescriptorStorage {
    pub descriptor: TransferDescriptor,
    pub buf: Vec<u8>,
}

pub const USB_MAX_PACKET_LEN: usize = 1024;

/// The fields of a fresh descriptor: terminated link, low speed, active,
/// everything else zero but length, address, endpoint and PID.
pub open spec fn td_initial(d: TransferDescriptor, address: u8, endpoint: u8, pid: Pid, len: nat) -> bool {
    td_fields(d, address, endpoint, pid, len, false)
}

/// A fresh descriptor with data toggle `toggle`.
pub open spec fn td_fields(d: TransferDescriptor, address: u8, endpoint: u8, pid: Pid, len: nat, toggle: bool) -> bool {
    &&& d.spec_link_pointer() == LinkPointer::Terminate
    &&& !d.spec_spd()
    &&& d.spec_err_counter() == 0
    &&& d.spec_low_speed()
    &&& !d.spec_isochronus_select()
    &&& !d.spec_interrupt_on_complete()
    &&& d.spec_status() == 0x80
    &&& d.spec_actlen() == 0
    &&& d.spec_maxlen() == len
    &&& d.spec_data_toggle() == toggle
    &&& d.spec_endpoint() == endpoint
    &&& d.spec_address() == address
    &&& d.spec_pid() == pid_code(pid)
    &&& d.0@[3] == 0
    &&& d.0@[4] == 0 && d.0@[5] == 0 && d.0@[6] == 0 && d.0@[7] == 0
}

/// The words of a fresh descriptor; reserved bits are zero.
pub open spec fn initial_words(address: u8, endpoint: u8, pid: Pid, len: u16) -> Seq<u32> {
    seq![
        1u32,
        (1u32 << 26) | (0x80u32 << 16),
        (maxlen_field(len) << 21) | ((endpoint as u32) << 15) | ((address as u32) << 8) | (pid_code(pid) as u32),
        0u32,
        0u32,
        0u32,
        0u32,
        0u32,
    ]
}

/// Builds a descriptor for `buf`. Its data pointer is left zero: whoever places the
/// storage in DMA-visible memory writes the buffer's physical address with `set_data`.
pub fn generate_td(address: u8, endpoint: u8, pid: Pid, buf: Vec<u8>) -> (r: Result<
    Box<TransferDescriptorStorage>,
    InvalidPacketErr,
>)
    requires
        address <= 0x7e,
        endpoint < 16,
    ensures
        r is Err <==> buf@.len() > USB_MAX_PACKET_LEN,
        r matches Ok(t) ==> t.buf@ == buf@ && td_initial(t.descriptor, address, endpoint, pid, buf@.len()),
        r matches Ok(t) ==> t.descriptor.0@ == initial_words(address, endpoint, pid, buf@.len() as u16),
{
    if buf.len() > USB_MAX_PACKET_LEN {
        return Err(InvalidPacketErr);
    }
    let len = buf.len() as u16;
    let mut d = TransferDescriptor([0u32; 8]);
    assert(d.0@[1] == 0 && d.0@[2] == 0);
    d.set_link_pointer(&LinkPointer::Terminate);
    d.set_low_speed(true);
    d.set_status(0x80);
    d.set_maxlen(len);
    d.set_address(address);
    d.set_endpoint(endpoint);
    let code: u8 = match pid {
        Pid::Setup => 0x2d,
        Pid::Out => 0xe1,
        Pid::In => 0x69,
    };
    d.set_pid(code);
    proof {
        lemma_mask32_values();
        let w1a = with_bit32(0, 26, true);
        let w1 = d.0@[1];
        lemma_bits32_zero(29, 1);
        lemma_bits32_zero(27, 2);
        lemma_bits32_zero(25, 1);
        lemma_bits32_zero(24, 1);
        lemma_bits32_zero(0, 11);
        lemma_bits32_other(0, 26, 1, 1, 29, 1);
        lemma_bits32_other(0, 26, 1, 1, 27, 2);
        lemma_bits32_other(0, 26, 1, 1, 25, 1);
        lemma_bits32_other(0, 26, 1, 1, 24, 1);
        lemma_bits32_other(0, 26, 1, 1, 0, 11);
        lemma_bits32_other(w1a, 16, 8, 0x80, 29, 1);
        lemma_bits32_other(w1a, 16, 8, 0x80, 27, 2);
        lemma_bits32_other(w1a, 16, 8, 0x80, 26, 1);
        lemma_bits32_other(w1a, 16, 8, 0x80, 25, 1);
        lemma_bits32_other(w1a, 16, 8, 0x80, 24, 1);
        lemma_bits32_other(w1a, 16, 8, 0x80, 0, 11);
        let w2a = with_bits32(0, 21, 11, maxlen_field(len));
        let w2b = with_bits32(w2a, 8, 7, address as u32);
        let w2c = with_bits32(w2b, 15, 4, endpoint as u32);
        lemma_bits32_zero(19, 1);
        lemma_bits32_other(0, 21, 11, maxlen_field(len), 19, 1);
        lemma_bits32_other(w2a, 8, 7, address as u32, 21, 11);
        lemma_bits32_other(w2a, 8, 7, address as u32, 19, 1);
        lemma_bits32_other(w2b, 15, 4, endpoint as u32, 21, 11);
        lemma_bits32_other(w2b, 15, 4, endpoint as u32, 19, 1);
        lemma_bits32_other(w2b, 15, 4, endpoint as u32, 8, 7);
        lemma_bits32_other(w2c, 0, 8, code as u32, 21, 11);
        lemma_bits32_other(w2c, 0, 8, code as u32, 19, 1);
        lemma_bits32_other(w2c, 0, 8, code as u32, 8, 7);
        lemma_bits32_other(w2c, 0, 8, code as u32, 15, 4);
        let m = maxlen_field(len);
        let a = address as u32;
        let e = endpoint as u32;
        let c = code as u32;
        assert(with_bit32(0, 0, true) == 1u32 && with_bits32(w1a, 16, 8, 0x80) == (1u32 << 26) | (0x80u32
            << 16)) by (bit_vector)
            requires
                w1a == with_bit32(0, 26, true),
        ;
        assert(with_bits32(with_bits32(with_bits32(with_bits32(0, 21, 11, m), 8, 7, a), 15, 4, e), 0, 8, c)
            == (m << 21) | (e << 15) | (a << 8) | c) by (bit_vector)
            requires
                m <= 0x7ff,
                a <= 0x7f,
                e <= 15,
                c <= 0xff,
        ;
        assert(d.0@ =~= initial_words(address, endpoint, pid, len));
    }
    Ok(Box::new(TransferDescriptorStorage { descriptor: d, buf }))
}

/// `new` is `old` with its link word set to `l`.
pub open spec fn td_relinked(new: TransferDescriptorStorage, old: TransferDescriptorStorage, l: LinkPointer) -> bool {
    &&& new.buf@ == old.buf@
    &&& new.descriptor.0@ == old.descriptor.0@.update(0, link_word(old.descriptor.0@[0], l))
}

/// In a chain at addresses `addrs`, descriptor `k` links to the next one; the last terminates.
pub open spec fn chain_link(addrs: Seq<u32>, k: int) -> LinkPointer {
    if k + 1 < addrs.len() {
        LinkPointer::TD(addrs[k + 1])
    } else {
        LinkPointer::Terminate
    }
}

pub open spec fn all_aligned(addrs: Seq<u32>) -> bool {
    forall|i: int| 0 <= i < addrs.len() ==> #[trigger] addrs[i] % 16 == 0
}

/// Points each descriptor of `tds` at its buffer, whose physical address is the
/// matching entry of `buf_addrs`; nothing else changes.
pub fn bind_buffers(tds: &mut Vec<Box<TransferDescriptorStorage>>, buf_addrs: &[u32])
    requires
        old(tds)@.len() == buf_addrs@.len(),
    ensures
        final(tds)@.len() == old(tds)@.len(),
        forall|k: int|
            0 <= k < old(tds)@.len() ==> {
                &&& (#[trigger] final(tds)@[k]).buf@ == old(tds)@[k].buf@
                &&& final(tds)@[k].descriptor.0@ == old(tds)@[k].descriptor.0@.update(3, buf_addrs@[k])
            },
{
    let ghost orig = tds@;
    let n = tds.len();
    let mut out: Vec<Box<TransferDescriptorStorage>> = Vec::new();
    let mut i: usize = 0;
    while i < n
        invariant
            n == orig.len(),
            n == buf_addrs@.len(),
            i <= n,
            out@.len() == i,
            tds@ == orig.subrange(i as int, n as int),
            forall|k: int|
                0 <= k < i ==> {
                    &&& (#[trigger] out@[k]).buf@ == orig[k].buf@
                    &&& out@[k].descriptor.0@ == orig[k].descriptor.0@.update(3, buf_addrs@[k])
                },
        decreases n - i,
    {
        let mut t = tds.remove(0);
        t.descriptor.set_data(buf_addrs[i]);
        out.push(t);
        i = i + 1;
        proof {
            assert(tds@ =~= orig.subrange(i as int, n as int));
        }
    }
    *tds = out;
}

/// Links `tds`, which stand at the physical addresses `addrs`, into a chain in order.
pub fn chain_tds(tds: &mut Vec<Box<TransferDescriptorStorage>>, addrs: &[u32])
    requires
        old(tds)@.len() == addrs@.len(),
        all_aligned(addrs@),
    ensures
        final(tds)@.len() == old(tds)@.len(),
        forall|k: int|
            0 <= k < old(tds)@.len() ==> td_relinked(
                *#[trigger] final(tds)@[k],
                *old(tds)@[k],
                chain_link(addrs@, k),
            ),
{
    let ghost orig = tds@;
    let n = tds.len();
    let mut out: Vec<Box<TransferDescriptorStorage>> = Vec::new();
    let mut i: usize = 0;
    while i < n
        invariant
            n == orig.len(),
            n == addrs@.len(),
            all_aligned(addrs@),
            i <= n,
            out@.len() == i,
            tds@ == orig.subrange(i as int, n as int),
            forall|k: int| 0 <= k < i ==> td_relinked(*#[trigger] out@[k], *orig[k], chain_link(addrs@, k)),
        decreases n - i,
    {
        let mut t = tds.remove(0);
        let link = if i + 1 < n {
            LinkPointer::TD(addrs[i + 1])
        } else {
            LinkPointer::Terminate
        };
        t.descriptor.set_link_pointer(&link);
        out.push(t);
        i = i + 1;
        proof {
            assert(tds@ =~= orig.subrange(i as int, n as int));
        }
    }
    *tds = out;
}

pub const USB_CMD_OFFSET: u16 = 0x00;

pub const USB_STATUS_OFFSET: u16 = 0x02;

pub const FRAME_NUMBER_OFFSET: u16 = 0x06;

pub const FRAME_LIST_OFFSET: u16 = 0x08;

pub const FRAME_LIST_LEN: usize = 1024;

/// A write into the controller's I/O range, at a byte offset.
#[derive(Debug, PartialEq, Eq, Clone, Copy, Structural)]
pub enum RegisterWrite {
    Word { offset: u16, value: u16 },
    Dword { offset: u16, dword: u32 },
}

/// A register write followed by a wait.
#[derive(Debug, PartialEq, Eq, Clone, Copy, Structural)]
pub struct TimedWrite {
    pub write: RegisterWrite,
    pub sleep_ms: u64,
}

pub type QueueEntry = (u64, Box<TransferDescriptorStorage>);

/// Insertion ids strictly increase along the queue.
pub open spec fn ids_increasing(e: Seq<QueueEntry>) -> bool {
    forall|i: int, j: int| 0 <= i < j < e.len() ==> #[trigger] e[i].0 < #[trigger] e[j].0
}

/// Entries `k` to `k + n` hold the ids `first` to `first + n`.
pub open spec fn run_at(e: Seq<QueueEntry>, k: int, first: u64, n: nat) -> bool {
    &&& 0 <= k
    &&& k + n <= e.len()
    &&& forall|j: int| 0 <= j < n ==> #[trigger] e[k + j].0 == first + j
}

pub open spec fn holds_run(e: Seq<QueueEntry>, first: u64, n: nat) -> bool {
    exists|k: int| run_at(e, k, first, n)
}

/// Where the run of ids `first` to `first + n` stands in the queue.
pub open spec fn run_start(e: Seq<QueueEntry>, first: u64, n: nat) -> int {
    choose|k: int| run_at(e, k, first, n)
}

/// With ids increasing, a run stands at one place only: `run_start` names that place.
pub proof fn lemma_run_start_unique(e: Seq<QueueEntry>, k: int, first: u64, n: nat)
    requires
        ids_increasing(e),
        n >= 1,
        run_at(e, k, first, n),
    ensures
        run_start(e, first, n) == k,
{
    let k2 = run_start(e, first, n);
    assert(run_at(e, k2, first, n));
    assert(e[k2 + 0].0 == first && e[k + 0].0 == first);
    if k2 < k {
        assert(e[k2].0 < e[k].0);
    } else if k < k2 {
        assert(e[k].0 < e[k2].0);
    }
}

/// A queue head and the descriptors queued behind it, with their insertion ids.
pub struct QueueStorage {
    pub queue: QueueHead,
    bufs: Vec<QueueEntry>,
}

/// The controller's DMA-visible state as software keeps it: the frame list, the master
/// queue and the descriptors queued on it. Physical addresses come from whoever placed
/// that memory; this type computes what must stand in it.
pub struct Uhci {
    frame_list: Vec<u32>,
    frame_list_addr: u32,
    master_queue: QueueStorage,
    master_queue_addr: u32,
    last_id: u64,
}

/// A submitted run of descriptors, awaiting completion.
#[derive(Debug, PartialEq, Eq, Clone, Copy, Structural)]
pub struct UsbFuture {
    pub first_id: u64,
    pub count: usize,
}

/// What a poll of a submitted run yields.
pub enum UsbPoll {
    /// Some descriptor is still active: poll again once the tick reaches `wake_at`.
    Pending { wake_at: u64 },
    /// All completed: the storages, in submission order.
    Ready(Vec<Box<TransferDescriptorStorage>>),
}

/// The tick one tenth of a second after `now`, saturated.
pub open spec fn repoll_tick(now: u64, tick_freq: u64) -> u64 {
    if now + tick_freq / 10 > u64::MAX {
        u64::MAX
    } else {
        (now + tick_freq / 10) as u64
    }
}

fn command_then_sleep(value: u16, sleep_ms: u64) -> (r: TimedWrite)
    ensures
        r == (TimedWrite { write: RegisterWrite::Word { offset: USB_CMD_OFFSET, value }, sleep_ms }),
{
    TimedWrite { write: RegisterWrite::Word { offset: USB_CMD_OFFSET, value }, sleep_ms }
}

impl Uhci {
    pub closed spec fn entries(&self) -> Seq<QueueEntry> {
        self.master_queue.bufs@
    }

    pub closed spec fn next_id(&self) -> u64 {
        self.last_id
    }

    pub closed spec fn queue_head(&self) -> QueueHead {
        self.master_queue.queue
    }

    pub closed spec fn frame_list_words(&self) -> Seq<u32> {
        self.frame_list@
    }

    pub closed spec fn frame_list_addr(&self) -> u32 {
        self.frame_list_addr
    }

    pub closed spec fn master_queue_addr(&self) -> u32 {
        self.master_queue_addr
    }

    /// Queued ids strictly increase, so each id stands at one place only.
    pub proof fn lemma_wf_ids(&self)
        requires
            self.wf(),
        ensures
            ids_increasing(self.entries()),
            forall|i: int| 0 <= i < self.entries().len() ==> #[trigger] self.entries()[i].0 < self.next_id(),
    {
    }

    pub closed spec fn wf(&self) -> bool {
        &&& self.frame_list@.len() == FRAME_LIST_LEN
        &&& self.frame_list_addr % 4096 == 0
        &&& self.master_queue_addr % 16 == 0
        &&& ids_increasing(self.master_queue.bufs@)
        &&& forall|i: int| 0 <= i < self.master_queue.bufs@.len() ==> #[trigger] self.master_queue.bufs@[i].0 < self.last_id
    }

    /// A controller whose frame list, at `frame_list_addr`, has every slot point at the
    /// master queue head, at `master_queue_addr`, whose links both terminate.
    pub fn new(frame_list_addr: u32, master_queue_addr: u32) -> (r: Uhci)
        requires
            frame_list_addr % 4096 == 0,
            master_queue_addr % 16 == 0,
        ensures
            r.wf(),
            r.frame_list_addr() == frame_list_addr,
            r.master_queue_addr() == master_queue_addr,
            r.frame_list_words() == Seq::new(1024, |i: int| link_word(0, LinkPointer::QH(master_queue_addr))),
            r.queue_head().0@ == seq![link_word(0, LinkPointer::Terminate), link_word(0, LinkPointer::Terminate)],
            r.entries().len() == 0,
            r.next_id() == 0,
    {
        let mut head = QueueHead([0u32; 2]);
        head.set_head_link(&LinkPointer::Terminate);
        head.set_element_link(&LinkPointer::Terminate);
        let mut frame_list: Vec<u32> = Vec::with_capacity(FRAME_LIST_LEN);
        while frame_list.len() < FRAME_LIST_LEN
            invariant
                frame_list@.len() <= 1024,
                master_queue_addr % 16 == 0,
                forall|i: int| 0 <= i < frame_list@.len() ==> #[trigger] frame_list@[i] == link_word(0, LinkPointer::QH(master_queue_addr)),
            decreases 1024 - frame_list@.len(),
        {
            let mut w: u32 = 0;
            set_link_pointer(&mut w, &LinkPointer::QH(master_queue_addr));
            frame_list.push(w);
        }
        proof {
            assert(frame_list@ =~= Seq::new(1024, |i: int| link_word(0, LinkPointer::QH(master_queue_addr))));
            assert(head.0@ =~= seq![link_word(0, LinkPointer::Terminate), link_word(0, LinkPointer::Terminate)]);
        }
        Uhci {
            frame_list,
            frame_list_addr,
            master_queue: QueueStorage { queue: head, bufs: Vec::new() },
            master_queue_addr,
            last_id: 0,
        }
    }

    /// The words of the frame list, for the memory that the controller reads.
    pub fn frame_list(&self) -> (r: &Vec<u32>)
        ensures
            r@ == self.frame_list_words(),
    {
        &self.frame_list
    }

    /// The master queue head's words, for the memory that the controller reads.
    pub fn master_queue_head(&self) -> (r: QueueHead)
        ensures
            r.0@ == self.queue_head().0@,
    {
        self.master_queue.queue
    }

    /// The command sequence of a controller reset: global reset for 10 ms, release and
    /// wait 60 ms, then a host controller reset and 10 ms.
    pub fn reset(&self) -> (r: Vec<TimedWrite>)
        ensures
            r@ == seq![
                TimedWrite { write: RegisterWrite::Word { offset: USB_CMD_OFFSET, value: 0x04 }, sleep_ms: 10 },
                TimedWrite { write: RegisterWrite::Word { offset: USB_CMD_OFFSET, value: 0x00 }, sleep_ms: 60 },
                TimedWrite { write: RegisterWrite::Word { offset: USB_CMD_OFFSET, value: 0x02 }, sleep_ms: 10 },
            ],
    {
        let none = UsbCmdReg {
            max_packet: false,
            configure: false,
            software_debug: false,
            global_resume: false,
            global_suspend: false,
            global_reset: false,
            host_controller_reset: false,
            run: false,
        };
        let reset_cmd = UsbCmdReg { global_reset: true, ..none };
        let hostreset_cmd = UsbCmdReg { host_controller_reset: true, ..none };
        let mut r: Vec<TimedWrite> = Vec::new();
        r.push(command_then_sleep(reset_cmd.to_u16(), 10));
        r.push(command_then_sleep(none.to_u16(), 60));
        r.push(command_then_sleep(hostreset_cmd.to_u16(), 10));
        proof {
            assert(r@ =~= seq![
                TimedWrite { write: RegisterWrite::Word { offset: USB_CMD_OFFSET, value: 0x04 }, sleep_ms: 10 },
                TimedWrite { write: RegisterWrite::Word { offset: USB_CMD_OFFSET, value: 0x00 }, sleep_ms: 60 },
                TimedWrite { write: RegisterWrite::Word { offset: USB_CMD_OFFSET, value: 0x02 }, sleep_ms: 10 },
            ]);
        }
        r
    }

    /// Where the master queue head stands in the memory the controller reads.
    pub fn master_queue_address(&self) -> (r: u32)
        ensures
            r == self.master_queue_addr(),
    {
        self.master_queue_addr
    }

    /// The next insertion id that `append_work` hands out.
    pub fn last_id(&self) -> (r: u64)
        ensures
            r == self.next_id(),
    {
        self.last_id
    }

    /// The writes that start a reset controller, in order: frame number 0, the frame
    /// list's address, every status bit acknowledged, then run.
    pub fn start(&self) -> (r: Vec<RegisterWrite>)
        ensures
            r@ == seq![
                RegisterWrite::Word { offset: FRAME_NUMBER_OFFSET, value: 0 },
                RegisterWrite::Dword { offset: FRAME_LIST_OFFSET, dword: self.frame_list_addr() },
                RegisterWrite::Word { offset: USB_STATUS_OFFSET, value: 0x1f },
                RegisterWrite::Word { offset: USB_CMD_OFFSET, value: 0xc1 },
            ],
    {
        let mut r: Vec<RegisterWrite> = Vec::new();
        r.push(self.set_frame_number(0));
        r.push(self.set_frame_list_offset());
        r.push(self.clear_usb_status());
        r.push(self.enable_uhci_card());
        proof {
            assert(r@ =~= seq![
                RegisterWrite::Word { offset: FRAME_NUMBER_OFFSET, value: 0 },
                RegisterWrite::Dword { offset: FRAME_LIST_OFFSET, dword: self.frame_list_addr() },
                RegisterWrite::Word { offset: USB_STATUS_OFFSET, value: 0x1f },
                RegisterWrite::Word { offset: USB_CMD_OFFSET, value: 0xc1 },
            ]);
        }
        r
    }

    /// Points the controller at the frame list.
    pub fn set_frame_list_offset(&self) -> (r: RegisterWrite)
        ensures
            r == (RegisterWrite::Dword { offset: FRAME_LIST_OFFSET, dword: self.frame_list_addr() }),
    {
        RegisterWrite::Dword { offset: FRAME_LIST_OFFSET, dword: self.frame_list_addr }
    }

    pub fn set_frame_number(&self, val: u16) -> (r: RegisterWrite)
        ensures
            r == (RegisterWrite::Word { offset: FRAME_NUMBER_OFFSET, value: val }),
    {
        RegisterWrite::Word { offset: FRAME_NUMBER_OFFSET, value: val }
    }

    /// Acknowledges every status bit.
    pub fn clear_usb_status(&self) -> (r: RegisterWrite)
        ensures
            r == (RegisterWrite::Word { offset: USB_STATUS_OFFSET, value: 0x1f }),
    {
        RegisterWrite::Word { offset: USB_STATUS_OFFSET, value: 0x1f }
    }

    /// Runs the controller with 64-byte max packets and the configure flag.
    pub fn enable_uhci_card(&self) -> (r: RegisterWrite)
        ensures
            r == (RegisterWrite::Word { offset: USB_CMD_OFFSET, value: 0xc1 }),
    {
        let cmd = UsbCmdReg {
            max_packet: true,
            configure: true,
            software_debug: false,
            global_resume: false,
            global_suspend: false,
            global_reset: false,
            host_controller_reset: false,
            run: true,
        };
        RegisterWrite::Word { offset: USB_CMD_OFFSET, value: cmd.to_u16() }
    }

    /// Queues `work`, whose storages stand at the physical addresses `addrs`, behind the
    /// master queue head. The descriptors are chained in order. With nothing queued, or
    /// with the last queued descriptor already serviced, the queue head's element link
    /// is pointed at the first new one; otherwise the last queued descriptor links to it.
    /// The new storages get consecutive ids from `next_id()`.
    #[verifier::loop_isolation(false)]
    pub fn append_work(&mut self, work: Vec<Box<TransferDescriptorStorage>>, addrs: &[u32]) -> (r: UsbFuture)
        requires
            old(self).wf(),
            work@.len() >= 1,
            work@.len() == addrs@.len(),
            all_aligned(addrs@),
            old(self).next_id() + work@.len() <= u64::MAX,
        ensures
            final(self).wf(),
            r == (UsbFuture { first_id: old(self).next_id(), count: work@.len() as usize }),
            run_at(final(self).entries(), old(self).entries().len() as int, old(self).next_id(), work@.len()),
            final(self).next_id() == old(self).next_id() + work@.len(),
            final(self).frame_list_words() == old(self).frame_list_words(),
            final(self).frame_list_addr() == old(self).frame_list_addr(),
            final(self).master_queue_addr() == old(self).master_queue_addr(),
            final(self).entries().len() == old(self).entries().len() + work@.len(),
            forall|j: int|
                0 <= j < work@.len() ==> {
                    &&& (#[trigger] final(self).entries()[old(self).entries().len() + j]).0 == old(self).next_id() + j
                    &&& td_relinked(
                        *final(self).entries()[old(self).entries().len() + j].1,
                        *work@[j],
                        chain_link(addrs@, j),
                    )
                },
            ({
                let e = old(self).entries();
                if e.len() > 0 && e.last().1.descriptor.spec_active() {
                    &&& final(self).queue_head() == old(self).queue_head()
                    &&& final(self).entries().subrange(0, e.len() - 1) == e.subrange(0, e.len() - 1)
                    &&& final(self).entries()[e.len() - 1].0 == e.last().0
                    &&& td_relinked(*final(self).entries()[e.len() - 1].1, *e.last().1, LinkPointer::TD(addrs@[0]))
                } else {
                    &&& final(self).queue_head().0@ == old(self).queue_head().0@.update(
                        1,
                        link_word(old(self).queue_head().0@[1], LinkPointer::TD(addrs@[0])),
                    )
                    &&& final(self).entries().subrange(0, e.len() as int) == e
                }
            }),
    {
        let mut work = work;
        chain_tds(&mut work, addrs);
        let ghost chained = work@;
        let first = self.last_id;
        let n = work.len();
        let first_link = LinkPointer::TD(addrs[0]);
        proof {
            assert(addrs@[0] % 16 == 0);
        }
        let ghost e = self.master_queue.bufs@;
        let len = self.master_queue.bufs.len();
        if len > 0 && self.master_queue.bufs[len - 1].1.descriptor.active() {
            match self.master_queue.bufs.pop() {
                Some(entry) => {
                    let (id, mut t) = entry;
                    t.descriptor.set_link_pointer(&first_link);
                    self.master_queue.bufs.push((id, t));
                },
                None => {},
            }
        } else {
            self.master_queue.queue.set_element_link(&first_link);
        }
        let ghost mid = self.master_queue.bufs@;
        let ghost qh = self.master_queue.queue;
        proof {
            assert(mid.len() == e.len());
            assert(forall|i: int| 0 <= i < mid.len() ==> #[trigger] mid[i].0 == e[i].0);
        }
        self.last_id = first + n as u64;
        let mut j: usize = 0;
        while j < n
            invariant
                n == chained.len(),
                j <= n,
                work@ == chained.subrange(j as int, n as int),
                first + n <= u64::MAX,
                self.last_id == first + n,
                self.master_queue.bufs@.len() == mid.len() + j,
                self.master_queue.bufs@.subrange(0, mid.len() as int) == mid,
                forall|i: int| 0 <= i < mid.len() ==> #[trigger] mid[i].0 < first,
                ids_increasing(mid),
                forall|m: int|
                    0 <= m < j ==> (#[trigger] self.master_queue.bufs@[mid.len() + m]).0 == first + m
                        && self.master_queue.bufs@[mid.len() + m].1 == chained[m],
                self.frame_list@ == old(self).frame_list@,
                self.frame_list_addr == old(self).frame_list_addr,
                self.master_queue_addr == old(self).master_queue_addr,
                self.master_queue.queue == qh,
            decreases n - j,
        {
            let t = work.remove(0);
            let ghost before = self.master_queue.bufs@;
            self.master_queue.bufs.push((first + j as u64, t));
            proof {
                assert(self.master_queue.bufs@.subrange(0, mid.len() as int) =~= before.subrange(0, mid.len() as int));
                assert(work@ =~= chained.subrange(j as int + 1, n as int));
            }
            j = j + 1;
        }
        proof {
            let b = self.master_queue.bufs@;
            assert forall|i: int| 0 <= i < mid.len() implies #[trigger] b[i] == mid[i] by {
                assert(b.subrange(0, mid.len() as int)[i] == b[i]);
            }
            assert forall|i: int, k: int| 0 <= i < k < b.len() implies #[trigger] b[i].0 < #[trigger] b[k].0 by {
                if k >= mid.len() {
                    let mk = k - mid.len();
                    assert(b[mid.len() + mk].0 == first + mk);
                }
                if i >= mid.len() {
                    let mi = i - mid.len();
                    assert(b[mid.len() + mi].0 == first + mi);
                }
            }
            assert forall|i: int| 0 <= i < b.len() implies #[trigger] b[i].0 < self.last_id by {
                if i >= mid.len() {
                    let mi = i - mid.len();
                    assert(b[mid.len() + mi].0 == first + mi);
                }
            }
            if !(e.len() > 0 && e.last().1.descriptor.spec_active()) {
                assert(mid =~= e);
            } else {
                assert(mid.subrange(0, e.len() - 1) =~= e.subrange(0, e.len() - 1));
                assert(b.subrange(0, e.len() - 1) =~= mid.subrange(0, e.len() - 1));
            }
        }
        UsbFuture { first_id: first, count: n }
    }

    /// Replaces the descriptor words of the entry with id `id`, with what the controller
    /// wrote to that memory (status, actual length). Returns whether the id is queued.
    #[verifier::loop_isolation(false)]
    pub fn sync_descriptor(&mut self, id: u64, words: [u32; 8]) -> (r: bool)
        requires
            old(self).wf(),
        ensures
            final(self).wf(),
            final(self).next_id() == old(self).next_id(),
            final(self).queue_head() == old(self).queue_head(),
            final(self).frame_list_words() == old(self).frame_list_words(),
            final(self).frame_list_addr() == old(self).frame_list_addr(),
            final(self).master_queue_addr() == old(self).master_queue_addr(),
            r <==> exists|i: int| 0 <= i < old(self).entries().len() && #[trigger] old(self).entries()[i].0 == id,
            !r ==> final(self).entries() == old(self).entries(),
            final(self).entries().len() == old(self).entries().len(),
            forall|i: int|
                0 <= i < final(self).entries().len() ==> (#[trigger] final(self).entries()[i]).0 == old(
                    self,
                ).entries()[i].0,
            forall|i: int|
                0 <= i < old(self).entries().len() ==> {
                    let (oid, ot) = #[trigger] old(self).entries()[i];
                    let (nid, nt) = final(self).entries()[i];
                    &&& nid == oid
                    &&& nt.buf@ == ot.buf@
                    &&& if oid == id { nt.descriptor.0@ == words@ } else { nt.descriptor == ot.descriptor }
                },
    {
        let ghost e = self.master_queue.bufs@;
        let len = self.master_queue.bufs.len();
        let mut i: usize = 0;
        while i < len && self.master_queue.bufs[i].0 != id
            invariant
                len == e.len(),
                e == self.master_queue.bufs@,
                i <= len,
                forall|k: int| 0 <= k < i ==> #[trigger] e[k].0 != id,
            decreases len - i,
        {
            i = i + 1;
        }
        if i == len {
            return false;
        }
        let (eid, mut t) = self.master_queue.bufs.remove(i);
        t.descriptor = TransferDescriptor(words);
        self.master_queue.bufs.insert(i, (eid, t));
        proof {
            let b = self.master_queue.bufs@;
            assert(b =~= e.update(i as int, b[i as int]));
            assert(old(self).entries()[i as int].0 == id);
            assert forall|k: int| 0 <= k < len implies #[trigger] b[k].0 == e[k].0 by {}
            assert forall|a: int, c: int| 0 <= a < c < b.len() implies #[trigger] b[a].0 < #[trigger] b[c].0 by {
                assert(b[a].0 == e[a].0 && b[c].0 == e[c].0);
            }
            assert forall|k: int| 0 <= k < len && k != i implies #[trigger] e[k].0 != id by {
                if k < i {
                    assert(e[k].0 < e[i as int].0);
                } else {
                    assert(e[i as int].0 < e[k].0);
                }
            }
        }
        true
    }
}

impl UsbFuture {
    /// Completion check of a submitted run, which must still be queued. If some
    /// descriptor of the run is still active, nothing changes and the caller should
    /// poll again a tenth of a second later. Otherwise the run leaves the queue and
    /// its storages are handed back in submission order.
    #[verifier::loop_isolation(false)]
    pub fn poll(&self, uhci: &mut Uhci, now: u64, tick_freq: u64) -> (r: UsbPoll)
        requires
            old(uhci).wf(),
            self.count >= 1,
            holds_run(old(uhci).entries(), self.first_id, self.count as nat),
        ensures
            final(uhci).wf(),
            final(uhci).next_id() == old(uhci).next_id(),
            final(uhci).queue_head() == old(uhci).queue_head(),
            final(uhci).frame_list_words() == old(uhci).frame_list_words(),
            final(uhci).frame_list_addr() == old(uhci).frame_list_addr(),
            final(uhci).master_queue_addr() == old(uhci).master_queue_addr(),
            ({
                let e = old(uhci).entries();
                let k = run_start(e, self.first_id, self.count as nat);
                &&& run_at(e, k, self.first_id, self.count as nat)
                &&& r is Pending <==> exists|j: int| 0 <= j < self.count && (#[trigger] e[k + j]).1.descriptor.spec_active()
                &&& r matches UsbPoll::Pending { wake_at } ==> wake_at == repoll_tick(now, tick_freq)
                    && final(uhci).entries() == e
                &&& r matches UsbPoll::Ready(v) ==> v@.len() == self.count
                    && (forall|j: int| 0 <= j < self.count ==> #[trigger] v@[j] == e[k + j].1)
                    && final(uhci).entries() == e.subrange(0, k) + e.subrange(k + self.count, e.len() as int)
            }),
    {
        let ghost e = uhci.master_queue.bufs@;
        let ghost k0 = run_start(e, self.first_id, self.count as nat);
        let n = self.count;
        let len = uhci.master_queue.bufs.len();
        let mut k: usize = 0;
        while k < len && uhci.master_queue.bufs[k].0 != self.first_id
            invariant
                len == e.len(),
                e == uhci.master_queue.bufs@,
                run_at(e, k0, self.first_id, n as nat),
                n >= 1,
                k <= k0,
                ids_increasing(e),
            decreases len - k,
        {
            proof {
                assert(e[k0 + 0].0 == self.first_id);
            }
            k = k + 1;
        }
        proof {
            assert(e[k0 + 0].0 == self.first_id);
            if k < k0 {
                assert(e[k as int].0 < e[k0].0);
            }
        }
        let mut j: usize = 0;
        while j < n
            invariant
                k == k0,
                k + n <= len,
                run_at(e, k0, self.first_id, n as nat),
                e == uhci.master_queue.bufs@,
                j <= n,
                forall|m: int| 0 <= m < j ==> !(#[trigger] e[k0 + m]).1.descriptor.spec_active(),
            decreases n - j,
        {
            if uhci.master_queue.bufs[k + j].1.descriptor.active() {
                let wake_at = now.saturating_add(tick_freq / 10);
                return UsbPoll::Pending { wake_at };
            }
            j = j + 1;
        }
        let mut out: Vec<Box<TransferDescriptorStorage>> = Vec::new();
        let mut j: usize = 0;
        while j < n
            invariant
                k == k0,
                run_at(e, k0, self.first_id, n as nat),
                ids_increasing(e),
                j <= n,
                out@.len() == j,
                forall|m: int| 0 <= m < j ==> #[trigger] out@[m] == e[k0 + m].1,
                uhci.master_queue.bufs@ == e.subrange(0, k0) + e.subrange(k0 + j, e.len() as int),
                uhci.frame_list@ == old(uhci).frame_list@,
                uhci.frame_list_addr == old(uhci).frame_list_addr,
                uhci.master_queue_addr == old(uhci).master_queue_addr,
                uhci.master_queue.queue == old(uhci).master_queue.queue,
                uhci.last_id == old(uhci).last_id,
            decreases n - j,
        {
            let (_id, t) = uhci.master_queue.bufs.remove(k);
            out.push(t);
            j = j + 1;
            proof {
                assert(uhci.master_queue.bufs@ =~= e.subrange(0, k0) + e.subrange(k0 + j, e.len() as int));
            }
        }
        proof {
            let b = uhci.master_queue.bufs@;
            assert forall|a: int, c: int| 0 <= a < c < b.len() implies #[trigger] b[a].0 < #[trigger] b[c].0 by {
                let ia = if a < k0 { a } else { a + n };
                let ic = if c < k0 { c } else { c + n };
                assert(b[a] == e[ia]);
                assert(b[c] == e[ic]);
            }
            assert forall|i: int| 0 <= i < b.len() implies #[trigger] b[i].0 < uhci.last_id by {
                let ii = if i < k0 { i } else { i + n };
                assert(b[i] == e[ii]);
            }
        }
        UsbPoll::Ready(out)
    }
}

/// The direction of a status stage: opposite to an IN data stage, else IN.
pub open spec fn status_pid(data: Option<(Pid, usize)>) -> Pid {
    match data {
        Some((Pid::In, _)) => Pid::Out,
        _ => Pid::In,
    }
}

/// `w` is the control transfer to `address`: a SETUP stage carrying `setup`, an
/// optional data stage of the given direction and length with a zeroed buffer, and
/// an empty status stage with data toggle 1.
pub open spec fn is_control_transfer(
    w: Seq<Box<TransferDescriptorStorage>>,
    address: u8,
    setup: Seq<u8>,
    data: Option<(Pid, usize)>,
) -> bool {
    &&& w.len() == if data is Some { 3int } else { 2int }
    &&& td_fields(w[0].descriptor, address, 0, Pid::Setup, 8, false)
    &&& w[0].buf@ == setup
    &&& data matches Some((p, n)) ==> td_fields(w[1].descriptor, address, 0, p, n as nat, false) && w[1].buf@
        == Seq::new(n as nat, |i: int| 0u8)
    &&& td_fields(w.last().descriptor, address, 0, status_pid(data), 0, true)
    &&& w.last().buf@.len() == 0
}

fn zeroed(n: usize) -> (r: Vec<u8>)
    ensures
        r@ == Seq::new(n as nat, |i: int| 0u8),
{
    let mut v: Vec<u8> = Vec::with_capacity(n);
    while v.len() < n
        invariant
            v@.len() <= n,
            v@ == Seq::new(v@.len(), |i: int| 0u8),
        decreases n - v@.len(),
    {
        v.push(0u8);
        proof {
            assert(v@ =~= Seq::new(v@.len(), |i: int| 0u8));
        }
    }
    v
}

/// A descriptor for a buffer that fits a packet.
fn packet_td(address: u8, pid: Pid, buf: Vec<u8>, toggle: bool) -> (r: Box<TransferDescriptorStorage>)
    requires
        address <= 0x7e,
        buf@.len() <= USB_MAX_PACKET_LEN,
    ensures
        r.buf@ == buf@,
        td_fields(r.descriptor, address, 0, pid, buf@.len(), toggle),
{
    let ghost len = buf@.len();
    let mut t = match generate_td(address, 0, pid, buf) {
        Ok(t) => t,
        Err(_) => {
            proof {
                assert(false);
            }
            return Box::new(TransferDescriptorStorage { descriptor: TransferDescriptor([0u32; 8]), buf: Vec::new() });
        },
    };
    let ghost w2 = t.descriptor.0@[2];
    t.descriptor.set_data_toggle(toggle);
    proof {
        lemma_mask32_values();
        let v: u32 = if toggle { 1 } else { 0 };
        lemma_bits32_other(w2, 19, 1, v, 21, 11);
        lemma_bits32_other(w2, 19, 1, v, 15, 4);
        lemma_bits32_other(w2, 19, 1, v, 8, 7);
        lemma_bits32_other(w2, 19, 1, v, 0, 8);
    }
    t
}

/// The stages of a control transfer, as `is_control_transfer` describes them.
pub fn control_transfer(address: u8, setup: [u8; 8], data: Option<(Pid, usize)>) -> (r: Vec<
    Box<TransferDescriptorStorage>,
>)
    requires
        address <= 0x7e,
        data matches Some((p, n)) ==> n <= USB_MAX_PACKET_LEN,
    ensures
        is_control_transfer(r@, address, setup@, data),
{
    let mut setup_buf: Vec<u8> = Vec::new();
    let mut i: usize = 0;
    while i < 8
        invariant
            i <= 8,
            setup_buf@ == setup@.subrange(0, i as int),
        decreases 8 - i,
    {
        setup_buf.push(setup[i]);
        i = i + 1;
        proof {
            assert(setup_buf@ =~= setup@.subrange(0, i as int));
        }
    }
    proof {
        assert(setup@.subrange(0, 8) =~= setup@);
    }
    let mut work: Vec<Box<TransferDescriptorStorage>> = Vec::new();
    work.push(packet_td(address, Pid::Setup, setup_buf, false));
    let status = match data {
        Some((pid, n)) => {
            work.push(packet_td(address, pid, zeroed(n), false));
            match pid {
                Pid::In => Pid::Out,
                _ => Pid::In,
            }
        },
        None => Pid::In,
    };
    work.push(packet_td(address, status, Vec::new(), true));
    work
}

/// The data stage's buffer of a completed control transfer.
pub fn data_stage_buffer(work: Vec<Box<TransferDescriptorStorage>>) -> (r: Vec<u8>)
    requires
        work@.len() >= 2,
    ensures
        r@ == work@[1].buf@,
{
    let mut work = work;
    let t = work.remove(1);
    t.buf
}

impl Uhci {
    /// GET_DESCRIPTOR for the 18-byte device descriptor.
    pub fn get_descriptor(address: u8) -> (r: Vec<Box<TransferDescriptorStorage>>)
        requires
            address <= 0x7e,
        ensures
            is_control_transfer(r@, address, seq![0x80u8, 0x06, 0x00, 0x01, 0x00, 0x00, 0x12, 0x00], Some((Pid::In, 18usize))),
    {
        control_transfer(address, [0x80, 0x06, 0x00, 0x01, 0x00, 0x00, 0x12, 0x00], Some((Pid::In, 18)))
    }

    /// SET_ADDRESS, sent to the default address 0.
    pub fn set_address(new_address: u8) -> (r: Vec<Box<TransferDescriptorStorage>>)
        ensures
            is_control_transfer(r@, 0, seq![0x00u8, 0x05, new_address, 0x00, 0x00, 0x00, 0x00, 0x00], None),
    {
        control_transfer(0, [0x00, 0x05, new_address, 0x00, 0x00, 0x00, 0x00, 0x00], None)
    }

    /// GET_DESCRIPTOR for a configuration descriptor of up to 128 bytes.
    pub fn get_configuration(address: u8) -> (r: Vec<Box<TransferDescriptorStorage>>)
        requires
            address <= 0x7e,
        ensures
            is_control_transfer(r@, address, seq![0x80u8, 0x06, 0x00, 0x02, 0x00, 0x00, 0x80, 0x00], Some((Pid::In, 128usize))),
    {
        control_transfer(address, [0x80, 0x06, 0x00, 0x02, 0x00, 0x00, 0x80, 0x00], Some((Pid::In, 128)))
    }

    pub fn set_configuration(address: u8, config: u8) -> (r: Vec<Box<TransferDescriptorStorage>>)
        requires
            address <= 0x7e,
        ensures
            is_control_transfer(r@, address, seq![0x00u8, 0x09, config, 0x00, 0x00, 0x00, 0x00, 0x00], None),
    {
        control_transfer(address, [0x00, 0x09, config, 0x00, 0x00, 0x00, 0x00, 0x00], None)
    }

    /// HID GET_REPORT of an 8-byte input report.
    pub fn hid_report(address: u8) -> (r: Vec<Box<TransferDescriptorStorage>>)
        requires
            address <= 0x7e,
        ensures
            is_control_transfer(r@, address, seq![0xa1u8, 0x01, 0x00, 0x00, 0x00, 0x00, 0x08, 0x00], Some((Pid::In, 8usize))),
    {
        control_transfer(address, [0xa1, 0x01, 0x00, 0x00, 0x00, 0x00, 0x08, 0x00], Some((Pid::In, 8)))
    }
}

pub const PORT1_OFFSET: u16 = 0x10;

pub const PORT2_OFFSET: u16 = 0x12;

/// Where a port reset stands; each step starts with a read of the port register.
#[derive(Debug, PartialEq, Eq, Clone, Copy, Structural)]
pub enum PortResetState {
    Start,
    ReleaseReset,
    Enable,
    Check,
    Done(bool),
}

/// What a step asks for: writes to the port register in order, then a wait.
pub struct PortResetStep {
    pub next: PortResetState,
    pub writes: Vec<u16>,
    pub sleep_ms: u64,
}

/// `v` with reset, low speed, resume detect, both change bits and enable cleared;
/// writing 0 to the connect-change bit leaves it set in hardware.
pub open spec fn port_release_value(v: u16) -> u16 {
    with_bit16(with_bit16(with_bit16(with_bit16(with_bit16(with_bit16(v, 1, false), 2, false), 3, false), 6, false), 8, false), 9, false)
}

/// Next state, writes and wait of a port reset step from `state`, the register reading `status`.
pub open spec fn port_reset_transition(state: PortResetState, status: u16) -> (PortResetState, Seq<u16>, u64) {
    match state {
        PortResetState::Start => (PortResetState::ReleaseReset, seq![with_bit16(status, 9, true)], 50),
        PortResetState::ReleaseReset => (PortResetState::Enable, seq![port_release_value(status)], 5),
        PortResetState::Enable => (
            PortResetState::Check,
            seq![with_bit16(status, 1, true), with_bit16(with_bit16(status, 1, true), 2, true)],
            5,
        ),
        PortResetState::Check => (PortResetState::Done(bit16(status, 2) && bit16(status, 0)), Seq::empty(), 0),
        PortResetState::Done(b) => (PortResetState::Done(b), Seq::empty(), 0),
    }
}

impl Uhci {
    /// One step of a port reset, given the port register as read now: assert reset for
    /// 50 ms, release it and wait 5 ms, acknowledge connect change, enable, wait 5 ms,
    /// then succeed when the port is enabled and connected.
    pub fn reset_port(state: PortResetState, status: u16) -> (r: PortResetStep)
        ensures
            (r.next, r.writes@, r.sleep_ms) == port_reset_transition(state, status),
    {
        let mut writes: Vec<u16> = Vec::new();
        let mut val = UsbPortStatus(status);
        match state {
            PortResetState::Start => {
                val.set_reset(true);
                writes.push(val.0);
                proof {
                    assert(writes@ =~= seq![with_bit16(status, 9, true)]);
                }
                PortResetStep { next: PortResetState::ReleaseReset, writes, sleep_ms: 50 }
            },
            PortResetState::ReleaseReset => {
                val.set_connected_changed(false);
                val.set_port_enabled(false);
                val.set_port_enable_changed(false);
                val.set_resume_detected(false);
                val.set_low_speed(false);
                val.set_reset(false);
                writes.push(val.0);
                proof {
                    assert(writes@ =~= seq![port_release_value(status)]);
                }
                PortResetStep { next: PortResetState::Enable, writes, sleep_ms: 5 }
            },
            PortResetState::Enable => {
                val.set_connected_changed(true);
                writes.push(val.0);
                val.set_port_enabled(true);
                writes.push(val.0);
                proof {
                    assert(writes@ =~= seq![with_bit16(status, 1, true), with_bit16(with_bit16(status, 1, true), 2, true)]);
                }
                PortResetStep { next: PortResetState::Check, writes, sleep_ms: 5 }
            },
            PortResetState::Check => {
                let ok = val.port_enabled() && val.connected();
                PortResetStep { next: PortResetState::Done(ok), writes, sleep_ms: 0 }
            },
            PortResetState::Done(b) => PortResetStep { next: PortResetState::Done(b), writes, sleep_ms: 0 },
        }
    }
}

} // verus!
