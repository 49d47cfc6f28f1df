use balancebeam::inferior::{align_addr_to_word, replace_byte, Breakpoint, BreakpointTable, INTERRUPT};

#[test]
fn addresses_align_down_to_the_word() {
    let word = std::mem::size_of::<usize>();
    assert_eq!(align_addr_to_word(0), 0);
    assert_eq!(align_addr_to_word(1), 0);
    assert_eq!(align_addr_to_word(word - 1), 0);
    assert_eq!(align_addr_to_word(word), word);
    assert_eq!(align_addr_to_word(word + 1), word);
    assert_eq!(align_addr_to_word(0x401136), 0x401136 - 0x401136 % word);
    assert_eq!(align_addr_to_word(usize::MAX), usize::MAX - (word - 1));
    for addr in 0..200usize {
        assert_eq!(align_addr_to_word(addr), addr - addr % word);
    }
}

#[test]
fn interrupt_instruction_is_int3() {
    assert_eq!(INTERRUPT, 0xcc);
}

#[test]
fn byte_is_replaced_where_it_stands() {
    let word: u64 = 0x1122_3344_5566_7788;
    assert_eq!(replace_byte(word, 0, 0xcc), (0x88, 0x1122_3344_5566_77cc));
    assert_eq!(replace_byte(word, 1, 0xcc), (0x77, 0x1122_3344_5566_cc88));
    assert_eq!(replace_byte(word, 3, 0xcc), (0x55, 0x1122_3344_cc66_7788));
    assert_eq!(replace_byte(word, 7, 0xcc), (0x11, 0xcc22_3344_5566_7788));
    assert_eq!(replace_byte(word, 7, 0x00), (0x11, 0x0022_3344_5566_7788));
    assert_eq!(replace_byte(0, 4, 0xff), (0, 0x0000_00ff_0000_0000));
}

#[test]
fn putting_the_old_byte_back_restores_the_word() {
    let word: u64 = 0xdead_beef_0bad_f00d;
    for offset in 0..8usize {
        let (orig, patched) = replace_byte(word, offset, INTERRUPT);
        let (was, restored) = replace_byte(patched, offset, orig);
        assert_eq!(was, INTERRUPT);
        assert_eq!(restored, word);
    }
}

#[test]
fn breakpoints_are_counted_by_address() {
    let mut table = BreakpointTable::new();
    assert_eq!(table.get_breakpoints_count(), 0);
    table.set_breakpoint(0x1000, 0x55);
    table.set_breakpoint(0x2000, 0x48);
    assert_eq!(table.get_breakpoints_count(), 2);
    table.set_breakpoint(0x1000, 0x90);
    assert_eq!(table.get_breakpoints_count(), 2);
    assert_eq!(table.hit(0x1001), Some(Breakpoint { addr: 0x1000, orig_byte: 0x90 }));
}

#[test]
fn breakpoint_is_hit_one_byte_behind_it() {
    let mut table = BreakpointTable::new();
    table.set_breakpoint(0x1000, 0x55);
    table.set_breakpoint(0, 0x01);
    assert_eq!(table.hit(0x1001), Some(Breakpoint { addr: 0x1000, orig_byte: 0x55 }));
    assert_eq!(table.hit(0x1000), None);
    assert_eq!(table.hit(0x1002), None);
    assert_eq!(table.hit(1), Some(Breakpoint { addr: 0, orig_byte: 0x01 }));
    assert_eq!(table.hit(0), None);
}
