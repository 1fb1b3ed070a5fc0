use cpu::error::EmuError;
use cpu::registers::Core;

#[test]
fn core_test() {
    let mut core = Core::new();
    core.update_reg("rax", 0x1234abcdff11ff11).unwrap();
    let _e = core.get_reg_value("%eax").unwrap();
    assert_eq!(_e, 0xff11ff11);
}

#[test]
fn test_reg() {
    let mut u1 = Core::new();
    u1.update_reg("rax", 0x12345678ffffabcd).unwrap();
    assert_eq!(u1.get_reg_value("%rax").unwrap(), 0x12345678ffffabcd);
    assert_eq!(u1.get_reg_value("%eax").unwrap(), 0xffffabcd);
    assert_eq!(u1.get_reg_value("%ax").unwrap(), 0xabcd);
    println!("{:x}", u1.get_reg_value("%ah").unwrap());
    println!("{:x}", u1.get_reg_value("%al").unwrap());
    assert_eq!(u1.get_reg_value("%ah").unwrap(), 0xab);
    assert_eq!(u1.get_reg_value("%al").unwrap(), 0xcd);
}

#[test]
fn test_flag() {
    let mut core = Core::new();
    core.flags.cf = true;
    core.flags.of = true;
    assert_eq!(true, core.flags.cf);
    assert_eq!(true, core.flags.of);
    assert_eq!(false, core.flags.sf);
    assert_eq!(false, core.flags.zf);
    core.flags_reset();
    assert_eq!(false, core.flags.cf);
    assert_eq!(false, core.flags.of);
    assert_eq!(false, core.flags.sf);
    assert_eq!(false, core.flags.zf);
}

#[test]
fn rct_do_work() {
    let mut core = Core::new();
    let x = 0x0000_ffff_0000_f0f2u64;
    core.update_reg("rax", x).unwrap();
    assert_eq!(core.get_reg_value("%rax").unwrap(), 0x0000_ffff_0000_f0f2u64);
    assert_eq!(core.get_reg_value("%eax").unwrap(), 0x0000_f0f2u64);
    assert_eq!(core.get_reg_value("%ax").unwrap(), 0xf0f2u64);
    assert_eq!(core.get_reg_value("%ah").unwrap(), 0xf0u64);
    assert_eq!(core.get_reg_value("%al").unwrap(), 0xf2u64);
}

#[test]
fn sub_register_writes_keep_other_bits() {
    let mut core = Core::new();
    core.update_reg("rbx", 0x1122_3344_5566_7788).unwrap();
    core.update_reg("bl", 0xff).unwrap();
    assert_eq!(core.get_reg_value("%rbx").unwrap(), 0x1122_3344_5566_77ff);
    core.update_reg("bh", 0x1ee).unwrap();
    assert_eq!(core.get_reg_value("%rbx").unwrap(), 0x1122_3344_5566_eeff);
    core.update_reg("bx", 0xabcd).unwrap();
    assert_eq!(core.get_reg_value("%rbx").unwrap(), 0x1122_3344_5566_abcd);
    core.update_reg("ebx", 0x1_0000_0001).unwrap();
    assert_eq!(core.get_reg_value("%rbx").unwrap(), 0x1122_3344_0000_0001);
}

#[test]
fn numbered_and_index_registers() {
    let mut core = Core::new();
    core.update_reg("r15", 0xdead_beef_0000_1234).unwrap();
    assert_eq!(core.get_reg_value("%r15d").unwrap(), 0x0000_1234);
    assert_eq!(core.get_reg_value("%r15w").unwrap(), 0x1234);
    assert_eq!(core.get_reg_value("%r15b").unwrap(), 0x34);
    core.update_reg("r8b", 0x99).unwrap();
    assert_eq!(core.get_reg_value("%r8").unwrap(), 0x99);
    core.update_reg("rsi", 0xabcd).unwrap();
    assert_eq!(core.get_reg_value("%sil").unwrap(), 0xcd);
    assert_eq!(core.get_reg_value("%sih").unwrap(), 0xab);
    core.update_reg("rip", 0x400000).unwrap();
    assert_eq!(core.get_reg_value("%eip").unwrap(), 0x400000);
    assert_eq!(core.regs[16], 0x400000);
}

#[test]
fn unknown_register_names() {
    let mut core = Core::new();
    assert_eq!(core.update_reg("rzx", 1), Err(EmuError::UnknownRegister));
    assert_eq!(core.update_reg("%rax", 1), Err(EmuError::UnknownRegister));
    assert_eq!(core.get_reg_value("rax"), None);
    assert_eq!(core.get_reg_value("%r16"), None);
    assert_eq!(core.regs, [0u64; 17]);
}
