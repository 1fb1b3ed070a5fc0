use cpu::dram::{read64bits_dram, write64bits_dram, write_inst, PhysicalMemory};
use cpu::error::EmuError;
use cpu::isa::{
    hex_str2i, hex_str2u, oper_inst, parse_inst_type, parse_mm_ist, parse_od_type, step,
    str_to_inst, Operand, INST_TYPE,
};
use cpu::memory::MemorySystem;
use cpu::mmu::va2pa;
use cpu::registers::{Core, RIP, RSP};

#[test]
fn isa_test() {
    let src_value: i64 = -100;
    let dst_value = 101;
    let val = src_value + dst_value;
    let src_sign = (src_value >> 63) & 0x1;
    let dst_sign = (dst_value >> 63) & 0x1;
    let val_sign = (val >> 63) & 0x1;
    assert_eq!(src_sign, 1);
    assert_eq!(dst_sign, 0);
    assert_eq!(val_sign, 0);
}

#[test]
fn test_parse_mm_num() {
    let mut core = Core::new();
    core.update_reg("eax", 0x100).unwrap();
    core.update_reg("ecx", 0x1).unwrap();
    core.update_reg("edx", 0x3).unwrap();
    assert_eq!(Ok(0x100), parse_mm_ist("(%eax)".as_bytes(), &core));
    assert_eq!(Ok(0x104), parse_mm_ist("4(%eax)".as_bytes(), &core));
    assert_eq!(Ok(0x10c), parse_mm_ist(" 9( %eax , %edx)".as_bytes(), &core));
    assert_eq!(Ok(0x108), parse_mm_ist("260(%ecx,%edx)".as_bytes(), &core));
    assert_eq!(Ok(0x2), parse_mm_ist("-0x2(,%ecx,4)".as_bytes(), &core));
    assert_eq!(Ok(0x10c), parse_mm_ist("(%eax,%edx,4)".as_bytes(), &core));
}

#[test]
fn memory_operand_errors() {
    let mut core = Core::new();
    core.update_reg("r8", 0x40).unwrap();
    assert_eq!(parse_mm_ist("0x10(%r8)".as_bytes(), &core), Ok(0x50));
    assert_eq!(parse_mm_ist("4(%eax".as_bytes(), &core), Err(EmuError::MalformedOperand));
    assert_eq!(parse_mm_ist("4[%eax]".as_bytes(), &core), Err(EmuError::MalformedOperand));
    assert_eq!(parse_mm_ist("0xzz(%eax)".as_bytes(), &core), Err(EmuError::MalformedOperand));
    assert_eq!(parse_mm_ist("(%foo)".as_bytes(), &core), Err(EmuError::UnknownRegister));
    assert_eq!(parse_mm_ist("-8(%rax)".as_bytes(), &core), Ok(u64::MAX - 7));
}

#[test]
fn test_inst_type_parse() {
    let i1: Vec<&str> = "mov callq jne add".split(" ").collect();
    assert_eq!(INST_TYPE::MOV, parse_inst_type(i1[0]).unwrap());
    assert_eq!(INST_TYPE::CALL, parse_inst_type(i1[1]).unwrap());
    assert_eq!(INST_TYPE::JNE, parse_inst_type(i1[2]).unwrap());
    assert_eq!(INST_TYPE::ADD, parse_inst_type(i1[3]).unwrap());
    assert_eq!(parse_inst_type("nop"), None);
    assert_eq!(parse_inst_type("leaveq"), Some(INST_TYPE::LEAVEQ));
}

#[test]
fn do_hello() {
    let v = "-4     ".trim_end_matches(" ");
    println!("{:?}", v.parse::<i64>().unwrap());
    assert_eq!(hex_str2i(v), Ok(-4));
}

#[test]
fn number_parsing() {
    assert_eq!(hex_str2u(""), Ok(0));
    assert_eq!(hex_str2u("0x0"), Ok(0));
    assert_eq!(hex_str2u("0x5574d795f020"), Ok(0x5574d795f020));
    assert_eq!(hex_str2u("0xFF"), Ok(255));
    assert_eq!(hex_str2u("18446744073709551615"), Ok(u64::MAX));
    assert_eq!(hex_str2u("18446744073709551616"), Err(EmuError::MalformedOperand));
    assert_eq!(hex_str2u("0x"), Err(EmuError::MalformedOperand));
    assert_eq!(hex_str2u("12a"), Err(EmuError::MalformedOperand));
    assert_eq!(hex_str2u("$0x10"), Ok(16));
    assert_eq!(hex_str2u("$0x400200"), Ok(0x400200));
    assert_eq!(hex_str2u("$3"), Ok(3));
    assert_eq!(hex_str2u("$$3"), Err(EmuError::MalformedOperand));
    assert_eq!(hex_str2i("-0x18"), Ok(-24));
    assert_eq!(hex_str2i("-9223372036854775808"), Ok(i64::MIN));
    assert_eq!(hex_str2i("9223372036854775808"), Err(EmuError::MalformedOperand));
}

#[test]
fn operand_kinds() {
    let mut core = Core::new();
    core.update_reg("rbp", 0x100).unwrap();
    assert_eq!(parse_od_type(b"", &core), Ok(Operand::Empty));
    assert_eq!(parse_od_type(b"$0x10", &core), Ok(Operand::Imm(16)));
    assert!(matches!(parse_od_type(b"%rbp", &core), Ok(Operand::Reg(0x100, _))));
    assert_eq!(parse_od_type(b"0x400200", &core), Ok(Operand::MemImm(0x400200)));
    assert_eq!(parse_od_type(b"-0x8(%rbp)", &core), Ok(Operand::MemReg(0xf8)));
    assert_eq!(parse_od_type(b"%xyz", &core), Err(EmuError::UnknownRegister));
    assert_eq!(parse_od_type(b"$q", &core), Err(EmuError::MalformedOperand));
}

#[test]
fn decode_errors() {
    let core = Core::new();
    assert_eq!(str_to_inst(b"nop", &core), Err(EmuError::NotImplemented));
    assert_eq!(str_to_inst(b"   ", &core), Err(EmuError::MalformedOperand));
    assert_eq!(str_to_inst(b"mov %rax,%rbx,%rcx", &core), Err(EmuError::MalformedOperand));
    let i = str_to_inst(b"mov    8(%rax,%rbx,2),%rcx   ", &core).unwrap();
    assert_eq!(i.inst_type, INST_TYPE::MOV);
    assert_eq!(i.src, Operand::MemReg(8));
}

fn run(core: &mut Core, mem: &mut MemorySystem, text: &str) -> Result<(), EmuError> {
    let inst = str_to_inst(text.as_bytes(), core)?;
    oper_inst(inst, core, mem)
}

#[test]
fn add_signed_overflow_flags() {
    let mut core = Core::new();
    let mut pm = MemorySystem::new(PhysicalMemory::new());
    core.update_reg("rax", 0x7FFFFFFFFFFFFFFF).unwrap();
    run(&mut core, &mut pm, "add $0x1,%rax").unwrap();
    assert_eq!(core.get_reg_value("%rax"), Some(0x8000000000000000));
    assert!(core.flags.of);
    assert!(core.flags.sf);
    assert!(!core.flags.zf);
    assert!(!core.flags.cf);
    assert_eq!(core.regs[RIP], 0x40);
}

#[test]
fn add_and_sub_carry() {
    let mut core = Core::new();
    let mut pm = MemorySystem::new(PhysicalMemory::new());
    core.update_reg("rax", u64::MAX).unwrap();
    run(&mut core, &mut pm, "add $0x1,%rax").unwrap();
    assert_eq!(core.get_reg_value("%rax"), Some(0));
    assert!(core.flags.cf && core.flags.zf && !core.flags.of && !core.flags.sf);
    run(&mut core, &mut pm, "sub $0x1,%rax").unwrap();
    assert_eq!(core.get_reg_value("%rax"), Some(u64::MAX));
    assert!(core.flags.cf && !core.flags.zf && core.flags.sf && !core.flags.of);
}

#[test]
fn cmp_equal_operands_sets_zero_flag() {
    let mut core = Core::new();
    let mut dram = PhysicalMemory::new();
    write64bits_dram(&mut dram, 0x100, 5).unwrap();
    let mut pm = MemorySystem::new(dram);
    run(&mut core, &mut pm, "cmpq $0x5,0x100").unwrap();
    assert!(core.flags.zf);
    assert!(!core.flags.cf);
    assert_eq!(pm.read_u64(0x100), Ok(5));
    run(&mut core, &mut pm, "cmpq $0x6,0x100").unwrap();
    assert!(!core.flags.zf);
    assert!(core.flags.cf);
}

#[test]
fn call_and_ret_move_the_stack_in_one_step() {
    let mut core = Core::new();
    let mut pm = MemorySystem::new(PhysicalMemory::new());
    core.update_reg("rsp", 0x800).unwrap();
    core.update_reg("rip", 0x1000).unwrap();
    run(&mut core, &mut pm, "callq $0x2000").unwrap();
    assert_eq!(core.regs[RSP], 0x7f8);
    assert_eq!(core.regs[RIP], 0x2000);
    assert_eq!(pm.read_u64(0x7f8), Ok(0x1040));
    assert_eq!(read64bits_dram(pm.dram(), 0x7f8), Ok(0));
    run(&mut core, &mut pm, "retq").unwrap();
    assert_eq!(core.regs[RIP], 0x1040);
    assert_eq!(core.regs[RSP], 0x800);
}

#[test]
fn jumps() {
    let mut core = Core::new();
    let mut pm = MemorySystem::new(PhysicalMemory::new());
    core.flags.zf = true;
    run(&mut core, &mut pm, "jne $0x500").unwrap();
    assert_eq!(core.regs[RIP], 0x40);
    assert!(core.flags.zf);
    core.flags.zf = false;
    run(&mut core, &mut pm, "jne $0x500").unwrap();
    assert_eq!(core.regs[RIP], 0x500);
    run(&mut core, &mut pm, "jmp $0x900").unwrap();
    assert_eq!(core.regs[RIP], 0x900);
    assert_eq!(run(&mut core, &mut pm, "jmp %rax"), Err(EmuError::NotImplemented));
}

#[test]
fn failed_step_leaves_machine_unchanged() {
    let mut core = Core::new();
    let mut pm = MemorySystem::new(PhysicalMemory::new());
    core.update_reg("rsp", 4).unwrap();
    assert_eq!(run(&mut core, &mut pm, "push %rax"), Err(EmuError::OutOfBounds));
    assert_eq!(core.regs[RSP], 4);
    assert_eq!(core.regs[RIP], 0);
    assert_eq!(run(&mut core, &mut pm, "mov $0x1,$0x2"), Err(EmuError::MalformedOperand));
    assert_eq!(run(&mut core, &mut pm, "pop $0x1"), Err(EmuError::MalformedOperand));
}

#[test]
fn test_retq() {
    let insts_vec = vec![
        "push   %rbp                             ", // 0  0x5574d795f020
        "mov    %rsp,%rbp                        ", // 1  0x5574d795f060
        "mov    %rdi,-0x18(%rbp)                 ", // 2  0x5574d795f0a0
        "mov    %rsi,-0x20(%rbp)                 ", // 3  0x5574d795f0e0
        "mov    -0x18(%rbp),%rdx                 ", // 4  0x5574d795f120
        "mov    -0x20(%rbp),%rax                 ", // 5  0x5574d795f160
        "add    %rdx,%rax                        ", // 6  0x5574d795f1a0
        "mov    %rax,-0x8(%rbp)                  ", // 7  0x5574d795f1e0
        "mov    -0x8(%rbp),%rax                  ", // 8  0x5574d795f220
        "pop    %rbp                             ", // 9  0x5574d795f260
        "retq                                    ", // 10 0x5574d795f2a0
        "mov    %rdx,%rsi                        ", // 11 0x5574d795f2e0  <= rip
        "mov    %rax,%rdi                        ", // 12 0x5574d795f320
        "callq  $0x5574d795f020                  ", // 13 0x5574d795f360
        "mov    %rax,-0x8(%rbp)                  ", // 14 0x5574d795f3a0
    ];
    let mut pm = PhysicalMemory::new();
    write_inst(&mut pm, &insts_vec, 0x5574d795f020).unwrap();
    let mut core = Core::new();
    core.update_reg("rax", 0x12340000).unwrap();
    core.update_reg("rbx", 0x0).unwrap();
    core.update_reg("rcx", 0x8000660).unwrap();
    core.update_reg("rdx", 0xabcd).unwrap();
    core.update_reg("rsi", 0x7ffffffee2f8).unwrap();
    core.update_reg("rdi", 0x1).unwrap();
    core.update_reg("rbp", 0x7ffffffee210).unwrap();
    core.update_reg("rsp", 0x7ffffffee1f0).unwrap();
    core.update_reg("rip", 0x5574d795f2e0).unwrap();
    write64bits_dram(&mut pm, va2pa(0x00007ffffffee210).unwrap(), 0x0000000008000660).unwrap();
    write64bits_dram(&mut pm, va2pa(0x00007ffffffee200).unwrap(), 0xabcd).unwrap();
    write64bits_dram(&mut pm, va2pa(0x00007ffffffee1f8).unwrap(), 0x12340000).unwrap();
    write64bits_dram(&mut pm, va2pa(0x00007ffffffee1f0).unwrap(), 0x8000660).unwrap();
    let mut mem = MemorySystem::new(pm);

    for _i in 0..15 {
        println!("*************************");
        step(&mut core, &mut mem).unwrap();
    }

    assert_eq!(Some(0x1234abcd), core.get_reg_value("%rax"));
    assert_eq!(Some(0x0), core.get_reg_value("%rbx"));
    assert_eq!(Some(0x8000660), core.get_reg_value("%rcx"));
    assert_eq!(Some(0x12340000), core.get_reg_value("%rdx"));
    assert_eq!(Some(0xabcd), core.get_reg_value("%rsi"));
    assert_eq!(Some(0x12340000), core.get_reg_value("%rdi"));
    assert_eq!(Some(0x7ffffffee210), core.get_reg_value("%rbp"));
    assert_eq!(Some(0x7ffffffee1f0), core.get_reg_value("%rsp"));
    assert_eq!(Some(0x5574d795f3e0), core.get_reg_value("%rip"));
}

#[test]
fn test_inst_cycle() {
    let insts_vec = vec![
        "push   %rbp                             ", // 0  0x400000
        "mov    %rsp,%rbp                        ", // 1  0x400040
        "sub    $0x10,%rsp                       ", // 2  0x400080
        "mov    %rdi,-0x8(%rbp)                  ", // 3  0x4000c0
        "cmpq   $0x0,-0x8(%rbp)                  ", // 4  0x400100
        "jne    $0x400200                        ", // 5: 0x400140 jump to 8
        "mov    $0x0,%eax                        ", // 6  0x400180
        "jmp    $0x400380                        ", // 7: 0x4001c0 jump to 14
        "mov    -0x8(%rbp),%rax                  ", // 8  0x400200
        "sub    $0x1,%rax                        ", // 9  0x400240
        "mov    %rax,%rdi                        ", // 10 0x400280
        "callq  $0x00400000                      ", // 11 0x4002c0
        "mov    -0x8(%rbp),%rdx                  ", // 12 0x400300
        "add    %rdx,%rax                        ", // 13 0x400340
        "leaveq                                  ", // 14 0x400380
        "retq                                    ", // 15 0x4003c0
        "mov    $0x3,%edi                        ", // 16 0x400400  rip
        "callq  $0x00400000                      ", // 17 0x400440
        "mov    %rax,-0x8(%rbp)                  ", // 18 0x400480
    ];
    let mut pm = PhysicalMemory::new();
    write_inst(&mut pm, &insts_vec, 0x400000).unwrap();
    let mut core = Core::new();
    core.update_reg("rax", 0x8000630).unwrap();
    core.update_reg("rbx", 0x0).unwrap();
    core.update_reg("rcx", 0x8000650).unwrap();
    core.update_reg("rdx", 0x7ffffffee328).unwrap();
    core.update_reg("rsi", 0x7ffffffee318).unwrap();
    core.update_reg("rdi", 0x1).unwrap();
    core.update_reg("rbp", 0x7ffffffee230).unwrap();
    core.update_reg("rsp", 0x7ffffffee220).unwrap();
    core.update_reg("rip", 0x400400).unwrap();
    write64bits_dram(&mut pm, va2pa(0x7ffffffee230).unwrap(), 0x8000650).unwrap();
    write64bits_dram(&mut pm, va2pa(0x7ffffffee220).unwrap(), 0x7ffffffee310).unwrap();
    let mut mem = MemorySystem::new(pm);

    for _i in 0..19 {
        println!("*************************");
        step(&mut core, &mut mem).unwrap();
        println!("{:?},{:?}", core.regs, core.flags);
    }
}

#[test]
fn recursive_sum_runs_to_completion() {
    // sum(3) = 3 + 2 + 1 + 0 through the recursive program above, until the
    // outer call returns to the record after it.
    let insts_vec = vec![
        "push   %rbp", "mov    %rsp,%rbp", "sub    $0x10,%rsp", "mov    %rdi,-0x8(%rbp)",
        "cmpq   $0x0,-0x8(%rbp)", "jne    $0x400200", "mov    $0x0,%eax", "jmp    $0x400380",
        "mov    -0x8(%rbp),%rax", "sub    $0x1,%rax", "mov    %rax,%rdi", "callq  $0x00400000",
        "mov    -0x8(%rbp),%rdx", "add    %rdx,%rax", "leaveq", "retq", "mov    $0x3,%edi",
        "callq  $0x00400000", "mov    %rax,-0x8(%rbp)",
    ];
    let mut pm = PhysicalMemory::new();
    write_inst(&mut pm, &insts_vec, 0x400000).unwrap();
    let mut core = Core::new();
    core.update_reg("rax", 0x8000630).unwrap();
    core.update_reg("rbp", 0x7ffffffee230).unwrap();
    core.update_reg("rsp", 0x7ffffffee220).unwrap();
    core.update_reg("rip", 0x400400).unwrap();
    let mut mem = MemorySystem::new(pm);
    let mut steps = 0;
    while core.regs[RIP] != 0x400480 && steps < 200 {
        step(&mut core, &mut mem).unwrap();
        steps += 1;
    }
    assert_eq!(core.regs[RIP], 0x400480);
    assert_eq!(core.get_reg_value("%rax"), Some(6));
    assert_eq!(core.regs[RSP], 0x7ffffffee220);
}
