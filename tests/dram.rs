use cpu::dram::{
    bus_read_cacheline, bus_write_cacheline, read64bits_dram, read_inst_dram, write64bits_dram,
    write_inst, write_inst_dram, PhysicalMemory,
};
use cpu::error::EmuError;
use cpu::mmu::va2pa;

#[test]
fn test_write_and_read() {
    let mut pm = PhysicalMemory::new();
    let value: u64 = 0x5574d795faa0;
    println!("{:x}", value);
    let va_addr = 0x00007ffffffee1e8;
    println!("{}", va2pa(0x00007ffffffee210).unwrap());
    println!("{}", va2pa(0x00007ffffffee200).unwrap());
    println!("{}", va2pa(0x00007ffffffee1f8).unwrap());
    println!("{}", va2pa(0x00007ffffffee1f0).unwrap());
    println!("{}", va2pa(0x00007ffffffee1e8).unwrap());
    println!("{}", va2pa(0x00007ffffffee1c8).unwrap());
    write64bits_dram(&mut pm, va2pa(0x00007ffffffee210).unwrap(), 0x0000000008000660).unwrap();
    write64bits_dram(&mut pm, va2pa(0x00007ffffffee200).unwrap(), 0xabcd).unwrap();
    write64bits_dram(&mut pm, va2pa(0x00007ffffffee1c0).unwrap(), 0xabcd).unwrap();
    write64bits_dram(&mut pm, va2pa(0x00007ffffffee1c8).unwrap(), 0x12340000).unwrap();
    write64bits_dram(&mut pm, va2pa(0x00007ffffffee1e0).unwrap(), 0x7ffffffee210).unwrap();
    write64bits_dram(&mut pm, va2pa(0x00007ffffffee1e8).unwrap(), 0x5574d795faa0).unwrap();
    write64bits_dram(&mut pm, va2pa(0x00007ffffffee1f0).unwrap(), 0x8000660).unwrap();
    write64bits_dram(&mut pm, va2pa(0x00007ffffffee1f8).unwrap(), 0x12340000).unwrap();
    let read_value = read64bits_dram(&pm, va2pa(va_addr).unwrap()).unwrap();
    assert_eq!(read_value, value);
}

fn sum_program() -> Vec<&'static str> {
    vec![
        "push   %rbp                             ",
        "mov    %rsp,%rbp                        ",
        "mov    %rdi,-0x18(%rbp)                 ",
        "mov    %rsi,-0x20(%rbp)                 ",
        "mov    -0x18(%rbp),%rdx                 ",
        "mov    -0x20(%rbp),%rax                 ",
        "add    %rdx,%rax                        ",
        "mov    %rax,-0x8(%rbp)                  ",
        "mov    -0x8(%rbp),%rax                  ",
        "pop    %rbp                             ",
        "retq                                    ",
        "mov    %rdx,%rsi                        ",
        "mov    %rax,%rdi                        ",
        "callq  $0x5574d795f020                  ",
        "mov    %rax,-0x8(%rbp)                  ",
    ]
}

#[test]
fn test_write_inst() {
    let mut pm = PhysicalMemory::new();
    let insts_vec = sum_program();
    write_inst(&mut pm, &insts_vec, 0x5574d795f020).unwrap();
    let at = |va: u64| read_inst_dram(&pm, va2pa(va).unwrap()).unwrap();
    assert_eq!(insts_vec[1].as_bytes(), at(0x5574d795f060).as_slice());
    assert_eq!(insts_vec[2].as_bytes(), at(0x5574d795f0a0).as_slice());
    assert_eq!(insts_vec[3].as_bytes(), at(0x5574d795f0e0).as_slice());
    assert_eq!(insts_vec[4].as_bytes(), at(0x5574d795f120).as_slice());
    assert_eq!(insts_vec[5].as_bytes(), at(0x5574d795f160).as_slice());
    assert_eq!(insts_vec[6].as_bytes(), at(0x5574d795f1a0).as_slice());
    assert_eq!(insts_vec[7].as_bytes(), at(0x5574d795f1e0).as_slice());
    assert_eq!(insts_vec[8].as_bytes(), at(0x5574d795f220).as_slice());
    assert_eq!(insts_vec[9].as_bytes(), at(0x5574d795f260).as_slice());
    assert_eq!(insts_vec[10].as_bytes(), at(0x5574d795f2a0).as_slice());
    assert_eq!(insts_vec[11].as_bytes(), at(0x5574d795f2e0).as_slice());
    assert_eq!(insts_vec[12].as_bytes(), at(0x5574d795f320).as_slice());
    assert_eq!(insts_vec[13].as_bytes(), at(0x5574d795f360).as_slice());
    assert_eq!(insts_vec[14].as_bytes(), at(0x5574d795f3a0).as_slice());
}

#[test]
fn test_inst_part2() {
    let insts_vec = vec![
        "push   %rbp                             ",
        "mov    %rsp,%rbp                        ",
        "sub    $0x10,%rsp                       ",
        "mov    %rdi,-0x8(%rbp)                  ",
        "cmpq   $0x0,-0x8(%rbp)                  ",
        "jne    0x400200                         ",
        "mov    $0x0,%eax                        ",
        "jmp    0x400380                         ",
        "mov    -0x8(%rbp),%rax                  ",
        "sub    $0x1,%rax                        ",
        "mov    %rax,%rdi                        ",
        "callq  0x00400000                       ",
        "mov    -0x8(%rbp),%rdx                  ",
        "add    %rdx,%rax                        ",
        "leaveq                                  ",
        "retq                                    ",
        "mov    $0x3,%edi                        ",
        "callq  0x00400000                       ",
        "mov    %rax,-0x8(%rbp)                  ",
    ];
    let mut pm = PhysicalMemory::new();
    write_inst(&mut pm, &insts_vec, 0x400000).unwrap();
    for (i, va) in (0x400000u64..=0x400480).step_by(0x40).enumerate() {
        assert_eq!(insts_vec[i].as_bytes(), read_inst_dram(&pm, va2pa(va).unwrap()).unwrap().as_slice());
    }
}

#[test]
fn te() {
    let c: u64 = 0x5574d795f020;
    for i in 0..19 {
        println!("0x{:x}", c + i * 0x40);
    }
}

#[test]
fn test_cache_ddr() {
    let mut pm = PhysicalMemory::new();
    let mut l: [u8; 64] = [0; 64];
    let mut b: [u8; 64] = [0; 64];
    l[0] = 0;
    l[1] = 1;
    l[2] = 2;
    l[3] = 3;
    bus_write_cacheline(&mut pm, 0x100, &l).unwrap();
    bus_read_cacheline(&pm, 0x100, &mut b).unwrap();
    assert_eq!(0, b[0]);
    assert_eq!(1, b[1]);
    assert_eq!(2, b[2]);
    assert_eq!(3, b[3]);
}

#[test]
fn words_are_little_endian() {
    let mut pm = PhysicalMemory::new();
    write64bits_dram(&mut pm, 10, 0x0102_0304_0506_0708).unwrap();
    assert_eq!(pm.get_byte(10), Some(0x08));
    assert_eq!(pm.get_byte(17), Some(0x01));
    assert_eq!(read64bits_dram(&pm, 9), Ok(0x02_0304_0506_0708_00));
}

#[test]
fn accesses_past_the_end_are_out_of_bounds() {
    let mut pm = PhysicalMemory::new();
    assert_eq!(pm.len(), 65535);
    assert_eq!(read64bits_dram(&pm, 65528), Err(EmuError::OutOfBounds));
    assert_eq!(read64bits_dram(&pm, 65527), Ok(0));
    assert_eq!(write64bits_dram(&mut pm, u64::MAX, 1), Err(EmuError::OutOfBounds));
    let mut b = [7u8; 64];
    assert_eq!(bus_read_cacheline(&pm, 65500, &mut b), Err(EmuError::OutOfBounds));
    assert_eq!(b, [7u8; 64]);
    assert_eq!(write_inst_dram(&mut pm, 65500, "retq"), Err(EmuError::OutOfBounds));
    assert_eq!(read_inst_dram(&pm, 65500), Err(EmuError::OutOfBounds));
}

#[test]
fn instruction_records_are_padded_and_trimmed() {
    let mut pm = PhysicalMemory::new();
    write_inst_dram(&mut pm, 0, "retq").unwrap();
    let text = read_inst_dram(&pm, 0).unwrap();
    assert_eq!(text.len(), 40);
    assert_eq!(&text[..5], b"retq ");
    assert_eq!(read_inst_dram(&pm, 100).unwrap(), Vec::<u8>::new());
}

#[test]
fn program_stops_at_the_first_record_that_does_not_fit() {
    let mut pm = PhysicalMemory::new();
    let insts = vec!["retq", "leaveq", "retq"];
    // Slots at 65440, 65504 and 0 (after folding): the second does not fit.
    assert_eq!(write_inst(&mut pm, &insts, 65440), Err(EmuError::OutOfBounds));
    assert_eq!(&read_inst_dram(&pm, 65440).unwrap()[..4], b"retq");
    assert_eq!(read_inst_dram(&pm, 0).unwrap(), Vec::<u8>::new());
}
