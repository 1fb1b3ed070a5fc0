use cpu::elf::{
    elf, parse_rl, parse_sht, parse_symtab, split_commas, strip_comment, ElfError, RelType,
    StBind, StType,
};

#[test]
fn elf_struct_do_work() {
    println!("hello world");
}

#[test]
fn test_parse_sht() {
    let str = ".text,0x0,5,22";
    let sht = parse_sht(str).unwrap();
    assert_eq!(".text", sht.sh_name);
    assert_eq!(0x0, sht.sh_addr);
    assert_eq!(5, sht.sh_offset);
    assert_eq!(22, sht.sh_size);
}

#[test]
fn section_header_errors() {
    assert_eq!(parse_sht(".text,0x0,5").unwrap_err(), ElfError::MissingField);
    assert_eq!(parse_sht(".text,0x0,five,22").unwrap_err(), ElfError::BadNumber);
    assert_eq!(parse_sht(".data,0x40,7,3,extra").unwrap().sh_addr, 0x40);
}

#[test]
fn symbol_lines() {
    let fields: Vec<&str> = "sum,STB_GLOBAL,STT_FUNC,.text,0,22".split(',').collect();
    let st = parse_symtab(fields).unwrap();
    assert_eq!(st.st_name, "sum");
    assert_eq!(st.st_bind, StBind::StbGlobal);
    assert_eq!(st.st_type, StType::SttFunc);
    assert_eq!(st.st_shndx, ".text");
    assert_eq!(st.st_value, 0);
    assert_eq!(st.st_size, 22);
    let bad: Vec<&str> = "sum,STB_NONE,STT_FUNC,.text,0,22".split(',').collect();
    assert_eq!(parse_symtab(bad).unwrap_err(), ElfError::UnknownName);
    let short: Vec<&str> = "sum,STB_LOCAL".split(',').collect();
    assert_eq!(parse_symtab(short).unwrap_err(), ElfError::MissingField);
}

#[test]
fn relocation_lines() {
    let fields: Vec<&str> = "17,7,R_X86_64_PC32,1,-4     ".split(',').collect();
    let rl = parse_rl(fields).unwrap();
    assert_eq!(rl.r_row, 17);
    assert_eq!(rl.r_col, 7);
    assert_eq!(rl.rel_type, RelType::RX86_64Pc32);
    assert_eq!(rl.sym, 1);
    assert_eq!(rl.r_addend, -4);
    let big: Vec<&str> = "1,2,R_X86_64_32,4294967296,0".split(',').collect();
    assert_eq!(parse_rl(big), Err(ElfError::BadNumber));
    let unknown: Vec<&str> = "1,2,R_X86_64_64,1,0".split(',').collect();
    assert_eq!(parse_rl(unknown), Err(ElfError::UnknownName));
}

#[test]
fn listing_lines_lose_comments() {
    assert_eq!(strip_comment("// header"), None);
    assert_eq!(strip_comment(""), None);
    assert_eq!(strip_comment("22 // lines"), Some("22 ".to_string()));
    assert_eq!(strip_comment(".text,0x0,5,22"), Some(".text,0x0,5,22".to_string()));
    assert_eq!(split_commas("a,,b"), vec!["a".to_string(), String::new(), "b".to_string()]);
}

#[test]
fn object_file_holds_its_tables() {
    let e = elf::new(vec!["1".to_string()], 1, 0, vec![], 0, vec![], 0, vec![], 0, vec![]);
    assert_eq!(e.line_count, 1);
    assert_eq!(e.buffer, vec!["1".to_string()]);
}
