use cpu::address::pa_address;

#[test]
fn address_do_test() {
    println!("hello world");
    let mut _c = pa_address::new(0b10000000_000001);
    assert_eq!(_c.address_value, 0b100000_00000001);
    assert_eq!(_c.co(), 0x1);
    assert_eq!(_c.ci(), 0x0);
    assert_eq!(_c.ct(), 0x2);
    _c.update_ppo(0b11111111_1111);
    assert_eq!(_c.address_value, 0b1011111111_1111)
}

#[test]
fn codec_fields_of_a_full_address() {
    let a = pa_address::new(0xfabc_dfff_fffa_bcdd);
    assert_eq!(a.ppo(), 0xcdd);
    assert_eq!(a.ppn(), 0xcdffffffab);
    assert_eq!(a.ct(), 0xcdffffffab);
    assert_eq!(a.co(), 0x1d);
    assert_eq!(a.ci(), 0x33);
    assert_eq!(a.paddr_value(), 0xcdfff_fffa_bcdd);
}

#[test]
fn codec_round_trip_keeps_address() {
    for v in [0u64, 1, 0xfff, 0x1000, 0xfabc_dfff_fffa_bcdd, u64::MAX] {
        let mut a = pa_address::new(v);
        let ppo = a.ppo() as u64;
        a.update_ppo(ppo);
        assert_eq!(a.address_value, v);
        let ppn = a.ppn() as u64;
        a.update_ppn(ppn);
        assert_eq!(a.address_value, v);
    }
}

#[test]
fn codec_update_replaces_one_component() {
    let mut a = pa_address::new(0xffff_ffff_ffff_ffff);
    a.update_ppo(0x123);
    assert_eq!(a.address_value, 0xffff_ffff_ffff_f123);
    a.update_ppn(0x5);
    assert_eq!(a.address_value, 0xfff0_0000_0000_5123);
    a.update_ppo(0x1_0abc);
    assert_eq!(a.address_value, 0xfff0_0000_0000_5abc);
    a.update_value(7);
    assert_eq!(a.address_value, 7);
}
