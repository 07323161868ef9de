use memory_addr::VirtAddr;
use page_table_entry::MappingFlags;
use page_table_multiarch::arch::{InvTlbOp, LA64MetaData};
use page_table_multiarch::entry::{
    FLAG_DEVICE, FLAG_EXECUTE, FLAG_READ, FLAG_UNCACHED, FLAG_USER, FLAG_WRITE,
};
use page_table_multiarch::TlbFlush;

#[test]
fn page_walk_controller_values() {
    // PWCL: PTBase 12, PTWidth 9, Dir1Base 21, Dir1Width 9, Dir2 disabled
    assert_eq!(LA64MetaData::PWCL_VALUE, 12 | (9 << 5) | (21 << 10) | (9 << 15));
    assert_eq!(LA64MetaData::PWCL_VALUE & 0x1f, 12);
    assert_eq!((LA64MetaData::PWCL_VALUE >> 5) & 0x1f, 9);
    assert_eq!((LA64MetaData::PWCL_VALUE >> 10) & 0x1f, 21);
    assert_eq!((LA64MetaData::PWCL_VALUE >> 15) & 0x1f, 9);
    assert_eq!((LA64MetaData::PWCL_VALUE >> 20) & 0x1f, 0);
    assert_eq!((LA64MetaData::PWCL_VALUE >> 25) & 0x1f, 0);
    // PWCH: Dir3Base 30, Dir3Width 9, Dir4 disabled
    assert_eq!(LA64MetaData::PWCH_VALUE, 30 | (9 << 6));
    assert_eq!(LA64MetaData::PWCH_VALUE & 0x3f, 30);
    assert_eq!((LA64MetaData::PWCH_VALUE >> 6) & 0x3f, 9);
    assert_eq!((LA64MetaData::PWCH_VALUE >> 12) & 0x3f, 0);
    assert_eq!((LA64MetaData::PWCH_VALUE >> 18) & 0x3f, 0);
}

#[test]
fn adapter_constants() {
    assert_eq!(LA64MetaData::LEVELS, 3);
    assert_eq!(LA64MetaData::PA_MAX_BITS, 40);
    assert_eq!(LA64MetaData::VA_MAX_BITS, 40);
    let m = LA64MetaData::metadata();
    assert_eq!(m.levels, 3);
    assert_eq!(m.pa_max_bits, 40);
}

#[test]
fn invalidation_sequences() {
    // single address: barrier, then clear non-global entries matching
    // the current address-space identifier and this address
    let one = LA64MetaData::flush_sequence(TlbFlush::Address(0x1000));
    assert_eq!(
        one,
        InvTlbOp { barrier: true, op: 0x05, asid: 0, addr: 0x1000 }
    );
    // full flush: barrier, then clear all entries, operands zeroed
    let all = LA64MetaData::flush_sequence(TlbFlush::All);
    assert_eq!(all, InvTlbOp { barrier: true, op: 0x00, asid: 0, addr: 0 });
}

#[test]
fn attribute_bits_match_generic_entry_flags() {
    // the library's attribute words use the generic entry crate's bit
    // assignment, so embedders convert by `bits` alone
    assert_eq!(MappingFlags::READ.bits() as u64, FLAG_READ);
    assert_eq!(MappingFlags::WRITE.bits() as u64, FLAG_WRITE);
    assert_eq!(MappingFlags::EXECUTE.bits() as u64, FLAG_EXECUTE);
    assert_eq!(MappingFlags::USER.bits() as u64, FLAG_USER);
    assert_eq!(MappingFlags::DEVICE.bits() as u64, FLAG_DEVICE);
    assert_eq!(MappingFlags::UNCACHED.bits() as u64, FLAG_UNCACHED);
}

#[test]
fn virtual_addresses_convert_losslessly() {
    let v = VirtAddr::from(0x1234_5000usize);
    assert_eq!(v.as_usize() as u64, 0x1234_5000u64);
}
