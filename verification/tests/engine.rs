use page_table_multiarch::arch::LA64MetaData;
use page_table_multiarch::entry::{
    FLAG_DEVICE, FLAG_EXECUTE, FLAG_READ, FLAG_UNCACHED, FLAG_USER, FLAG_WRITE,
};
use page_table_multiarch::meta::{PagingMetaData, PAGE_SIZE_1G, PAGE_SIZE_2M, PAGE_SIZE_4K};
use page_table_multiarch::table::PageTable64;
use page_table_multiarch::{PagingError, TlbFlush};

fn la64_table(cap: u64) -> PageTable64 {
    PageTable64::new(LA64MetaData::metadata(), cap)
}

const RW: u64 = FLAG_READ | FLAG_WRITE;

#[test]
fn map_translate_unmap_base_page() {
    let mut t = la64_table(16);
    assert_eq!(t.translate(0x1000), Err(PagingError::NotMapped));
    assert_eq!(t.map(0x1000, 0x5000, RW, PAGE_SIZE_4K), Ok(()));
    assert_eq!(t.translate(0x1000), Ok((0x5000, RW, PAGE_SIZE_4K)));
    assert_eq!(t.unmap(0x1000), Ok(()));
    assert_eq!(t.translate(0x1000), Err(PagingError::NotMapped));
    assert_eq!(
        t.flushes().as_slice(),
        &[TlbFlush::Address(0x1000), TlbFlush::Address(0x1000)]
    );
}

#[test]
fn translate_offsets_within_page() {
    let mut t = la64_table(16);
    assert_eq!(t.map(0x3000, 0x9000, FLAG_READ, PAGE_SIZE_4K), Ok(()));
    assert_eq!(t.translate(0x3abc), Ok((0x9abc, FLAG_READ, PAGE_SIZE_4K)));
    assert_eq!(t.translate(0x3fff), Ok((0x9fff, FLAG_READ, PAGE_SIZE_4K)));
    assert_eq!(t.translate(0x4000), Err(PagingError::NotMapped));
    assert_eq!(t.translate(0x2fff), Err(PagingError::NotMapped));
}

#[test]
fn huge_page_2m_translates_offsets() {
    let mut t = la64_table(16);
    let va = 0x20_0000;
    let pa = 0x40_0000;
    assert_eq!(t.map(va, pa, RW, PAGE_SIZE_2M), Ok(()));
    for off in [0u64, 0x1000, 0x12345, 0x1f_ffff] {
        assert_eq!(t.translate(va + off), Ok((pa + off, RW, PAGE_SIZE_2M)));
    }
    assert_eq!(t.translate(va + 0x20_0000), Err(PagingError::NotMapped));
}

#[test]
fn huge_page_1g_translates_offsets() {
    let mut t = la64_table(16);
    let va = 0x4000_0000;
    let pa = 0x8000_0000;
    assert_eq!(t.map(va, pa, FLAG_READ | FLAG_EXECUTE, PAGE_SIZE_1G), Ok(()));
    assert_eq!(
        t.translate(va + 0x1234_5678),
        Ok((pa + 0x1234_5678, FLAG_READ | FLAG_EXECUTE, PAGE_SIZE_1G))
    );
    // a 1 GiB leaf sits in the root frame: no extra frame was allocated
    assert_eq!(t.live_frames(), 1);
}

#[test]
fn overlap_is_refused_without_mutation() {
    let mut t = la64_table(16);
    assert_eq!(t.map(0x1000, 0x5000, RW, PAGE_SIZE_4K), Ok(()));
    // same page again
    assert_eq!(
        t.map(0x1000, 0x7000, RW, PAGE_SIZE_4K),
        Err(PagingError::AlreadyMapped)
    );
    // a huge page over the same region runs into the existing tables
    assert_eq!(
        t.map(0x0, 0x0, RW, PAGE_SIZE_2M),
        Err(PagingError::AlreadyMapped)
    );
    // the original mapping is untouched, and no flush was recorded for
    // the failed attempts
    assert_eq!(t.translate(0x1000), Ok((0x5000, RW, PAGE_SIZE_4K)));
    assert_eq!(t.flushes().len(), 1);
    // mapping a base page under an existing huge page is refused too
    assert_eq!(t.map(0x20_0000, 0x80_0000, RW, PAGE_SIZE_2M), Ok(()));
    assert_eq!(
        t.map(0x20_1000, 0x9000, RW, PAGE_SIZE_4K),
        Err(PagingError::AlreadyMapped)
    );
}

#[test]
fn validation_errors() {
    let mut t = la64_table(16);
    assert_eq!(
        t.map(0x1000, 0x5000, RW, 0x2000),
        Err(PagingError::InvalidPageSize)
    );
    assert_eq!(
        t.map(0x1800, 0x5000, RW, PAGE_SIZE_4K),
        Err(PagingError::Misaligned)
    );
    assert_eq!(
        t.map(0x20_0000, 0x5000, RW, PAGE_SIZE_2M),
        Err(PagingError::Misaligned)
    );
    // LoongArch64's three active levels translate 39 bits
    assert_eq!(
        t.map(1 << 39, 0x5000, RW, PAGE_SIZE_4K),
        Err(PagingError::AddressOutOfRange)
    );
    assert_eq!(
        t.map(0x1000, 1 << 40, RW, PAGE_SIZE_4K),
        Err(PagingError::AddressOutOfRange)
    );
    assert_eq!(t.translate(1 << 39), Err(PagingError::AddressOutOfRange));
    assert_eq!(t.unmap(1 << 39), Err(PagingError::AddressOutOfRange));
    assert_eq!(t.unmap(0x1000), Err(PagingError::NotMapped));
    assert_eq!(t.flushes().len(), 0);
}

#[test]
fn out_of_memory_leaves_no_partial_chain() {
    // capacity 2: the root plus one frame; a base-page mapping needs two
    // intermediate frames below the root
    let mut t = la64_table(2);
    assert_eq!(t.live_frames(), 1);
    assert_eq!(
        t.map(0x1000, 0x5000, RW, PAGE_SIZE_4K),
        Err(PagingError::OutOfMemory)
    );
    // the partially built chain was torn back down
    assert_eq!(t.live_frames(), 1);
    // a 2 MiB mapping needs only one extra frame and still fits
    assert_eq!(t.map(0x20_0000, 0x40_0000, RW, PAGE_SIZE_2M), Ok(()));
    assert_eq!(t.live_frames(), 2);
}

#[test]
fn pruning_releases_drained_frames() {
    let mut t = la64_table(16);
    assert_eq!(t.map(0x1000, 0x5000, RW, PAGE_SIZE_4K), Ok(()));
    assert_eq!(t.live_frames(), 3);
    assert_eq!(t.map(0x2000, 0x6000, RW, PAGE_SIZE_4K), Ok(()));
    // second page shares the whole path
    assert_eq!(t.live_frames(), 3);
    assert_eq!(t.unmap(0x1000), Ok(()));
    // the leaf table still holds the second page
    assert_eq!(t.live_frames(), 3);
    assert_eq!(t.unmap(0x2000), Ok(()));
    // the drained leaf table and directory were both released
    assert_eq!(t.live_frames(), 1);
    // and the freed frames can be used again
    assert_eq!(t.map(0x1000, 0x5000, RW, PAGE_SIZE_4K), Ok(()));
    assert_eq!(t.translate(0x1000), Ok((0x5000, RW, PAGE_SIZE_4K)));
}

#[test]
fn unmap_inside_huge_page_removes_whole_mapping() {
    let mut t = la64_table(16);
    assert_eq!(t.map(0x20_0000, 0x40_0000, RW, PAGE_SIZE_2M), Ok(()));
    assert_eq!(t.unmap(0x21_2345), Ok(()));
    assert_eq!(t.translate(0x20_0000), Err(PagingError::NotMapped));
    assert_eq!(t.flushes().as_slice()[1], TlbFlush::Address(0x21_2345));
}

#[test]
fn update_flags_keeps_base_and_size() {
    let mut t = la64_table(16);
    assert_eq!(t.map(0x1000, 0x5000, RW, PAGE_SIZE_4K), Ok(()));
    assert_eq!(t.update_flags(0x1000, FLAG_READ | FLAG_EXECUTE), Ok(()));
    assert_eq!(
        t.translate(0x1000),
        Ok((0x5000, FLAG_READ | FLAG_EXECUTE, PAGE_SIZE_4K))
    );
    assert_eq!(t.update_flags(0x3000, RW), Err(PagingError::NotMapped));
    assert_eq!(t.flushes().len(), 2);
}

#[test]
fn clear_all_flushes_once_and_resets() {
    let mut t = la64_table(16);
    assert_eq!(t.map(0x1000, 0x5000, RW, PAGE_SIZE_4K), Ok(()));
    assert_eq!(t.map(0x4000_0000, 0x8000_0000, RW, PAGE_SIZE_1G), Ok(()));
    assert_eq!(t.map(0x20_0000, 0x40_0000, RW, PAGE_SIZE_2M), Ok(()));
    let before = t.flushes().len();
    assert_eq!(t.clear_all(), Ok(()));
    assert_eq!(t.live_frames(), 1);
    assert_eq!(t.translate(0x1000), Err(PagingError::NotMapped));
    assert_eq!(t.translate(0x4000_0000), Err(PagingError::NotMapped));
    // exactly one full invalidation, whatever the mapping count
    assert_eq!(t.flushes().len(), before + 1);
    assert_eq!(t.flushes().as_slice()[before], TlbFlush::All);
    // the table is usable again after the reset
    assert_eq!(t.map(0x1000, 0x5000, RW, PAGE_SIZE_4K), Ok(()));
    assert_eq!(t.translate(0x1000), Ok((0x5000, RW, PAGE_SIZE_4K)));
}

#[test]
fn attribute_words_round_trip() {
    let mut t = la64_table(32);
    let cases = [
        FLAG_READ,
        FLAG_READ | FLAG_WRITE,
        FLAG_READ | FLAG_WRITE | FLAG_EXECUTE,
        FLAG_EXECUTE,
        FLAG_READ | FLAG_USER,
        FLAG_READ | FLAG_WRITE | FLAG_DEVICE,
        FLAG_READ | FLAG_WRITE | FLAG_UNCACHED,
        FLAG_WRITE,
    ];
    for (k, fl) in cases.iter().enumerate() {
        let va = 0x1000 * (k as u64 + 1);
        let pa = 0x10_0000 + 0x1000 * (k as u64);
        assert_eq!(t.map(va, pa, *fl, PAGE_SIZE_4K), Ok(()));
        assert_eq!(t.translate(va), Ok((pa, *fl, PAGE_SIZE_4K)));
    }
}

#[test]
fn four_and_five_level_geometries_walk() {
    for (levels, extra) in [(4u64, 3u64), (5, 4)] {
        let g = PagingMetaData {
            levels,
            pa_max_bits: 48,
        };
        let mut t = PageTable64::new(g, 16);
        assert_eq!(t.map(0x1000, 0x5000, RW, PAGE_SIZE_4K), Ok(()));
        assert_eq!(t.translate(0x1000), Ok((0x5000, RW, PAGE_SIZE_4K)));
        // one intermediate frame per level below the root
        assert_eq!(t.live_frames(), 1 + extra);
        // a deep address only a wider walk can reach
        let high = 1u64 << (12 + 9 * levels - 1);
        assert_eq!(t.map(high, 0x6000, RW, PAGE_SIZE_4K), Ok(()));
        assert_eq!(t.translate(high), Ok((0x6000, RW, PAGE_SIZE_4K)));
        assert_eq!(
            t.translate(1u64 << (12 + 9 * levels)),
            Err(PagingError::AddressOutOfRange)
        );
        assert_eq!(t.unmap(high), Ok(()));
        assert_eq!(t.live_frames(), 1 + extra);
    }
}

#[test]
fn update_flags_on_huge_page_covers_region() {
    let mut t = la64_table(16);
    assert_eq!(t.map(0x20_0000, 0x40_0000, RW, PAGE_SIZE_2M), Ok(()));
    assert_eq!(t.update_flags(0x2a_bcde, FLAG_READ), Ok(()));
    assert_eq!(t.translate(0x20_0000), Ok((0x40_0000, FLAG_READ, PAGE_SIZE_2M)));
    assert_eq!(
        t.translate(0x3f_ffff),
        Ok((0x5f_ffff, FLAG_READ, PAGE_SIZE_2M))
    );
}

#[test]
fn last_page_of_the_covered_space() {
    let mut t = la64_table(16);
    let va = (1u64 << 39) - 0x1000;
    assert_eq!(t.map(va, 0x5000, RW, PAGE_SIZE_4K), Ok(()));
    assert_eq!(t.translate(va + 0xfff), Ok((0x5fff, RW, PAGE_SIZE_4K)));
    assert_eq!(t.translate(va - 0x1000), Err(PagingError::NotMapped));
    assert_eq!(t.unmap(va), Ok(()));
    assert_eq!(t.live_frames(), 1);
}
