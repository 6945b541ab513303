use color_table::{color_class, into_bitmap, into_indices, ColorId, ColorTable, ColorTableError};

fn random_color(max_cardinality: u32) -> u32 {
    assert!(max_cardinality <= u32::BITS);
    let mut rng = fastrand::Rng::new();

    let mut color: u32 = 0;
    for _ in 0..max_cardinality {
        color ^= 1;
        color = color.rotate_left(rng.u32(..u32::BITS));
    }
    color
}

fn read_class(ct: &ColorTable, id: ColorId) -> Vec<(u32, u64)> {
    let data = ct.table_bytes();
    let gens = ct.generations();
    color_class(&data, &gens, &id).unwrap()
}

#[test]
fn new_one() {
    let mut ct = ColorTable::new();

    ct.start_generation(0).unwrap();
    let id = ct.new_color_class(0x0123ABCD).unwrap();
    ct.end_generation().unwrap();

    assert_eq!(id, ColorId::new(1));

    let table = ct.table_bytes();
    assert_eq!(table.len(), 16);

    assert_eq!(read_class(&ct, id), vec![(0x0123ABCD, 0)]);
}

#[test]
fn new_many() {
    const N: usize = 1_000_000;

    let mut ct = ColorTable::new();

    ct.start_generation(0).unwrap();
    for c in 0..N {
        ct.new_color_class(c as u32).unwrap();
    }
    ct.end_generation().unwrap();

    let ct_file = ct.table_bytes();
    // N + magic
    assert_eq!(ct_file.len(), 8 * (N + 1));
}

#[test]
fn fork_one() {
    let mut ct = ColorTable::new();

    ct.start_generation(0).unwrap();
    let cc_id = ct.new_color_class(0x0123ABCD).unwrap();
    ct.end_generation().unwrap();

    ct.start_generation(1).unwrap();
    let fork_id = ct.fork_color_class(cc_id, 0xABCD0123).unwrap();
    ct.end_generation().unwrap();

    assert_eq!(cc_id, ColorId::new(1));
    assert_eq!(fork_id, ColorId::new(2));

    let table = ct.table_bytes();
    // 2 + magic
    assert_eq!(table.len(), 24);

    assert_eq!(read_class(&ct, fork_id), vec![(0xABCD0123, 1), (0x0123ABCD, 0)]);
    assert_eq!(read_class(&ct, cc_id), vec![(0x0123ABCD, 0)]);
}

#[test]
fn fork_one_and_iter() {
    let mut ct = ColorTable::new();

    ct.start_generation(0).unwrap();
    let cc_id = ct.new_color_class(0x0123ABCD).unwrap();
    let unforked_id = ct.new_color_class(0x4567EF00).unwrap();
    ct.end_generation().unwrap();

    ct.start_generation(1).unwrap();
    let fork_id = ct.fork_color_class(cc_id, 0xABCD0123).unwrap();
    ct.end_generation().unwrap();

    assert_eq!(read_class(&ct, fork_id), vec![(0xABCD0123, 1), (0x0123ABCD, 0)]);
    assert_eq!(read_class(&ct, unforked_id), vec![(0x4567EF00, 0)]);
}

#[test]
fn fork_many_and_iter() {
    const N: usize = 1_000_000;

    let mut ct = ColorTable::new();

    ct.start_generation(0).unwrap();
    let mut cc_id = ct.new_color_class(0).unwrap();
    ct.end_generation().unwrap();
    for g in 1..N {
        ct.start_generation(g as u64).unwrap();
        cc_id = ct.fork_color_class(cc_id, g as u32).unwrap();
        ct.end_generation().unwrap();
    }

    let pairs = read_class(&ct, cc_id);
    assert_eq!(pairs.len(), N);
    for (i, (color, generation)) in (0..N).rev().zip(pairs.into_iter()) {
        assert_eq!(color, i as u32);
        assert_eq!(generation, color.into());
    }
}

#[test]
fn extend_one() {
    let mut ct = ColorTable::new();

    ct.start_generation(0).unwrap();
    let mut cc_id = ct.new_color_class(0x0123ABCD).unwrap();
    ct.end_generation().unwrap();

    ct.start_generation(1).unwrap();
    cc_id = ct.extend_color_class(cc_id, 0x4567EF00).unwrap();
    ct.end_generation().unwrap();

    let table = ct.table_bytes();
    // 2 + magic
    assert_eq!(table.len(), 24);

    assert_eq!(read_class(&ct, cc_id), vec![(0x4567EF00, 1), (0x0123ABCD, 0)]);
}

#[test]
fn extend_many_and_iter() {
    const N: usize = 1_000_000;

    let mut ct = ColorTable::new();

    ct.start_generation(0).unwrap();
    let mut cc_id = ct.new_color_class(0).unwrap();
    ct.end_generation().unwrap();
    for g in 1..N {
        ct.start_generation(g as u64).unwrap();
        cc_id = ct.extend_color_class(cc_id, g as u32).unwrap();
        ct.end_generation().unwrap();
    }

    let pairs = read_class(&ct, cc_id);
    assert_eq!(pairs.len(), N);
    for (i, (color, generation)) in (0..N).rev().zip(pairs.into_iter()) {
        assert_eq!(color, i as u32);
        assert_eq!(generation, color.into());
    }
}

#[test]
fn sync_and_load() {
    let get_color = || random_color(16);

    let mut ct = ColorTable::new();

    ct.start_generation(0).unwrap();
    let cc1 = ct.new_color_class(get_color()).unwrap();
    let cc2 = ct.new_color_class(get_color()).unwrap();
    ct.end_generation().unwrap();

    ct.start_generation(1).unwrap();
    ct.extend_color_class(cc1, get_color()).unwrap();
    let cc3 = ct.fork_color_class(cc2, get_color()).unwrap();
    ct.end_generation().unwrap();

    let table = ct.table_bytes();
    let sidecar = ct.sidecar_bytes();
    let ct2 = ColorTable::load(&table, &sidecar).unwrap();

    for cc in [cc1, cc2, cc3] {
        assert_eq!(read_class(&ct, cc), read_class(&ct2, cc));
        let idx1 = into_indices(&read_class(&ct, cc));
        let idx2 = into_indices(&read_class(&ct2, cc));
        assert_eq!(idx1, idx2);
    }
}

#[test]
fn load_and_write() {
    let get_color = || random_color(16);

    let mut ct = ColorTable::new();

    ct.start_generation(0).unwrap();
    ct.new_color_class(get_color()).unwrap();
    ct.end_generation().unwrap();

    let table = ct.table_bytes();
    let sidecar = ct.sidecar_bytes();

    let mut ct = ColorTable::load(&table, &sidecar).unwrap();
    assert!(ct.start_generation(0).is_err());

    ct.start_generation(1).unwrap();
    ct.new_color_class(get_color()).unwrap();
    ct.end_generation().unwrap();
    let table = ct.table_bytes();
    assert_eq!(table.len(), 24);
}

#[test]
fn null_class_is_empty() {
    let mut ct = ColorTable::new();
    ct.start_generation(0).unwrap();
    ct.new_color_class(0xFFFF_FFFF).unwrap();
    ct.end_generation().unwrap();

    assert_eq!(read_class(&ct, ColorId::new(0)), vec![]);
}

#[test]
fn head_class_is_empty() {
    let mut ct = ColorTable::new();
    ct.start_generation(0).unwrap();
    ct.new_color_class(0xFFFF_FFFF).unwrap();
    ct.end_generation().unwrap();

    // head is 2: one real fragment plus the magic record
    assert_eq!(ct.head().0, 2);
    assert_eq!(read_class(&ct, ColorId::new(2)), vec![]);
    assert_eq!(read_class(&ct, ColorId::new(1000)), vec![]);
}

#[test]
fn empty_generation_reuse() {
    let mut ct = ColorTable::new();

    ct.start_generation(0).unwrap();
    ct.end_generation().unwrap();

    // the placeholder range of the empty generation is gone
    assert_eq!(ct.generations().to_triples(), vec![]);

    // the next generation may reuse the same start
    ct.start_generation(1).unwrap();
    let id = ct.new_color_class(7).unwrap();
    ct.end_generation().unwrap();

    assert_eq!(read_class(&ct, id), vec![(7, 1)]);
    assert_eq!(ct.generations().to_triples(), vec![(1, 2, 1)]);
}

#[test]
fn sidecar_idempotent() {
    let mut ct = ColorTable::new();
    ct.start_generation(3).unwrap();
    ct.new_color_class(42).unwrap();
    ct.end_generation().unwrap();

    let first = ct.sidecar_bytes();
    let second = ct.sidecar_bytes();
    assert_eq!(first, second);
}

#[test]
fn write_protocol_errors() {
    let mut ct = ColorTable::new();

    // mutation with no open generation
    assert_eq!(ct.new_color_class(1), Err(ColorTableError::BadGenerationState));
    // ending with no open generation
    assert_eq!(ct.end_generation(), Err(ColorTableError::BadGenerationState));

    ct.start_generation(5).unwrap();
    // starting while a generation is in progress
    assert_eq!(ct.start_generation(6), Err(ColorTableError::BadGenerationState));
    let id = ct.new_color_class(1).unwrap();
    // forking an id at or past the head
    assert_eq!(ct.fork_color_class(ColorId::new(99), 0), Err(ColorTableError::InvalidColorId(99)));
    assert_eq!(
        ct.extend_color_class(ColorId::new(2), 0),
        Err(ColorTableError::InvalidColorId(2))
    );
    ct.end_generation().unwrap();

    // a generation number not above the last one
    assert_eq!(ct.start_generation(5), Err(ColorTableError::InvalidGeneration(5)));
    assert_eq!(ct.start_generation(4), Err(ColorTableError::InvalidGeneration(4)));
    // and one above it is fine
    ct.start_generation(6).unwrap();
    ct.fork_color_class(id, 2).unwrap();
    ct.end_generation().unwrap();
}

#[test]
fn load_rejects_corruption() {
    let mut ct = ColorTable::new();
    ct.start_generation(0).unwrap();
    ct.new_color_class(1).unwrap();
    ct.end_generation().unwrap();
    let table = ct.table_bytes();
    let sidecar = ct.sidecar_bytes();

    // length not a multiple of the record size
    assert_eq!(
        ColorTable::load(&table[..12], &sidecar).unwrap_err(),
        ColorTableError::CorruptLength
    );
    // empty table file has no magic record
    assert_eq!(ColorTable::load(&[], &sidecar).unwrap_err(), ColorTableError::CorruptLength);
    // wrong magic
    let zeros = vec![0u8; 16];
    assert_eq!(ColorTable::load(&zeros, &sidecar).unwrap_err(), ColorTableError::CorruptMagic);
    // a parent pointer that does not precede its fragment
    let mut bad = table.clone();
    bad[8] = 9;
    assert_eq!(ColorTable::load(&bad, &sidecar).unwrap_err(), ColorTableError::InvalidColorId(9));
    // unknown state tag in the sidecar
    assert_eq!(ColorTable::load(&table, &[3]).unwrap_err(), ColorTableError::CorruptRegistry);
    // truncated sidecar
    assert_eq!(ColorTable::load(&table, &[]).unwrap_err(), ColorTableError::CorruptRegistry);
    // overlapping ranges in the sidecar: state closed(2), two ranges (1,5,1) and (4,8,2)
    let overlapping = [1u8, 2, 2, 1, 5, 1, 4, 8, 2];
    assert_eq!(
        ColorTable::load(&table, &overlapping).unwrap_err(),
        ColorTableError::CorruptRegistry
    );
    // the sound sidecar still loads
    assert!(ColorTable::load(&table, &sidecar).is_ok());
}

#[test]
fn indices_and_bitmap() {
    let mut ct = ColorTable::new();

    ct.start_generation(0).unwrap();
    let mut id = ct.new_color_class(0b1001).unwrap();
    ct.end_generation().unwrap();
    ct.start_generation(1).unwrap();
    id = ct.extend_color_class(id, 0b100000).unwrap();
    ct.end_generation().unwrap();

    let pairs = read_class(&ct, id);
    assert_eq!(pairs, vec![(0b100000, 1), (0b1001, 0)]);

    // generation 1 window starts at sample 32; bit 5 set -> sample 37
    let indices = into_indices(&pairs);
    assert_eq!(indices, vec![37, 0, 3]);

    let bm = into_bitmap(&indices);
    assert_eq!(bm.len(), 3);
    assert!(bm.contains(0));
    assert!(!bm.contains(1));
    assert!(!bm.contains(2));
    assert!(bm.contains(3));
    assert!(bm.contains(37));
    assert!(!bm.contains(36));
}

#[test]
fn parent_of_walks_one_step() {
    let mut ct = ColorTable::new();
    ct.start_generation(0).unwrap();
    let a = ct.new_color_class(10).unwrap();
    ct.end_generation().unwrap();
    ct.start_generation(1).unwrap();
    let b = ct.extend_color_class(a, 20).unwrap();
    ct.end_generation().unwrap();

    let data = ct.table_bytes();
    let head = color_table::parent_of(&data, &color_table::ColorFragment {
        parent_pointer: b.to_index(),
        color: 0,
    });
    let head = head.unwrap();
    assert_eq!(head.color, 20);
    assert_eq!(head.parent_pointer, a.to_index());

    let root = color_table::parent_of(&data, &head).unwrap();
    assert_eq!(root.color, 10);
    assert_eq!(root.parent_pointer.0, 0);

    assert!(color_table::parent_of(&data, &root).is_none());
}

#[test]
fn size_hints() {
    let mut ct = ColorTable::new();
    ct.start_generation(0).unwrap();
    let a = ct.new_color_class(1).unwrap();
    ct.end_generation().unwrap();
    ct.start_generation(7).unwrap();
    let b = ct.extend_color_class(a, 2).unwrap();
    ct.end_generation().unwrap();

    let gens = ct.generations();
    // the null class yields nothing
    assert_eq!(color_table::size_hint(&gens, ColorId::new(0).to_index()), (0, None));
    // a chain headed in generation 7 yields at most 8 pairs
    assert_eq!(color_table::size_hint(&gens, b.to_index()), (1, Some(8)));
    assert_eq!(color_table::size_hint(&gens, a.to_index()), (1, Some(1)));
}

#[test]
fn magic_header_bytes() {
    let ct = ColorTable::new();
    let table = ct.table_bytes();
    assert_eq!(table, vec![0x43, 0x54, 0x42, 0x4C, 0x00, 0x00, 0x00, 0x01]);
    assert_eq!(&table[..4], b"CTBL");
}
