use color_table::{ColorFragmentIndex, GenerationState, Generations};

#[test]
fn serialize_deserialize() {
    let mut g = Generations::new();
    let mut head: u32 = 1;

    // start generation 1
    g.start_new_generation_at(ColorFragmentIndex(head), 1).unwrap();

    // end generation 1
    head += 10;
    g.end_current_generation_at(ColorFragmentIndex(head)).unwrap();

    // start generation 2
    g.start_new_generation_at(ColorFragmentIndex(head), 2).unwrap();

    // end generation 2
    head += 5;
    g.end_current_generation_at(ColorFragmentIndex(head)).unwrap();

    // start generation 4 (skip one)
    g.start_new_generation_at(ColorFragmentIndex(head), 4).unwrap();

    // end generation 4
    head += 123456;
    g.end_current_generation_at(ColorFragmentIndex(head)).unwrap();

    let bytes = g.to_bytes();
    let deser = Generations::from_bytes(&bytes).unwrap();
    assert_eq!(g.to_triples(), deser.to_triples());
    assert_eq!(g.generation_state(), deser.generation_state());
}

#[test]
fn skipped_generation_numbers() {
    let mut g = Generations::new();

    assert_eq!(g.current_generation(), None);
    g.start_new_generation_at(ColorFragmentIndex(1), 1).unwrap();
    assert_eq!(g.current_generation(), Some(1));
    g.end_current_generation_at(ColorFragmentIndex(4)).unwrap();
    assert_eq!(g.current_generation(), None);

    g.start_new_generation_at(ColorFragmentIndex(4), 2).unwrap();
    assert_eq!(g.current_generation(), Some(2));
    g.end_current_generation_at(ColorFragmentIndex(6)).unwrap();
    assert_eq!(g.current_generation(), None);

    // generation 3 is skipped
    g.start_new_generation_at(ColorFragmentIndex(6), 4).unwrap();
    assert_eq!(g.current_generation(), Some(4));
    g.end_current_generation_at(ColorFragmentIndex(9)).unwrap();
    assert_eq!(g.current_generation(), None);

    assert_eq!(g.to_triples(), vec![(1, 4, 1), (4, 6, 2), (6, 9, 4)]);
    assert_eq!(g.generation_state(), GenerationState::Closed(4));

    let bytes = g.to_bytes();
    let deser = Generations::from_bytes(&bytes).unwrap();
    assert_eq!(deser.to_triples(), vec![(1, 4, 1), (4, 6, 2), (6, 9, 4)]);
    assert_eq!(deser.generation_state(), GenerationState::Closed(4));

    // a fragment of each generation is found; the gap number is nobody's
    assert_eq!(deser.find(&ColorFragmentIndex(2)), Some(1));
    assert_eq!(deser.find(&ColorFragmentIndex(5)), Some(2));
    assert_eq!(deser.find(&ColorFragmentIndex(8)), Some(4));
    assert_eq!(deser.find(&ColorFragmentIndex(9)), None);
    assert_eq!(deser.find(&ColorFragmentIndex(0)), None);
}

#[test]
fn sidecar_exact_bytes() {
    let mut g = Generations::new();

    // a fresh registry is a single zero tag and a zero count
    assert_eq!(g.to_bytes(), vec![0, 0]);

    g.start_new_generation_at(ColorFragmentIndex(1), 300).unwrap();
    g.end_current_generation_at(ColorFragmentIndex(2)).unwrap();

    // state: tag 1 (closed), then 300 in base-128 (0xAC, 0x02);
    // count 1; range start 1, end 2, generation 300
    assert_eq!(g.to_bytes(), vec![1, 0xAC, 0x02, 1, 1, 2, 0xAC, 0x02]);
}
