use bullet_core::optimiser::adam::{Adam, AdamParams};
use bullet_core::bytes::{push_le4, push_le8, read_le4, read_le8};
use bullet_core::optimiser::checkpoint::{
    encode_checkpoint, is_valid_name, parse_checkpoint, write_record, CheckpointError,
    CheckpointRecord,
};
use bullet_core::device::Device;
use bullet_core::optimiser::names::{le, same};
use bullet_core::optimiser::OptimiserState;
use bullet_core::optimiser::restore::{
    any_duplicate, find_name, pair_records, plan_restore, record_names, sorted_order, Assignment,
};
use bullet_core::scalar::Scalar;
use bullet_core::tensor::DenseMatrix;

/// A device in main memory; it can be told to hand back one number too many.
struct Host;

impl Device for Host {
    type Buffer = Vec<u32>;
    type DeviceError = String;

    fn allocate(&self, size: usize) -> Result<Vec<u32>, String> {
        Ok(vec![0; size])
    }

    fn set_zero(buffer: &mut Vec<u32>) {
        for x in buffer.iter_mut() {
            *x = 0;
        }
    }

    fn load(buffer: &mut Vec<u32>, values: &Vec<Scalar>) {
        *buffer = values.iter().map(|s| s.to_bits()).collect();
    }

    fn store(buffer: &Vec<u32>) -> Vec<Scalar> {
        buffer.iter().map(|&b| Scalar::from_bits(b)).collect()
    }

    fn seed_random(_buffer: &mut Vec<u32>, _mean: Scalar, _stdev: Scalar, _normal: bool) -> Result<(), String> {
        Ok(())
    }

    fn adam(
        size: usize,
        _weights: &mut Vec<u32>,
        gradients: &Vec<u32>,
        momentum: &mut Vec<u32>,
        velocity: &mut Vec<u32>,
        _beta1: Scalar,
        _beta2: Scalar,
        _gradient_factor: Scalar,
        _learning_rate: Scalar,
        _denominator: bool,
    ) {
        // not Adam, but it leaves something to checkpoint
        for i in 0..size {
            momentum[i] = gradients[i];
            velocity[i] = gradients[i] ^ 0x8000_0000;
        }
    }
}

/// A device that hands back one number too many.
struct Liar;

impl Device for Liar {
    type Buffer = Vec<u32>;
    type DeviceError = String;

    fn allocate(&self, size: usize) -> Result<Vec<u32>, String> {
        Ok(vec![0; size])
    }

    fn set_zero(_buffer: &mut Vec<u32>) {}

    fn load(_buffer: &mut Vec<u32>, _values: &Vec<Scalar>) {}

    fn store(buffer: &Vec<u32>) -> Vec<Scalar> {
        vec![Scalar::from_bits(0); buffer.len() + 1]
    }

    fn seed_random(_buffer: &mut Vec<u32>, _mean: Scalar, _stdev: Scalar, _normal: bool) -> Result<(), String> {
        Ok(())
    }

    fn adam(
        _size: usize,
        _weights: &mut Vec<u32>,
        _gradients: &Vec<u32>,
        _momentum: &mut Vec<u32>,
        _velocity: &mut Vec<u32>,
        _beta1: Scalar,
        _beta2: Scalar,
        _gradient_factor: Scalar,
        _learning_rate: Scalar,
        _denominator: bool,
    ) {
    }
}

fn scalars(values: &[f32]) -> Vec<Scalar> {
    values.iter().map(|v| Scalar::from_bits(v.to_bits())).collect()
}

fn record(name: &str, values: &[f32]) -> CheckpointRecord {
    CheckpointRecord { name: name.as_bytes().to_vec(), values: scalars(values) }
}

fn floats(m: &DenseMatrix<Host>) -> Vec<f32> {
    m.to_vec().unwrap().iter().map(|x| f32::from_bits(x.to_bits())).collect()
}

/// A state whose momentum is `values` and whose velocity is `-values`.
fn state(values: &[f32]) -> Adam<Host> {
    let mut adam = Adam::new(&Host, values.len(), AdamParams::default()).unwrap();
    let mut weights = DenseMatrix::zeroed(&Host, values.len()).unwrap();
    let mut gradients = DenseMatrix::zeroed(&Host, values.len()).unwrap();
    gradients.load_from_slice(None, &scalars(values)).unwrap();
    let one = Scalar::from_bits(1.0f32.to_bits());
    adam.update(&mut weights, &mut gradients, one, one).unwrap();
    adam
}

fn fresh(size: usize) -> Adam<Host> {
    Adam::new(&Host, size, AdamParams::default()).unwrap()
}

#[test]
fn integers_are_written_least_significant_byte_first() {
    let mut out = vec![0xAA];
    push_le4(&mut out, 0x0403_0201);
    assert_eq!(out, vec![0xAA, 1, 2, 3, 4]);
    push_le8(&mut out, 0x0807_0605_0403_0201);
    assert_eq!(out, vec![0xAA, 1, 2, 3, 4, 1, 2, 3, 4, 5, 6, 7, 8]);
    assert_eq!(read_le4(&out, 1), 0x0403_0201);
    assert_eq!(read_le8(&out, 5), 0x0807_0605_0403_0201);
    assert_eq!(read_le4(&[0xFF, 0xFF, 0xFF, 0xFF], 0), u32::MAX);
    assert_eq!(read_le8(&[0xFF; 8], 0), u64::MAX);
}

#[test]
fn record_layout_is_name_line_feed_count_numbers() {
    let mut out = Vec::new();
    write_record(&mut out, b"l0w", &scalars(&[1.0, -2.0])).unwrap();
    let mut expected = b"l0w\n".to_vec();
    expected.extend_from_slice(&2u64.to_le_bytes());
    expected.extend_from_slice(&1.0f32.to_le_bytes());
    expected.extend_from_slice(&(-2.0f32).to_le_bytes());
    assert_eq!(out, expected);
    // an empty name and no numbers are fine
    let mut out = vec![7];
    write_record(&mut out, b"", &scalars(&[])).unwrap();
    assert_eq!(out, vec![7, b'\n', 0, 0, 0, 0, 0, 0, 0, 0]);
}

#[test]
fn name_with_line_feed_cannot_be_written() {
    assert!(is_valid_name(b"layer 1 weights"));
    assert!(!is_valid_name(b"a\nb"));
    let mut out = vec![1, 2, 3];
    assert_eq!(write_record(&mut out, b"a\nb", &scalars(&[1.0])), Err(CheckpointError::InvalidName));
    assert_eq!(out, vec![1, 2, 3]);
    assert_eq!(
        encode_checkpoint(&vec![record("fine", &[1.0]), record("not\nfine", &[2.0])]),
        Err(CheckpointError::InvalidName)
    );
}

#[test]
fn written_records_are_read_back() {
    let records = vec![
        record("l1w", &[0.5, -0.25, 3.0]),
        record("l0w", &[]),
        record("", &[f32::MAX]),
        record("l1b", &[f32::MIN_POSITIVE, -0.0]),
    ];
    let bytes = encode_checkpoint(&records).unwrap();
    assert_eq!(parse_checkpoint(&bytes, false), Ok(records));
    assert_eq!(parse_checkpoint(&[], false), Ok(vec![]));
    assert_eq!(encode_checkpoint(&vec![]), Ok(vec![]));
}

#[test]
fn not_a_number_is_kept_bit_for_bit() {
    let odd = Scalar::from_bits(0x7FC0_1234);
    let records = vec![CheckpointRecord { name: b"w".to_vec(), values: vec![odd] }];
    let bytes = encode_checkpoint(&records).unwrap();
    let back = parse_checkpoint(&bytes, false).unwrap();
    assert_eq!(back[0].values[0].to_bits(), 0x7FC0_1234);
}

#[test]
fn cut_off_bytes_are_malformed() {
    let bytes = encode_checkpoint(&vec![record("w", &[1.0, 2.0])]).unwrap();
    for cut in 1..bytes.len() {
        assert_eq!(parse_checkpoint(&bytes[..cut], false), Err(CheckpointError::Malformed), "cut {cut}");
    }
    // no line feed at all
    assert_eq!(parse_checkpoint(b"name", false), Err(CheckpointError::Malformed));
    // a count that the bytes cannot hold
    let mut bytes = b"w\n".to_vec();
    bytes.extend_from_slice(&u64::MAX.to_le_bytes());
    assert_eq!(parse_checkpoint(&bytes, false), Err(CheckpointError::Malformed));
}

#[test]
fn legacy_layout_gives_rows_and_columns() {
    let mut bytes = b"w\n".to_vec();
    bytes.extend_from_slice(&2u64.to_le_bytes());
    bytes.extend_from_slice(&3u64.to_le_bytes());
    for v in [1.0f32, 2.0, 3.0, 4.0, 5.0, 6.0] {
        bytes.extend_from_slice(&v.to_le_bytes());
    }
    assert_eq!(parse_checkpoint(&bytes, true), Ok(vec![record("w", &[1.0, 2.0, 3.0, 4.0, 5.0, 6.0])]));
    // read in the current layout the same bytes are two numbers and then rubbish
    assert_eq!(parse_checkpoint(&bytes, false), Err(CheckpointError::Malformed));
    // a product that cannot be counted
    let mut bytes = b"w\n".to_vec();
    bytes.extend_from_slice(&u64::MAX.to_le_bytes());
    bytes.extend_from_slice(&2u64.to_le_bytes());
    assert_eq!(parse_checkpoint(&bytes, true), Err(CheckpointError::Malformed));
}

#[test]
fn names_are_ordered_as_in_a_dictionary() {
    assert!(le(b"", b""));
    assert!(le(b"", b"a"));
    assert!(!le(b"a", b""));
    assert!(le(b"a", b"a"));
    assert!(le(b"a", b"ab"));
    assert!(!le(b"ab", b"a"));
    assert!(le(b"ab", b"b"));
    assert!(!le(b"b", b"ab"));
    assert!(le(b"l10", b"l2"));
    assert!(le(&[1, 200], &[1, 201]));
    assert!(same(b"abc", b"abc"));
    assert!(!same(b"abc", b"abd"));
    assert!(!same(b"abc", b"ab"));
}

#[test]
fn sorted_order_lists_indices_by_name() {
    let records = vec![record("c", &[]), record("a", &[]), record("b", &[]), record("", &[])];
    let names = record_names(&records);
    assert_eq!(names, vec![b"c".to_vec(), b"a".to_vec(), b"b".to_vec(), b"".to_vec()]);
    assert_eq!(sorted_order(&names), vec![3, 1, 2, 0]);
    assert_eq!(sorted_order(&vec![]), Vec::<usize>::new());
    assert!(!any_duplicate(&names));
    assert!(!any_duplicate(&vec![]));
    assert!(any_duplicate(&vec![b"x".to_vec(), b"a".to_vec(), b"x".to_vec()]));
    // equal names keep the order they stand in
    let names = vec![b"x".to_vec(), b"a".to_vec(), b"x".to_vec()];
    assert_eq!(sorted_order(&names), vec![1, 0, 2]);
}

#[test]
fn records_are_paired_by_name() {
    let first = vec![record("b", &[1.0]), record("a", &[2.0]), record("c", &[3.0])];
    let second = vec![record("c", &[4.0]), record("b", &[5.0]), record("a", &[6.0])];
    assert_eq!(pair_records(&first, &second), Ok(vec![(1, 2), (0, 1), (2, 0)]));
    assert_eq!(pair_records(&vec![], &vec![]), Ok(vec![]));
}

#[test]
fn files_with_different_names_are_refused() {
    let first = vec![record("a", &[1.0]), record("b", &[2.0])];
    assert_eq!(
        pair_records(&first, &vec![record("a", &[1.0]), record("c", &[2.0])]),
        Err(CheckpointError::NameMismatch)
    );
    assert_eq!(pair_records(&first, &vec![record("a", &[1.0])]), Err(CheckpointError::NameMismatch));
    assert_eq!(
        pair_records(&first, &vec![record("a", &[]), record("b", &[]), record("c", &[])]),
        Err(CheckpointError::NameMismatch)
    );
    assert_eq!(pair_records(&vec![], &first), Err(CheckpointError::NameMismatch));
}

#[test]
fn name_listed_twice_is_refused() {
    let twice = vec![record("a", &[1.0]), record("b", &[2.0]), record("a", &[3.0])];
    let once = vec![record("a", &[1.0]), record("b", &[2.0])];
    assert_eq!(pair_records(&twice, &once), Err(CheckpointError::DuplicateName));
    assert_eq!(pair_records(&once, &twice), Err(CheckpointError::DuplicateName));
    assert_eq!(pair_records(&twice, &twice), Err(CheckpointError::DuplicateName));
}

#[test]
fn plan_names_the_state_for_each_pair() {
    let collection = vec![b"x".to_vec(), b"a".to_vec(), b"m".to_vec()];
    let sizes = vec![(1, 1), (2, 2), (3, 3)];
    let first = vec![record("m", &[1.0, 2.0, 3.0]), record("a", &[4.0, 5.0])];
    let second = vec![record("a", &[6.0, 7.0]), record("m", &[8.0, 9.0, 10.0])];
    assert_eq!(
        plan_restore(&collection, &sizes, &first, &second),
        Ok(vec![
            Assignment { target: 1, first: 1, second: 0 },
            Assignment { target: 2, first: 0, second: 1 }
        ])
    );
    assert_eq!(find_name(&collection, b"m"), Some(2));
    assert_eq!(find_name(&collection, b"z"), None);
}

#[test]
fn plan_refuses_what_does_not_fit() {
    let collection = vec![b"a".to_vec(), b"b".to_vec()];
    let sizes = vec![(2, 2), (1, 1)];
    let good = vec![record("a", &[1.0, 2.0]), record("b", &[3.0])];
    assert!(plan_restore(&collection, &sizes, &good, &good).is_ok());
    let unknown = vec![record("a", &[1.0, 2.0]), record("z", &[3.0])];
    assert_eq!(
        plan_restore(&collection, &sizes, &unknown, &unknown),
        Err(CheckpointError::UnknownName)
    );
    let short = vec![record("a", &[1.0]), record("b", &[3.0])];
    assert_eq!(plan_restore(&collection, &sizes, &short, &good), Err(CheckpointError::SizeMismatch));
    assert_eq!(plan_restore(&collection, &sizes, &good, &short), Err(CheckpointError::SizeMismatch));
    // an unknown name is reported before a wrong size
    let both = vec![record("a", &[1.0]), record("z", &[3.0])];
    assert_eq!(plan_restore(&collection, &sizes, &both, &both), Err(CheckpointError::UnknownName));
}

#[test]
fn checkpoint_files_are_momentum_and_velocity() {
    assert_eq!(
        Adam::<Host>::checkpoint_files(),
        vec!["momentum.bin".to_string(), "velocity.bin".to_string()]
    );
}

#[test]
fn checkpoint_round_trip_restores_every_buffer() {
    let written = vec![
        ("out".to_string(), state(&[1.5, -2.5, 0.125])),
        ("ft".to_string(), state(&[7.0])),
        ("l1".to_string(), state(&[f32::MAX, f32::MIN_POSITIVE])),
    ];
    let files = Adam::write_to_checkpoint(&written).unwrap();
    assert_eq!(files.len(), 2);
    // the records stand in the order of the names in both files
    assert_eq!(
        parse_checkpoint(&files[0], false),
        Ok(vec![
            record("ft", &[7.0]),
            record("l1", &[f32::MAX, f32::MIN_POSITIVE]),
            record("out", &[1.5, -2.5, 0.125])
        ])
    );
    assert_eq!(
        parse_checkpoint(&files[1], false),
        Ok(vec![
            record("ft", &[-7.0]),
            record("l1", &[-f32::MAX, -f32::MIN_POSITIVE]),
            record("out", &[-1.5, 2.5, -0.125])
        ])
    );
    // a fresh collection with the same names, in another order
    let mut loaded = vec![
        ("l1".to_string(), fresh(2)),
        ("out".to_string(), fresh(3)),
        ("ft".to_string(), fresh(1)),
    ];
    assert_eq!(Adam::load_from_checkpoint(&mut loaded, &files, false), Ok(()));
    for (name, adam) in &loaded {
        let source = &written.iter().find(|(n, _)| n == name).unwrap().1;
        assert_eq!(adam.momentum().to_vec(), source.momentum().to_vec());
        assert_eq!(adam.velocity().to_vec(), source.velocity().to_vec());
    }
    assert_eq!(floats(loaded[1].1.momentum()), vec![1.5, -2.5, 0.125]);
    assert_eq!(floats(loaded[1].1.velocity()), vec![-1.5, 2.5, -0.125]);
    assert_eq!(loaded[0].0, "l1");
    assert_eq!(loaded[0].1.params(), AdamParams::default());
}

#[test]
fn states_that_the_checkpoint_does_not_name_are_left_alone() {
    let written = vec![("a".to_string(), state(&[1.0]))];
    let files = Adam::write_to_checkpoint(&written).unwrap();
    let mut loaded = vec![("b".to_string(), state(&[9.0, 9.0])), ("a".to_string(), fresh(1))];
    assert_eq!(Adam::load_from_checkpoint(&mut loaded, &files, false), Ok(()));
    assert_eq!(floats(loaded[0].1.momentum()), vec![9.0, 9.0]);
    assert_eq!(floats(loaded[1].1.momentum()), vec![1.0]);
    assert_eq!(floats(loaded[1].1.velocity()), vec![-1.0]);
}

#[test]
fn refused_checkpoint_loads_nothing() {
    let written = vec![("a".to_string(), state(&[1.0])), ("b".to_string(), state(&[2.0, 3.0]))];
    let files = Adam::write_to_checkpoint(&written).unwrap();
    let untouched = |loaded: &Vec<(String, Adam<Host>)>| {
        loaded.iter().all(|(_, adam)| floats(adam.momentum()).iter().all(|&x| x == 0.0))
    };

    // the second state has the wrong size; the first must not be loaded either
    let mut loaded = vec![("a".to_string(), fresh(1)), ("b".to_string(), fresh(3))];
    assert_eq!(
        Adam::load_from_checkpoint(&mut loaded, &files, false),
        Err(CheckpointError::SizeMismatch)
    );
    assert!(untouched(&loaded));

    let mut loaded = vec![("a".to_string(), fresh(1)), ("c".to_string(), fresh(2))];
    assert_eq!(
        Adam::load_from_checkpoint(&mut loaded, &files, false),
        Err(CheckpointError::UnknownName)
    );
    assert!(untouched(&loaded));

    let mut loaded = vec![("a".to_string(), fresh(1)), ("b".to_string(), fresh(2))];
    let other = Adam::write_to_checkpoint(&vec![
        ("a".to_string(), state(&[1.0])),
        ("x".to_string(), state(&[2.0, 3.0])),
    ])
    .unwrap();
    let mixed = vec![files[0].clone(), other[1].clone()];
    assert_eq!(
        Adam::load_from_checkpoint(&mut loaded, &mixed, false),
        Err(CheckpointError::NameMismatch)
    );
    assert!(untouched(&loaded));

    let mut twice = files[0].clone();
    twice.extend_from_slice(&files[0]);
    assert_eq!(
        Adam::load_from_checkpoint(&mut loaded, &vec![twice, files[1].clone()], false),
        Err(CheckpointError::DuplicateName)
    );
    assert_eq!(
        Adam::load_from_checkpoint(&mut loaded, &vec![files[0].clone()], false),
        Err(CheckpointError::Malformed)
    );
    assert_eq!(
        Adam::load_from_checkpoint(&mut loaded, &vec![files[0].clone(), vec![1, 2, 3]], false),
        Err(CheckpointError::Malformed)
    );
    // written in the current layout, read as legacy
    assert_eq!(
        Adam::load_from_checkpoint(&mut loaded, &files, true),
        Err(CheckpointError::Malformed)
    );
    assert!(untouched(&loaded));
}

#[test]
fn collection_that_cannot_be_written() {
    let bad = vec![("a\nb".to_string(), state(&[1.0]))];
    assert_eq!(Adam::write_to_checkpoint(&bad), Err(CheckpointError::InvalidName));
    let lying = vec![("a".to_string(), Adam::new(&Liar, 2, AdamParams::default()).unwrap())];
    assert_eq!(Adam::write_to_checkpoint(&lying), Err(CheckpointError::DeviceRead));
    assert_eq!(Adam::<Host>::write_to_checkpoint(&vec![]), Ok(vec![vec![], vec![]]));
}

#[test]
fn names_beyond_ascii_are_written_in_utf8() {
    let written = vec![("größe".to_string(), state(&[1.0]))];
    let files = Adam::write_to_checkpoint(&written).unwrap();
    assert_eq!(parse_checkpoint(&files[0], false).unwrap()[0].name, "größe".as_bytes().to_vec());
    let mut loaded = vec![("größe".to_string(), fresh(1))];
    assert_eq!(Adam::load_from_checkpoint(&mut loaded, &files, false), Ok(()));
    assert_eq!(floats(loaded[0].1.velocity()), vec![-1.0]);
}

#[test]
fn collection_with_a_name_twice_is_not_written() {
    let twice = vec![
        ("a".to_string(), state(&[1.0])),
        ("b".to_string(), state(&[2.0])),
        ("a".to_string(), state(&[3.0])),
    ];
    assert_eq!(Adam::write_to_checkpoint(&twice), Err(CheckpointError::DuplicateName));
    // a line feed in a name is reported first
    let both = vec![("a".to_string(), state(&[1.0])), ("a".to_string(), state(&[1.0])), ("x\ny".to_string(), state(&[1.0]))];
    assert_eq!(Adam::write_to_checkpoint(&both), Err(CheckpointError::InvalidName));
}

#[test]
fn collection_with_a_batched_buffer_is_not_written() {
    let mut batch: DenseMatrix<Host> = DenseMatrix::zeroed(&Host, 1).unwrap();
    batch.load_from_slice(Some(2), &scalars(&[1.0, 2.0])).unwrap();
    let plain: DenseMatrix<Host> = DenseMatrix::zeroed(&Host, 1).unwrap();
    let map = vec![
        ("a".to_string(), state(&[1.0])),
        ("b".to_string(), Adam::from_buffers(plain, batch, AdamParams::default())),
    ];
    assert_eq!(Adam::write_to_checkpoint(&map), Err(CheckpointError::DeviceRead));
}
