use bullet_core::trainer::batch::{chunk_size, chunks, BatchFormat, Example, PrepareError};
use bullet_core::trainer::loader::{DataLoader, GameResult, LoadableDataType};
use bullet_core::scalar::Scalar;
use bullet_core::shape::Shape;
use bulletformat::ChessBoard;

fn zero() -> Scalar {
    Scalar::from_bits(0)
}

fn one() -> Scalar {
    Scalar::from_bits(1.0f32.to_bits())
}

fn example(features: &[(usize, usize)], bucket: u8, result: GameResult, target: f32) -> Example {
    Example { features: features.to_vec(), bucket, result, target: Scalar::from_bits(target.to_bits()) }
}

fn sparse_format() -> BatchFormat {
    BatchFormat { input_size: 768, max_active: 4, buckets: 8, wdl: false, dense: false }
}

#[test]
fn game_results_are_numbered() {
    assert_eq!(GameResult::Loss.index(), 0);
    assert_eq!(GameResult::Draw.index(), 1);
    assert_eq!(GameResult::Win.index(), 2);
    assert_eq!(GameResult::from_index(0), Some(GameResult::Loss));
    assert_eq!(GameResult::from_index(1), Some(GameResult::Draw));
    assert_eq!(GameResult::from_index(2), Some(GameResult::Win));
    assert_eq!(GameResult::from_index(3), None);
    assert_eq!(GameResult::from_index(usize::MAX), None);
}

#[test]
fn chess_board_gives_score_and_result() {
    let board = ChessBoard { score: -37, result: 2, ..ChessBoard::default() };
    assert_eq!(LoadableDataType::score(&board), -37);
    assert_eq!(LoadableDataType::result(&board), Some(GameResult::Win));
    let drawn = ChessBoard { score: 12, result: 1, ..ChessBoard::default() };
    assert_eq!(LoadableDataType::result(&drawn), Some(GameResult::Draw));
    assert_eq!(LoadableDataType::score(&drawn), 12);
    let lost = ChessBoard::default();
    assert_eq!(LoadableDataType::result(&lost), Some(GameResult::Loss));
    assert_eq!(LoadableDataType::score(&lost), 0);
}

#[test]
fn chess_board_with_an_unknown_result_has_none() {
    let board = ChessBoard { result: 3, ..ChessBoard::default() };
    assert_eq!(LoadableDataType::result(&board), None);
    let board = ChessBoard { result: 255, score: 5, ..ChessBoard::default() };
    assert_eq!(LoadableDataType::result(&board), None);
    assert_eq!(LoadableDataType::score(&board), 5);
}

#[derive(Clone)]
struct Fixed {
    paths: Vec<String>,
    data: Vec<u32>,
}

impl DataLoader<u32> for Fixed {
    fn data_file_paths(&self) -> &[String] {
        &self.paths
    }

    fn map_batches<F: FnMut(&[u32]) -> bool>(&self, batch_size: usize, mut f: F) {
        for batch in self.data.chunks(batch_size) {
            if f(batch) {
                break;
            }
        }
    }
}

#[test]
fn data_loader_does_not_count_positions_by_default() {
    let loader = Fixed { paths: vec!["a.data".to_string()], data: vec![1, 2, 3, 4, 5] };
    assert_eq!(loader.count_positions(), None);
    assert_eq!(loader.data_file_paths(), &["a.data".to_string()]);
    let mut seen = Vec::new();
    loader.map_batches(2, |batch| {
        seen.push(batch.to_vec());
        batch.len() < 2
    });
    assert_eq!(seen, vec![vec![1, 2], vec![3, 4], vec![5]]);
}

#[test]
fn sparse_batch_lists_features_then_minus_one() {
    let examples = vec![
        example(&[(3, 30), (5, 50)], 7, GameResult::Win, 0.75),
        example(&[(1, 10), (2, 20), (3, 30), (4, 40)], 0, GameResult::Loss, 0.25),
        example(&[], 2, GameResult::Draw, 0.5),
    ];
    let batch = sparse_format().prepare(&examples).unwrap();
    assert_eq!(batch.batch_size, 3);
    assert_eq!(batch.stm.value, vec![3, 5, -1, 0, 1, 2, 3, 4, -1, 0, 0, 0]);
    assert_eq!(batch.nstm.value, vec![30, 50, -1, 0, 10, 20, 30, 40, -1, 0, 0, 0]);
    assert_eq!(batch.stm.max_active, 4);
    assert_eq!(batch.nstm.max_active, 4);
    assert_eq!(batch.stm.shape, Shape::new(768, 3));
    assert_eq!(batch.nstm.shape, Shape::new(768, 3));
    assert_eq!(batch.dstm.value, vec![zero(); 3]);
    assert_eq!(batch.dnstm.value, vec![zero(); 3]);
    assert_eq!(batch.buckets.value, vec![7, 0, 2]);
    assert_eq!(batch.buckets.shape, Shape::new(8, 3));
    assert_eq!(batch.buckets.max_active, 1);
    assert_eq!(batch.targets.shape, Shape::new(1, 3));
    let targets: Vec<f32> = batch.targets.value.iter().map(|s| f32::from_bits(s.to_bits())).collect();
    assert_eq!(targets, vec![0.75, 0.25, 0.5]);
}

#[test]
fn wdl_targets_are_one_among_three() {
    let format = BatchFormat { wdl: true, ..sparse_format() };
    let examples = vec![
        example(&[], 0, GameResult::Win, 0.75),
        example(&[], 0, GameResult::Loss, 0.25),
        example(&[], 0, GameResult::Draw, 0.5),
    ];
    let batch = format.prepare(&examples).unwrap();
    assert_eq!(batch.targets.shape, Shape::new(3, 3));
    assert_eq!(
        batch.targets.value,
        vec![zero(), zero(), one(), one(), zero(), zero(), zero(), one(), zero()]
    );
}

#[test]
fn dense_batch_sets_ones() {
    let format = BatchFormat { input_size: 4, max_active: 2, buckets: 1, wdl: false, dense: true };
    let examples = vec![
        example(&[(0, 3), (2, 3)], 0, GameResult::Win, 1.0),
        example(&[(1, 0)], 0, GameResult::Win, 1.0),
    ];
    let batch = format.prepare(&examples).unwrap();
    assert_eq!(batch.dstm.value, vec![one(), zero(), one(), zero(), zero(), one(), zero(), zero()]);
    assert_eq!(batch.dnstm.value, vec![zero(), zero(), zero(), one(), one(), zero(), zero(), zero()]);
    assert_eq!(batch.dstm.shape, Shape::new(4, 2));
    assert_eq!(batch.stm.value, vec![0, 0]);
    assert_eq!(batch.nstm.value, vec![0, 0]);
}

#[test]
fn batches_that_cannot_be_made() {
    let format = sparse_format();
    assert_eq!(format.prepare(&vec![]), Err(PrepareError::EmptyBatch));
    let five = [(0, 0), (1, 1), (2, 2), (3, 3), (4, 4)];
    let examples = vec![example(&[], 0, GameResult::Win, 0.0), example(&five, 0, GameResult::Win, 0.0)];
    assert_eq!(format.prepare(&examples), Err(PrepareError::TooManyFeatures(1)));
    let no_inputs = BatchFormat { input_size: 0, ..format };
    assert_eq!(
        no_inputs.prepare(&vec![example(&[], 0, GameResult::Win, 0.0)]),
        Err(PrepareError::InvalidShape)
    );
    let no_buckets = BatchFormat { buckets: 0, ..format };
    assert_eq!(
        no_buckets.prepare(&vec![example(&[], 0, GameResult::Win, 0.0)]),
        Err(PrepareError::InvalidShape)
    );
    let dense = BatchFormat { input_size: 4, max_active: 2, buckets: 1, wdl: false, dense: true };
    let examples = vec![
        example(&[(3, 3)], 0, GameResult::Win, 0.0),
        example(&[(0, 0)], 0, GameResult::Win, 0.0),
        example(&[(0, 4)], 0, GameResult::Win, 0.0),
    ];
    assert_eq!(dense.prepare(&examples), Err(PrepareError::FeatureOutOfRange(2)));
    // the same features are fine in a sparse batch
    let sparse = BatchFormat { dense: false, ..dense };
    assert!(sparse.prepare(&examples).is_ok());
}

#[test]
fn sparse_indices_are_cut_to_32_bits() {
    let format = BatchFormat { input_size: 768, max_active: 1, buckets: 1, wdl: false, dense: false };
    let big = (1usize << 31) + 5;
    let batch = format.prepare(&vec![example(&[(big, 7)], 0, GameResult::Win, 0.0)]).unwrap();
    assert_eq!(batch.stm.value, vec![big as i32]);
    assert_eq!(batch.nstm.value, vec![7]);
}

#[test]
fn chunk_size_is_the_quotient_rounded_up() {
    assert_eq!(chunk_size(16384, 8), Some(2048));
    assert_eq!(chunk_size(10, 3), Some(4));
    assert_eq!(chunk_size(10, 20), Some(1));
    assert_eq!(chunk_size(0, 4), Some(0));
    assert_eq!(chunk_size(1, 1), Some(1));
    assert_eq!(chunk_size(usize::MAX, 1), Some(usize::MAX));
    assert_eq!(chunk_size(usize::MAX, 2), Some(usize::MAX / 2 + 1));
    assert_eq!(chunk_size(10, 0), None);
}

#[test]
fn chunks_share_out_every_position_once() {
    assert_eq!(chunks(10, 3), Some(vec![(0, 4), (4, 8), (8, 10)]));
    assert_eq!(chunks(8, 4), Some(vec![(0, 2), (2, 4), (4, 6), (6, 8)]));
    assert_eq!(chunks(3, 8), Some(vec![(0, 1), (1, 2), (2, 3)]));
    assert_eq!(chunks(5, 1), Some(vec![(0, 5)]));
    // nine positions for four workers: three workers get three each
    assert_eq!(chunks(9, 4), Some(vec![(0, 3), (3, 6), (6, 9)]));
    assert_eq!(chunks(0, 4), None);
    assert_eq!(chunks(4, 0), None);
    assert_eq!(chunks(usize::MAX, 2).map(|c| c.len()), Some(2));
}
