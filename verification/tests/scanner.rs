use std::collections::{HashMap, HashSet};

use keyscan::{
    Action, Bias, Event, HardwareAccessError, Level, MatrixScanner, ACTIVE, COLS, IDLE_BIAS,
    INACTIVE, ROWS, ROW_PULL_DOWN_TIME_US,
};

/// How a line of the simulated board is set up.
#[derive(Clone, Copy, PartialEq, Eq, Debug)]
enum Mode {
    Input(Bias),
    Output,
}

/// A key matrix with its lines, for the scanner to work on.
struct Board {
    rows: Vec<u8>,
    cols: Vec<u8>,
    /// The keys that are held down, by row and column.
    held: HashSet<(usize, usize)>,
    /// The lines that something else has claimed.
    claimed: HashSet<u8>,
    modes: HashMap<u8, Mode>,
    driven: HashMap<u8, Level>,
    log: Vec<Action>,
    /// The number of active row lines found at each sample.
    active_rows_at_samples: Vec<usize>,
    /// Whether the row driven last has been given time to settle.
    settled: bool,
    samples_before_settling: usize,
}

impl Board {
    fn new(rows: &[u8], cols: &[u8]) -> Board {
        Board {
            rows: rows.to_vec(),
            cols: cols.to_vec(),
            held: HashSet::new(),
            claimed: HashSet::new(),
            modes: HashMap::new(),
            driven: HashMap::new(),
            log: Vec::new(),
            active_rows_at_samples: Vec::new(),
            settled: true,
            samples_before_settling: 0,
        }
    }

    fn with_held(mut self, keys: &[(usize, usize)]) -> Board {
        self.held = keys.iter().copied().collect();
        self
    }

    fn with_claimed(mut self, lines: &[u8]) -> Board {
        self.claimed = lines.iter().copied().collect();
        self
    }

    fn is_active_row(&self, row: usize) -> bool {
        self.driven.get(&self.rows[row]) == Some(&Level::Low)
    }

    fn active_row_lines(&self) -> usize {
        let lines: HashSet<u8> = self.rows.iter().copied().collect();
        lines.iter().filter(|line| self.driven.get(line) == Some(&Level::Low)).count()
    }

    fn level_of_column(&self, address: u8) -> Level {
        for &(row, col) in &self.held {
            if self.cols[col] == address && self.is_active_row(row) {
                return Level::Low;
            }
        }
        Level::High
    }

    fn perform(&mut self, action: Action) -> Event {
        self.log.push(action);
        if let Some(address) = action.address() {
            if self.claimed.contains(&address) {
                return Event::Failed;
            }
        }
        match action {
            Action::ConfigureInput { address, bias } => {
                self.modes.insert(address, Mode::Input(bias));
                self.driven.remove(&address);
                Event::Done
            }
            Action::ConfigureOutput { address } => {
                self.modes.insert(address, Mode::Output);
                self.driven.insert(address, Level::Low);
                Event::Done
            }
            Action::SetLevel { address, level } => {
                self.driven.insert(address, level);
                self.settled = false;
                Event::Done
            }
            Action::Sleep { micros } => {
                if micros >= ROW_PULL_DOWN_TIME_US {
                    self.settled = true;
                }
                Event::Done
            }
            Action::ReadLevel { address } => {
                self.active_rows_at_samples.push(self.active_row_lines());
                if !self.settled {
                    self.samples_before_settling += 1;
                }
                Event::Sampled(self.level_of_column(address))
            }
        }
    }
}

fn run_initialization(
    scanner: &mut MatrixScanner,
    board: &mut Board,
) -> Result<(), HardwareAccessError> {
    let mut run = scanner.initialize();
    let mut operations = 0;
    while let Some(action) = run.pending() {
        assert!(run.outcome().is_none());
        run.step(board.perform(action));
        operations += 1;
        assert!(operations <= 1000);
    }
    run.outcome().expect("a run that asks for nothing has ended")
}

fn run_scan(scanner: &mut MatrixScanner, board: &mut Board) -> Result<u32, HardwareAccessError> {
    let mut run = scanner.scan();
    let mut operations = 0;
    while let Some(action) = run.pending() {
        assert!(run.outcome().is_none());
        run.step(board.perform(action));
        operations += 1;
        assert!(operations <= 10_000);
    }
    run.outcome().expect("a run that asks for nothing has ended")
}

fn scanner_of(rows: &[u8], cols: &[u8]) -> MatrixScanner {
    MatrixScanner::new(rows.to_vec(), cols.to_vec()).expect("the lines fit the bitmask")
}

fn low(address: u8) -> Action {
    Action::SetLevel { address, level: Level::Low }
}

fn high(address: u8) -> Action {
    Action::SetLevel { address, level: Level::High }
}

fn sample(address: u8) -> Action {
    Action::ReadLevel { address }
}

fn settle() -> Action {
    Action::Sleep { micros: 10 }
}

#[test]
fn init() {
    let mut scanner = MatrixScanner::reference();
    let mut board = Board::new(&ROWS, &COLS);
    run_initialization(&mut scanner, &mut board).expect("Failed to initialize scan GPIO");
}

#[test]
fn read() {
    let mut scanner = MatrixScanner::reference();
    let mut board = Board::new(&ROWS, &COLS);
    run_initialization(&mut scanner, &mut board).expect("Failed to initialize scan GPIO");
    let keys = run_scan(&mut scanner, &mut board);
    assert_eq!(keys, Ok(0));
}

#[test]
fn all_keys() {
    const NUM_KEYS: u32 = 22;
    let mut scanner = MatrixScanner::reference();
    let mut board = Board::new(&ROWS, &COLS);
    run_initialization(&mut scanner, &mut board).expect("Failed to initialize scan GPIO");
    let mut detected_keys: u32 = 0;
    let mut last_keys: u32 = 0;
    let mut changes = 0;
    for press in 0..NUM_KEYS as usize {
        board.held = [(press / 3, press % 3)].into_iter().collect();
        let keys = run_scan(&mut scanner, &mut board).expect("the scan is not refused");
        assert_eq!(keys, 1u32 << press);
        detected_keys |= keys;
        if last_keys != keys {
            last_keys = keys;
            changes += 1;
        }
    }
    assert_eq!(changes, NUM_KEYS);
    assert_eq!(detected_keys.count_ones(), NUM_KEYS);
    assert_eq!(detected_keys, 0x003F_FFFF);
}

#[test]
fn constants_of_the_reference_design() {
    assert_eq!(ROWS, [13, 12, 16, 17, 20, 22, 23, 24]);
    assert_eq!(COLS, [25, 26, 27]);
    assert_eq!(ROW_PULL_DOWN_TIME_US, 10);
    assert_eq!(ACTIVE, Level::Low);
    assert_eq!(INACTIVE, Level::High);
    assert_eq!(IDLE_BIAS, Bias::PullUp);
    let mut scanner = MatrixScanner::reference();
    assert_eq!(scanner.n_rows(), 8);
    assert_eq!(scanner.n_cols(), 3);
    assert_eq!(scanner.settle_micros(), 10);
    for row in 0..8 {
        assert_eq!(scanner.row_address(row), ROWS[row]);
    }
    for col in 0..3 {
        assert_eq!(scanner.col_address(col), COLS[col]);
    }
}

#[test]
fn a_scanner_takes_as_many_lines_as_the_bitmask_is_wide() {
    let lines: Vec<u8> = (0..40).collect();
    assert!(MatrixScanner::new(lines[..16].to_vec(), lines[16..32].to_vec()).is_some());
    assert!(MatrixScanner::new(lines[..32].to_vec(), Vec::new()).is_some());
    assert!(MatrixScanner::new(Vec::new(), lines[..32].to_vec()).is_some());
    assert!(MatrixScanner::new(Vec::new(), Vec::new()).is_some());
    assert!(MatrixScanner::new(lines[..8].to_vec(), lines[8..11].to_vec()).is_some());
}

#[test]
fn a_scanner_refuses_more_lines_than_the_bitmask_is_wide() {
    let lines: Vec<u8> = (0..40).collect();
    assert!(MatrixScanner::new(lines[..17].to_vec(), lines[17..33].to_vec()).is_none());
    assert!(MatrixScanner::new(lines[..33].to_vec(), Vec::new()).is_none());
    assert!(MatrixScanner::new(Vec::new(), lines[..33].to_vec()).is_none());
    assert!(MatrixScanner::new(lines[..1].to_vec(), lines[1..33].to_vec()).is_none());
    assert!(MatrixScanner::new(lines.clone(), lines).is_none());
}

#[test]
fn a_new_scanner_keeps_its_lines_in_order() {
    let mut scanner = scanner_of(&[9, 4, 7], &[2, 30]);
    assert_eq!(scanner.n_rows(), 3);
    assert_eq!(scanner.n_cols(), 2);
    assert_eq!(scanner.row_address(0), 9);
    assert_eq!(scanner.row_address(1), 4);
    assert_eq!(scanner.row_address(2), 7);
    assert_eq!(scanner.col_address(0), 2);
    assert_eq!(scanner.col_address(1), 30);
    assert_eq!(scanner.settle_micros(), 10);
}

#[test]
fn the_settle_time_can_be_set() {
    let mut scanner = scanner_of(&[1], &[2]).with_settle_micros(25);
    assert_eq!(scanner.settle_micros(), 25);
    assert_eq!(scanner.n_rows(), 1);
    assert_eq!(scanner.row_address(0), 1);
    assert_eq!(scanner.col_address(0), 2);
    let mut board = Board::new(&[1], &[2]);
    run_scan(&mut scanner, &mut board).expect("the scan is not refused");
    assert_eq!(board.log, vec![low(1), Action::Sleep { micros: 25 }, sample(2), high(1)]);
}

#[test]
fn key_indices_run_row_by_row() {
    let mut scanner = MatrixScanner::reference();
    assert_eq!(scanner.key_index(0, 0), 0);
    assert_eq!(scanner.key_index(0, 1), 1);
    assert_eq!(scanner.key_index(0, 2), 2);
    assert_eq!(scanner.key_index(1, 0), 3);
    assert_eq!(scanner.key_index(2, 1), 7);
    assert_eq!(scanner.key_index(7, 2), 23);
}

#[test]
fn key_indices_are_a_bijection() {
    for (n_rows, n_cols) in [(8usize, 3usize), (1, 1), (3, 8), (16, 16), (1, 31), (31, 1)] {
        let rows: Vec<u8> = (0..n_rows as u8).collect();
        let cols: Vec<u8> = (100..100 + n_cols as u8).collect();
        let mut scanner = scanner_of(&rows, &cols);
        let mut expected = 0usize;
        for row in 0..n_rows {
            for col in 0..n_cols {
                let index = scanner.key_index(row, col) as usize;
                assert_eq!(index, expected);
                assert_eq!(index, row * n_cols + col);
                assert_eq!((index / n_cols, index % n_cols), (row, col));
                expected += 1;
            }
        }
        assert_eq!(expected, n_rows * n_cols);
    }
}

#[test]
fn the_last_key_of_the_largest_matrix_has_index_255() {
    let rows: Vec<u8> = (0..16).collect();
    let cols: Vec<u8> = (16..32).collect();
    let mut scanner = scanner_of(&rows, &cols);
    assert_eq!(scanner.key_index(15, 15), 255);
}

#[test]
fn initialization_takes_the_columns_then_the_rows() {
    let mut scanner = scanner_of(&[5, 6], &[7, 8, 9]);
    let mut board = Board::new(&[5, 6], &[7, 8, 9]);
    assert_eq!(run_initialization(&mut scanner, &mut board), Ok(()));
    assert_eq!(
        board.log,
        vec![
            Action::ConfigureInput { address: 7, bias: Bias::PullUp },
            Action::ConfigureInput { address: 8, bias: Bias::PullUp },
            Action::ConfigureInput { address: 9, bias: Bias::PullUp },
            Action::ConfigureOutput { address: 5 },
            high(5),
            Action::ConfigureOutput { address: 6 },
            high(6),
        ]
    );
}

#[test]
fn initialization_leaves_rows_inactive_and_columns_pulled_up() {
    let mut scanner = MatrixScanner::reference();
    let mut board = Board::new(&ROWS, &COLS);
    for row in ROWS {
        board.driven.insert(row, Level::Low);
    }
    assert_eq!(run_initialization(&mut scanner, &mut board), Ok(()));
    for row in ROWS {
        assert_eq!(board.modes.get(&row), Some(&Mode::Output));
        assert_eq!(board.driven.get(&row), Some(&Level::High));
    }
    for col in COLS {
        assert_eq!(board.modes.get(&col), Some(&Mode::Input(Bias::PullUp)));
        assert_eq!(board.driven.get(&col), None);
    }
    assert_eq!(board.active_row_lines(), 0);
    assert_eq!(board.log.len(), 3 + 2 * 8);
}

#[test]
fn initialization_without_lines_is_over_at_once() {
    let mut scanner = scanner_of(&[], &[]);
    let run = scanner.initialize();
    assert_eq!(run.pending(), None);
    assert_eq!(run.outcome(), Some(Ok(())));
}

#[test]
fn initialization_without_columns_starts_at_the_rows() {
    let mut scanner = scanner_of(&[3], &[]);
    let mut board = Board::new(&[3], &[]);
    assert_eq!(run_initialization(&mut scanner, &mut board), Ok(()));
    assert_eq!(board.log, vec![Action::ConfigureOutput { address: 3 }, high(3)]);
}

#[test]
fn initialization_without_rows_ends_after_the_columns() {
    let mut scanner = scanner_of(&[], &[3, 4]);
    let mut board = Board::new(&[], &[3, 4]);
    assert_eq!(run_initialization(&mut scanner, &mut board), Ok(()));
    assert_eq!(
        board.log,
        vec![
            Action::ConfigureInput { address: 3, bias: Bias::PullUp },
            Action::ConfigureInput { address: 4, bias: Bias::PullUp },
        ]
    );
}

#[test]
fn initialization_stops_at_a_claimed_column() {
    let mut scanner = MatrixScanner::reference();
    let mut board = Board::new(&ROWS, &COLS).with_claimed(&[26]);
    let refused = Action::ConfigureInput { address: 26, bias: Bias::PullUp };
    assert_eq!(
        run_initialization(&mut scanner, &mut board),
        Err(HardwareAccessError { operation: refused })
    );
    let first = Action::ConfigureInput { address: 25, bias: Bias::PullUp };
    assert_eq!(board.log, vec![first, refused]);
    assert_eq!(board.modes.len(), 1);
    assert!(board.driven.is_empty());
}

#[test]
fn initialization_stops_at_a_claimed_row() {
    let mut scanner = MatrixScanner::reference();
    let mut board = Board::new(&ROWS, &COLS).with_claimed(&[16]);
    let refused = Action::ConfigureOutput { address: 16 };
    assert_eq!(
        run_initialization(&mut scanner, &mut board),
        Err(HardwareAccessError { operation: refused })
    );
    assert_eq!(board.log.len(), 3 + 2 + 2 + 1);
    assert_eq!(board.log.last(), Some(&refused));
    for row in [17, 20, 22, 23, 24] {
        assert_eq!(board.modes.get(&row), None);
    }
    assert_eq!(board.modes.get(&16), None);
}

#[test]
fn initialization_reports_a_refused_level() {
    let mut scanner = scanner_of(&[5], &[7]);
    let mut run = scanner.initialize();
    assert_eq!(run.pending(), Some(Action::ConfigureInput { address: 7, bias: Bias::PullUp }));
    run.step(Event::Done);
    assert_eq!(run.pending(), Some(Action::ConfigureOutput { address: 5 }));
    run.step(Event::Done);
    assert_eq!(run.pending(), Some(high(5)));
    assert_eq!(run.outcome(), None);
    run.step(Event::Failed);
    assert_eq!(run.pending(), None);
    assert_eq!(run.outcome(), Some(Err(HardwareAccessError { operation: high(5) })));
}

#[test]
fn a_refused_initialization_stays_refused() {
    let mut scanner = scanner_of(&[5], &[7]);
    let mut run = scanner.initialize();
    run.step(Event::Failed);
    let refused = Action::ConfigureInput { address: 7, bias: Bias::PullUp };
    let refusal = HardwareAccessError { operation: refused };
    for event in [Event::Done, Event::Sampled(Level::Low), Event::Failed, Event::Done] {
        run.step(event);
        assert_eq!(run.pending(), None);
        assert_eq!(run.outcome(), Some(Err(refusal)));
    }
}

#[test]
fn initialization_takes_a_sample_for_a_refusal() {
    let mut scanner = scanner_of(&[5], &[7]);
    let mut run = scanner.initialize();
    run.step(Event::Sampled(Level::High));
    assert_eq!(run.pending(), None);
    assert_eq!(
        run.outcome(),
        Some(Err(HardwareAccessError {
            operation: Action::ConfigureInput { address: 7, bias: Bias::PullUp }
        }))
    );
}

#[test]
fn a_finished_initialization_ignores_events() {
    let mut scanner = scanner_of(&[5], &[]);
    let mut run = scanner.initialize();
    run.step(Event::Done);
    run.step(Event::Done);
    assert_eq!(run.outcome(), Some(Ok(())));
    for event in [Event::Done, Event::Failed, Event::Sampled(Level::Low)] {
        run.step(event);
        assert_eq!(run.pending(), None);
        assert_eq!(run.outcome(), Some(Ok(())));
    }
}

#[test]
fn a_scan_takes_each_row_in_turn() {
    let mut scanner = scanner_of(&[5, 6], &[7, 8]);
    let mut board = Board::new(&[5, 6], &[7, 8]);
    assert_eq!(run_scan(&mut scanner, &mut board), Ok(0));
    assert_eq!(
        board.log,
        vec![
            low(5),
            settle(),
            sample(7),
            sample(8),
            high(5),
            low(6),
            settle(),
            sample(7),
            sample(8),
            high(6),
        ]
    );
}

#[test]
fn a_scan_of_the_reference_design_has_48_operations() {
    let mut scanner = MatrixScanner::reference();
    let mut board = Board::new(&ROWS, &COLS);
    assert_eq!(run_scan(&mut scanner, &mut board), Ok(0));
    assert_eq!(board.log.len(), 8 * (3 + 3));
    assert_eq!(board.active_rows_at_samples.len(), 24);
}

#[test]
fn scan_of_an_idle_matrix_is_zero() {
    for (rows, cols) in [
        (ROWS.to_vec(), COLS.to_vec()),
        (vec![1], vec![2]),
        (vec![1, 2, 3], vec![]),
        (vec![], vec![1, 2, 3]),
        ((0..16).collect(), (16..32).collect()),
    ] {
        let mut scanner = scanner_of(&rows, &cols);
        let mut board = Board::new(&rows, &cols);
        assert_eq!(run_initialization(&mut scanner, &mut board), Ok(()));
        assert_eq!(run_scan(&mut scanner, &mut board), Ok(0));
    }
}

#[test]
fn scan_finds_the_key_at_row_2_column_1() {
    let mut scanner = MatrixScanner::reference();
    let mut board = Board::new(&ROWS, &COLS).with_held(&[(2, 1)]);
    run_initialization(&mut scanner, &mut board).expect("nothing is claimed");
    let keys = run_scan(&mut scanner, &mut board).expect("the scan is not refused");
    assert_eq!(keys, 1u32 << 7);
    assert_eq!(keys, 0x80);
    assert_eq!(keys.count_ones(), 1);
    for n in 0u8..32 {
        assert_eq!(keyscan::get_bit_at(keys, n), n == 7);
    }
}

#[test]
fn scan_finds_every_single_key() {
    let mut scanner = MatrixScanner::reference();
    for row in 0..8 {
        for col in 0..3 {
            let mut board = Board::new(&ROWS, &COLS).with_held(&[(row, col)]);
            run_initialization(&mut scanner, &mut board).expect("nothing is claimed");
            assert_eq!(run_scan(&mut scanner, &mut board), Ok(1u32 << (row * 3 + col)));
        }
    }
}

#[test]
fn scan_finds_several_keys() {
    let mut scanner = MatrixScanner::reference();
    let mut board = Board::new(&ROWS, &COLS).with_held(&[(0, 0), (0, 2), (3, 1), (7, 2)]);
    run_initialization(&mut scanner, &mut board).expect("nothing is claimed");
    assert_eq!(run_scan(&mut scanner, &mut board), Ok(1 | 1 << 2 | 1 << 10 | 1 << 23));
    let mut all = Board::new(&ROWS, &COLS);
    for row in 0..8 {
        for col in 0..3 {
            all.held.insert((row, col));
        }
    }
    run_initialization(&mut scanner, &mut all).expect("nothing is claimed");
    assert_eq!(run_scan(&mut scanner, &mut all), Ok(0x00FF_FFFF));
}

#[test]
fn scan_twice_returns_the_same() {
    let mut scanner = MatrixScanner::reference();
    for held in [vec![], vec![(2, 1)], vec![(0, 0), (7, 2), (4, 1)]] {
        let mut board = Board::new(&ROWS, &COLS).with_held(&held);
        run_initialization(&mut scanner, &mut board).expect("nothing is claimed");
        let first = run_scan(&mut scanner, &mut board);
        let levels = board.driven.clone();
        let second = run_scan(&mut scanner, &mut board);
        assert!(first.is_ok());
        assert_eq!(first, second);
        assert_eq!(board.driven, levels);
    }
}

#[test]
fn a_released_key_is_gone_from_the_next_scan() {
    let mut scanner = MatrixScanner::reference();
    let mut board = Board::new(&ROWS, &COLS).with_held(&[(1, 1), (5, 0)]);
    run_initialization(&mut scanner, &mut board).expect("nothing is claimed");
    assert_eq!(run_scan(&mut scanner, &mut board), Ok(1 << 4 | 1 << 15));
    board.held.remove(&(1, 1));
    assert_eq!(run_scan(&mut scanner, &mut board), Ok(1 << 15));
    board.held.clear();
    assert_eq!(run_scan(&mut scanner, &mut board), Ok(0));
}

#[test]
fn one_row_is_active_at_every_sample() {
    let mut scanner = MatrixScanner::reference();
    for held in [vec![], vec![(2, 1)], vec![(0, 0), (0, 1), (0, 2), (7, 0), (3, 1)]] {
        let mut board = Board::new(&ROWS, &COLS).with_held(&held);
        run_initialization(&mut scanner, &mut board).expect("nothing is claimed");
        run_scan(&mut scanner, &mut board).expect("the scan is not refused");
        run_scan(&mut scanner, &mut board).expect("the scan is not refused");
        assert_eq!(board.active_rows_at_samples, vec![1; 48]);
        assert_eq!(board.active_row_lines(), 0);
    }
}

#[test]
fn no_row_is_ever_active_in_a_matrix_without_rows() {
    let mut scanner = scanner_of(&[], &[4, 5]);
    let mut board = Board::new(&[], &[4, 5]);
    let run = scanner.scan();
    assert_eq!(run.pending(), None);
    assert_eq!(run.outcome(), Some(Ok(0)));
    assert_eq!(run_scan(&mut scanner, &mut board), Ok(0));
    assert!(board.log.is_empty());
    assert_eq!(board.active_row_lines(), 0);
}

#[test]
fn a_row_settles_before_its_columns_are_sampled() {
    let mut scanner = MatrixScanner::reference();
    let mut board = Board::new(&ROWS, &COLS).with_held(&[(2, 1)]);
    run_initialization(&mut scanner, &mut board).expect("nothing is claimed");
    run_scan(&mut scanner, &mut board).expect("the scan is not refused");
    assert_eq!(board.samples_before_settling, 0);
    let sleeps: Vec<&Action> =
        board.log.iter().filter(|action| matches!(action, Action::Sleep { .. })).collect();
    assert_eq!(sleeps.len(), 8);
    for sleep in sleeps {
        assert_eq!(*sleep, Action::Sleep { micros: 10 });
    }
}

#[test]
fn a_matrix_without_columns_is_driven_and_released() {
    let mut scanner = scanner_of(&[5, 6], &[]);
    let mut board = Board::new(&[5, 6], &[]);
    assert_eq!(run_scan(&mut scanner, &mut board), Ok(0));
    assert_eq!(board.log, vec![low(5), settle(), high(5), low(6), settle(), high(6)]);
}

#[test]
fn keys_beyond_the_width_are_dropped() {
    let rows: Vec<u8> = (0..16).collect();
    let cols: Vec<u8> = (16..32).collect();
    let mut scanner = scanner_of(&rows, &cols);
    let mut board =
        Board::new(&rows, &cols).with_held(&[(0, 3), (1, 15), (2, 0), (2, 8), (15, 15)]);
    run_initialization(&mut scanner, &mut board).expect("nothing is claimed");
    board.log.clear();
    assert_eq!(run_scan(&mut scanner, &mut board), Ok(1 << 3 | 1 << 31));
    assert_eq!(board.log.len(), 16 * (16 + 3));
    assert_eq!(board.active_rows_at_samples, vec![1; 256]);
}

#[test]
fn a_scan_by_hand() {
    let mut scanner = scanner_of(&[13], &[25, 26]);
    let mut run = scanner.scan();
    assert_eq!(run.pending(), Some(low(13)));
    assert_eq!(run.outcome(), None);
    run.step(Event::Done);
    assert_eq!(run.pending(), Some(settle()));
    run.step(Event::Done);
    assert_eq!(run.pending(), Some(sample(25)));
    run.step(Event::Sampled(Level::High));
    assert_eq!(run.pending(), Some(sample(26)));
    run.step(Event::Sampled(Level::Low));
    assert_eq!(run.pending(), Some(high(13)));
    assert_eq!(run.outcome(), None);
    run.step(Event::Done);
    assert_eq!(run.pending(), None);
    assert_eq!(run.outcome(), Some(Ok(0b10)));
}

#[test]
fn a_scan_reports_the_refused_operation() {
    let mut scanner = MatrixScanner::reference();
    let mut board = Board::new(&ROWS, &COLS);
    run_initialization(&mut scanner, &mut board).expect("nothing is claimed");
    board.log.clear();
    board.claimed.insert(27);
    let refusal = HardwareAccessError { operation: sample(27) };
    assert_eq!(run_scan(&mut scanner, &mut board), Err(refusal));
    assert_eq!(board.log, vec![low(13), settle(), sample(25), sample(26), sample(27)]);
}

#[test]
fn a_scan_stops_at_a_refused_row() {
    let mut scanner = MatrixScanner::reference();
    let mut board = Board::new(&ROWS, &COLS).with_held(&[(0, 0)]);
    run_initialization(&mut scanner, &mut board).expect("nothing is claimed");
    board.log.clear();
    board.claimed.insert(12);
    assert_eq!(run_scan(&mut scanner, &mut board), Err(HardwareAccessError { operation: low(12) }));
    assert_eq!(board.log.len(), 6 + 1);
    assert_eq!(board.active_row_lines(), 0);
}

#[test]
fn a_refused_scan_stays_refused() {
    let mut scanner = scanner_of(&[5], &[7]);
    let mut run = scanner.scan();
    run.step(Event::Done);
    run.step(Event::Failed);
    let refusal = HardwareAccessError { operation: settle() };
    assert_eq!(refusal.operation.address(), None);
    for event in [Event::Done, Event::Sampled(Level::Low), Event::Failed] {
        run.step(event);
        assert_eq!(run.pending(), None);
        assert_eq!(run.outcome(), Some(Err(refusal)));
    }
}

#[test]
fn a_scan_takes_an_event_that_does_not_answer_for_a_refusal() {
    let mut scanner = scanner_of(&[5], &[7]);
    let mut run = scanner.scan();
    run.step(Event::Sampled(Level::Low));
    assert_eq!(run.outcome(), Some(Err(HardwareAccessError { operation: low(5) })));

    let mut run = scanner.scan();
    run.step(Event::Done);
    run.step(Event::Done);
    assert_eq!(run.pending(), Some(sample(7)));
    run.step(Event::Done);
    assert_eq!(run.pending(), None);
    assert_eq!(run.outcome(), Some(Err(HardwareAccessError { operation: sample(7) })));
}

#[test]
fn a_finished_scan_ignores_events() {
    let mut scanner = scanner_of(&[5], &[7]);
    let mut run = scanner.scan();
    run.step(Event::Done);
    run.step(Event::Done);
    run.step(Event::Sampled(Level::Low));
    run.step(Event::Done);
    assert_eq!(run.outcome(), Some(Ok(1)));
    for event in [Event::Done, Event::Failed, Event::Sampled(Level::High)] {
        run.step(event);
        assert_eq!(run.pending(), None);
        assert_eq!(run.outcome(), Some(Ok(1)));
    }
}

#[test]
fn the_address_of_an_operation() {
    assert_eq!(Action::ConfigureInput { address: 4, bias: Bias::PullDown }.address(), Some(4));
    assert_eq!(Action::ConfigureOutput { address: 5 }.address(), Some(5));
    assert_eq!(low(6).address(), Some(6));
    assert_eq!(sample(7).address(), Some(7));
    assert_eq!(settle().address(), None);
}
